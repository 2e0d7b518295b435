//! The line-filtering engine: splitting contents into lines and testing
//! substring containment, case-sensitively or against the lower-cased line.

use vstd::prelude::*;
use vstd::string::StrSliceExecFns;

verus! {

/// The needle `n` stands in `h` starting at character position `i`.
pub open spec fn contains_at(h: Seq<char>, n: Seq<char>, i: int) -> bool {
    0 <= i && i + n.len() <= h.len() && h.subrange(i, i + n.len()) == n
}

/// The needle `n` occurs somewhere in `h` as a contiguous substring.
pub open spec fn spec_contains(h: Seq<char>, n: Seq<char>) -> bool {
    exists|i: int| contains_at(h, n, i)
}

/// Whether two string slices hold the same characters.
pub fn str_eq(a: &str, b: &str) -> (r: bool)
    ensures
        r == (a@ == b@),
{
    let la = a.unicode_len();
    let lb = b.unicode_len();
    if la != lb {
        return false;
    }
    let mut i: usize = 0;
    while i < la
        invariant
            la == a@.len(),
            la == b@.len(),
            i <= la,
            forall|j: int| 0 <= j < i ==> a@[j] == b@[j],
        decreases la - i,
    {
        if a.get_char(i) != b.get_char(i) {
            return false;
        }
        i += 1;
    }
    proof {
        assert(a@ =~= b@);
    }
    true
}

/// Whether `needle` stands in `hay` starting at character position `i`.
fn matches_at(hay: &str, needle: &str, i: usize) -> (r: bool)
    requires
        hay@.len() <= usize::MAX,
        i + needle@.len() <= hay@.len(),
    ensures
        r == (hay@.subrange(i as int, i + needle@.len()) == needle@),
{
    let n = needle.unicode_len();
    let mut j: usize = 0;
    while j < n
        invariant
            n == needle@.len(),
            hay@.len() <= usize::MAX,
            i + n <= hay@.len(),
            j <= n,
            forall|t: int| 0 <= t < j ==> hay@[i + t] == needle@[t],
        decreases n - j,
    {
        if hay.get_char(i + j) != needle.get_char(j) {
            proof {
                assert(hay@.subrange(i as int, i + n as int)[j as int] == hay@[i + j]);
            }
            return false;
        }
        j += 1;
    }
    proof {
        assert(hay@.subrange(i as int, i + n as int) =~= needle@);
    }
    true
}

/// Whether `needle` occurs in `hay` as a contiguous substring.
pub fn contains_substring(hay: &str, needle: &str) -> (r: bool)
    ensures
        r == spec_contains(hay@, needle@),
{
    let hl = hay.unicode_len();
    let nl = needle.unicode_len();
    if nl == 0 {
        proof {
            assert(hay@.subrange(0, 0) =~= needle@);
            assert(contains_at(hay@, needle@, 0));
        }
        return true;
    }
    if nl > hl {
        proof {
            assert forall|i: int| !contains_at(hay@, needle@, i) by {
                assert(i >= 0 ==> i + needle@.len() > hay@.len());
            }
        }
        return false;
    }
    let limit = hl - nl;
    let mut i: usize = 0;
    while i <= limit
        invariant
            hl == hay@.len(),
            nl == needle@.len(),
            1 <= nl <= hl,
            limit == hl - nl,
            i <= limit + 1,
            forall|k: int| 0 <= k < i ==> !contains_at(hay@, needle@, k),
        decreases limit + 1 - i,
    {
        if matches_at(hay, needle, i) {
            proof {
                assert(contains_at(hay@, needle@, i as int));
            }
            return true;
        }
        i += 1;
    }
    proof {
        assert forall|k: int| !contains_at(hay@, needle@, k) by {
            if k > limit as int {
                assert(k + needle@.len() > hay@.len());
            }
        }
    }
    false
}

/// What `str::to_lowercase` returns for a given sequence of characters.
pub uninterp spec fn lower_of(s: Seq<char>) -> Seq<char>;

/// Relies on `str::to_lowercase`: the result depends on the characters alone.
#[verifier::external_body]
fn lowercase(s: &str) -> (r: String)
    ensures
        r@ == lower_of(s@),
{
    s.to_lowercase()
}

/// A line satisfies the search. With `ignore_case` off the query must occur
/// in the line itself; with it on the query must occur in the lower-cased
/// line. The query is taken as given either way: a caller who wants a fully
/// case-insensitive search lower-cases the query before filtering.
pub open spec fn line_matches(query: Seq<char>, line: Seq<char>, ignore_case: bool) -> bool {
    if ignore_case {
        spec_contains(lower_of(line), query)
    } else {
        spec_contains(line, query)
    }
}

/// Character position of the first line feed in `s`, or `s.len()` when there
/// is none.
pub open spec fn first_nl(s: Seq<char>) -> int
    decreases s.len(),
{
    if s.len() == 0 {
        0
    } else if s[0] == '\n' {
        0
    } else {
        1 + first_nl(s.skip(1))
    }
}

/// A carriage return standing last belongs to a `\r\n` terminator: it is no
/// part of the line.
pub open spec fn drop_final_cr(l: Seq<char>) -> Seq<char> {
    if l.len() > 0 && l[l.len() - 1] == '\r' {
        l.drop_last()
    } else {
        l
    }
}

/// The lines of `s`: the pieces between line feeds, where a carriage return
/// directly before a line feed belongs to the terminator. A trailing
/// terminator opens no further empty line, and empty contents have no lines.
pub open spec fn spec_lines(s: Seq<char>) -> Seq<Seq<char>>
    decreases s.len(),
{
    if s.len() == 0 {
        seq![]
    } else {
        let i = first_nl(s);
        if 0 <= i < s.len() {
            seq![drop_final_cr(s.take(i))] + spec_lines(s.skip(i + 1))
        } else {
            seq![s]
        }
    }
}

/// The lines among `lines` that satisfy the search, in their original order.
pub open spec fn spec_filter_lines(
    query: Seq<char>,
    lines: Seq<Seq<char>>,
    ignore_case: bool,
) -> Seq<Seq<char>>
    decreases lines.len(),
{
    if lines.len() == 0 {
        seq![]
    } else {
        let init = spec_filter_lines(query, lines.drop_last(), ignore_case);
        if line_matches(query, lines.last(), ignore_case) {
            init.push(lines.last())
        } else {
            init
        }
    }
}

/// What `filter` returns: the matching lines of `contents`, in order.
pub open spec fn spec_filter(
    query: Seq<char>,
    contents: Seq<char>,
    ignore_case: bool,
) -> Seq<Seq<char>> {
    spec_filter_lines(query, spec_lines(contents), ignore_case)
}

/// `first_nl` names the position of the first line feed: establishing the
/// position from its neighbourhood.
proof fn lemma_first_nl_is(s: Seq<char>, k: int)
    requires
        0 <= k <= s.len(),
        forall|j: int| 0 <= j < k ==> s[j] != '\n',
        k < s.len() ==> s[k] == '\n',
    ensures
        first_nl(s) == k,
    decreases k,
{
    if k == 0 {
    } else {
        assert(s[0] != '\n');
        lemma_first_nl_is(s.skip(1), k - 1);
    }
}

/// The lines of `contents` as borrowed slices of it, in order.
pub fn split_lines<'a>(contents: &'a str) -> (r: Vec<&'a str>)
    ensures
        r.deep_view() == spec_lines(contents@),
{
    let len = contents.unicode_len();
    let mut result: Vec<&'a str> = Vec::new();
    let mut start: usize = 0;
    let mut i: usize = 0;
    proof {
        assert(result.deep_view() =~= Seq::<Seq<char>>::empty());
        assert(contents@.skip(0) =~= contents@);
        assert(spec_lines(contents@) =~= result.deep_view() + spec_lines(contents@.skip(0)));
    }
    while i < len
        invariant
            len == contents@.len(),
            start <= i <= len,
            forall|j: int| start <= j < i ==> contents@[j] != '\n',
            spec_lines(contents@) == result.deep_view() + spec_lines(contents@.skip(start as int)),
        decreases len - i,
    {
        if contents.get_char(i) == '\n' {
            let end = if i > start && contents.get_char(i - 1) == '\r' {
                i - 1
            } else {
                i
            };
            let line = contents.substring_char(start, end);
            proof {
                let s = contents@.skip(start as int);
                let k = i - start;
                assert forall|j: int| 0 <= j < k implies s[j] != '\n' by {
                    assert(s[j] == contents@[start + j]);
                }
                assert(s[k] == contents@[i as int]);
                lemma_first_nl_is(s, k);
                assert(s.take(k) =~= contents@.subrange(start as int, i as int));
                assert(line@ == drop_final_cr(s.take(k))) by {
                    if i > start && contents@[i - 1] == '\r' {
                        assert(s.take(k).len() == k);
                        assert(s.take(k)[k - 1] == contents@[i - 1]);
                        assert(line@ =~= s.take(k).drop_last());
                    } else {
                        if k > 0 {
                            assert(s.take(k)[k - 1] == contents@[i - 1]);
                        }
                    }
                }
                assert(s.skip(k + 1) =~= contents@.skip(i + 1));
                assert(spec_lines(s) == seq![line@] + spec_lines(contents@.skip(i + 1)));
                let prev = result.deep_view();
                assert(prev + spec_lines(s) =~= prev.push(line@) + spec_lines(contents@.skip(i + 1)));
            }
            let ghost prev = result.deep_view();
            result.push(line);
            proof {
                assert(result.deep_view() =~= prev.push(line@));
            }
            start = i + 1;
        }
        i += 1;
    }
    if start < len {
        let line = contents.substring_char(start, len);
        proof {
            let s = contents@.skip(start as int);
            assert forall|j: int| 0 <= j < s.len() implies s[j] != '\n' by {
                assert(s[j] == contents@[start + j]);
            }
            lemma_first_nl_is(s, s.len() as int);
            assert(line@ =~= s);
            assert(spec_lines(s) == seq![line@]);
            let prev = result.deep_view();
            assert(prev + spec_lines(s) =~= prev.push(line@));
        }
        let ghost prev = result.deep_view();
        result.push(line);
        proof {
            assert(result.deep_view() =~= prev.push(line@));
        }
    } else {
        proof {
            let s = contents@.skip(start as int);
            assert(s.len() == 0);
            assert(result.deep_view() + spec_lines(s) =~= result.deep_view());
        }
    }
    result
}

/// Return every line of `contents` in which `query` occurs, in original
/// order and unchanged. With `ignore_case` the line alone is lower-cased
/// before the containment test; the query never is.
pub fn filter<'a>(query: &str, contents: &'a str, ignore_case: bool) -> (r: Vec<&'a str>)
    ensures
        r.deep_view() == spec_filter(query@, contents@, ignore_case),
{
    let lines = split_lines(contents);
    let mut result: Vec<&'a str> = Vec::new();
    let mut i: usize = 0;
    proof {
        assert(result.deep_view() =~= Seq::<Seq<char>>::empty());
        assert(lines.deep_view().take(0) =~= Seq::<Seq<char>>::empty());
    }
    while i < lines.len()
        invariant
            lines.deep_view() == spec_lines(contents@),
            lines.deep_view().len() == lines@.len(),
            i <= lines@.len(),
            result.deep_view() == spec_filter_lines(
                query@,
                lines.deep_view().take(i as int),
                ignore_case,
            ),
        decreases lines@.len() - i,
    {
        let line = lines[i];
        let matched = if ignore_case {
            let low = lowercase(line);
            contains_substring(low.as_str(), query)
        } else {
            contains_substring(line, query)
        };
        proof {
            assert(lines.deep_view()[i as int] == lines@[i as int]@);
            assert(matched == line_matches(query@, line@, ignore_case));
            assert(lines.deep_view().take(i + 1).drop_last() =~= lines.deep_view().take(i as int));
            assert(lines.deep_view().take(i + 1).last() == lines.deep_view()[i as int]);
        }
        let ghost prev = result.deep_view();
        if matched {
            result.push(line);
            proof {
                assert(result.deep_view() =~= prev.push(line@));
            }
        }
        i += 1;
    }
    proof {
        assert(lines.deep_view().take(lines@.len() as int) =~= lines.deep_view());
    }
    result
}

/// `m` lists, strictly increasing, positions of `b` at which the elements of
/// `a` stand: `a` is `b` with some elements left out and the order kept.
pub open spec fn is_index_map(m: Seq<int>, a: Seq<Seq<char>>, b: Seq<Seq<char>>) -> bool {
    &&& m.len() == a.len()
    &&& forall|k: int| 0 <= k < m.len() ==> 0 <= #[trigger] m[k] < b.len() && a[k] == b[m[k]]
    &&& forall|k1: int, k2: int| 0 <= k1 < k2 < m.len() ==> #[trigger] m[k1] < #[trigger] m[k2]
}

/// `a` consists of elements of `b`, in their original order.
pub open spec fn is_subsequence(a: Seq<Seq<char>>, b: Seq<Seq<char>>) -> bool {
    exists|m: Seq<int>| is_index_map(m, a, b)
}

/// The filtered lines are a subsequence of the lines they were taken from.
proof fn lemma_filter_lines_subsequence(query: Seq<char>, lines: Seq<Seq<char>>, ignore_case: bool)
    ensures
        is_subsequence(spec_filter_lines(query, lines, ignore_case), lines),
    decreases lines.len(),
{
    let res = spec_filter_lines(query, lines, ignore_case);
    if lines.len() == 0 {
        let m = Seq::<int>::empty();
        assert(is_index_map(m, res, lines));
    } else {
        lemma_filter_lines_subsequence(query, lines.drop_last(), ignore_case);
        let init = spec_filter_lines(query, lines.drop_last(), ignore_case);
        let m0 = choose|m: Seq<int>| is_index_map(m, init, lines.drop_last());
        assert(forall|j: int| 0 <= j < lines.len() - 1 ==> lines.drop_last()[j] == lines[j]);
        if line_matches(query, lines.last(), ignore_case) {
            let m = m0.push(lines.len() - 1);
            assert(res == init.push(lines.last()));
            assert forall|k: int| 0 <= k < m.len() implies 0 <= #[trigger] m[k] < lines.len()
                && res[k] == lines[m[k]] by {
                if k < m0.len() {
                    assert(m[k] == m0[k]);
                    assert(res[k] == init[k]);
                } else {
                    assert(m[k] == lines.len() - 1);
                    assert(res[k] == lines.last());
                }
            }
            assert(is_index_map(m, res, lines));
        } else {
            assert(res == init);
            assert(is_index_map(m0, res, lines));
        }
    }
}

/// Every filtered line satisfies the match predicate.
proof fn lemma_filter_lines_all_match(query: Seq<char>, lines: Seq<Seq<char>>, ignore_case: bool)
    ensures
        forall|k: int| 0 <= k < spec_filter_lines(query, lines, ignore_case).len()
            ==> line_matches(
                query,
                #[trigger] spec_filter_lines(query, lines, ignore_case)[k],
                ignore_case,
            ),
    decreases lines.len(),
{
    let res = spec_filter_lines(query, lines, ignore_case);
    if lines.len() == 0 {
    } else {
        lemma_filter_lines_all_match(query, lines.drop_last(), ignore_case);
        let init = spec_filter_lines(query, lines.drop_last(), ignore_case);
        assert forall|k: int| 0 <= k < res.len() implies line_matches(
            query,
            #[trigger] res[k],
            ignore_case,
        ) by {
            if line_matches(query, lines.last(), ignore_case) {
                if k < init.len() {
                    assert(res[k] == init[k]);
                } else {
                    assert(res[k] == lines.last());
                }
            } else {
                assert(res[k] == init[k]);
            }
        }
    }
}

/// Every line that satisfies the match predicate reappears in the filtered
/// lines.
proof fn lemma_filter_lines_complete(query: Seq<char>, lines: Seq<Seq<char>>, ignore_case: bool)
    ensures
        forall|k: int| 0 <= k < lines.len() && line_matches(query, #[trigger] lines[k], ignore_case)
            ==> spec_filter_lines(query, lines, ignore_case).contains(lines[k]),
    decreases lines.len(),
{
    let res = spec_filter_lines(query, lines, ignore_case);
    if lines.len() == 0 {
    } else {
        lemma_filter_lines_complete(query, lines.drop_last(), ignore_case);
        let init = spec_filter_lines(query, lines.drop_last(), ignore_case);
        assert forall|k: int| 0 <= k < lines.len() && line_matches(
            query,
            #[trigger] lines[k],
            ignore_case,
        ) implies res.contains(lines[k]) by {
            if k < lines.len() - 1 {
                assert(lines.drop_last()[k] == lines[k]);
                let j = choose|j: int| 0 <= j < init.len() && init[j] == lines[k];
                assert(res[j] == lines[k]);
            } else {
                assert(lines[k] == lines.last());
                assert(res == init.push(lines.last()));
                assert(res.last() == lines[k]);
            }
        }
    }
}

/// The filtered contents select lines of the contents in their original
/// order: the result is a subsequence of the lines, every returned line
/// satisfies the match predicate and occurs among the lines, and every
/// matching line reappears in the result.
pub proof fn lemma_filter_is_ordered_selection(
    query: Seq<char>,
    contents: Seq<char>,
    ignore_case: bool,
)
    ensures
        is_subsequence(spec_filter(query, contents, ignore_case), spec_lines(contents)),
        forall|k: int| 0 <= k < spec_filter(query, contents, ignore_case).len()
            ==> line_matches(
                query,
                #[trigger] spec_filter(query, contents, ignore_case)[k],
                ignore_case,
            ) && spec_lines(contents).contains(spec_filter(query, contents, ignore_case)[k]),
        forall|k: int| 0 <= k < spec_lines(contents).len() && line_matches(
            query,
            #[trigger] spec_lines(contents)[k],
            ignore_case,
        ) ==> spec_filter(query, contents, ignore_case).contains(spec_lines(contents)[k]),
{
    let lines = spec_lines(contents);
    let res = spec_filter(query, contents, ignore_case);
    lemma_filter_lines_subsequence(query, lines, ignore_case);
    lemma_filter_lines_all_match(query, lines, ignore_case);
    lemma_filter_lines_complete(query, lines, ignore_case);
    let m = choose|m: Seq<int>| is_index_map(m, res, lines);
    assert forall|k: int| 0 <= k < res.len() implies lines.contains(#[trigger] res[k]) by {
        assert(res[k] == lines[m[k]]);
    }
}

/// Under `ignore_case` every returned line contains the query once the line
/// is lower-cased; the query itself is taken as given.
pub proof fn lemma_filter_ignore_case_lowered(query: Seq<char>, contents: Seq<char>)
    ensures
        forall|k: int| 0 <= k < spec_filter(query, contents, true).len()
            ==> spec_contains(lower_of(#[trigger] spec_filter(query, contents, true)[k]), query),
{
    lemma_filter_lines_all_match(query, spec_lines(contents), true);
}

/// Filtering is deterministic: identical query, contents and case flag give
/// identical results.
pub proof fn lemma_filter_deterministic(
    q1: Seq<char>,
    c1: Seq<char>,
    i1: bool,
    q2: Seq<char>,
    c2: Seq<char>,
    i2: bool,
)
    requires
        q1 == q2,
        c1 == c2,
        i1 == i2,
    ensures
        spec_filter(q1, c1, i1) == spec_filter(q2, c2, i2),
{
}

/// The empty needle occurs in every haystack.
proof fn lemma_contains_empty(h: Seq<char>)
    ensures
        spec_contains(h, Seq::<char>::empty()),
{
    assert(h.subrange(0, 0) =~= Seq::<char>::empty());
    assert(contains_at(h, Seq::<char>::empty(), 0));
}

/// An empty query keeps every line of the contents, unchanged and in order.
pub proof fn lemma_filter_empty_query(contents: Seq<char>, ignore_case: bool)
    ensures
        spec_filter(Seq::<char>::empty(), contents, ignore_case) == spec_lines(contents),
{
    lemma_filter_lines_empty_query(spec_lines(contents), ignore_case);
}

/// An empty query keeps every line.
proof fn lemma_filter_lines_empty_query(lines: Seq<Seq<char>>, ignore_case: bool)
    ensures
        spec_filter_lines(Seq::<char>::empty(), lines, ignore_case) == lines,
    decreases lines.len(),
{
    if lines.len() == 0 {
        assert(spec_filter_lines(Seq::<char>::empty(), lines, ignore_case) =~= lines);
    } else {
        lemma_filter_lines_empty_query(lines.drop_last(), ignore_case);
        lemma_contains_empty(lines.last());
        lemma_contains_empty(lower_of(lines.last()));
        assert(line_matches(Seq::<char>::empty(), lines.last(), ignore_case));
        assert(lines.drop_last().push(lines.last()) =~= lines);
    }
}

/// Empty contents have no lines, so nothing can match.
pub proof fn lemma_filter_empty_contents(query: Seq<char>, ignore_case: bool)
    ensures
        spec_filter(query, Seq::<char>::empty(), ignore_case) == Seq::<Seq<char>>::empty(),
{
    assert(spec_lines(Seq::<char>::empty()) =~= Seq::<Seq<char>>::empty());
}

} // verus!
