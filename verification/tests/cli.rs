use minigrep::Cli;
use minigrep::Commands;
use minigrep::SearchError;

/// A search invocation used by several tests.
struct TestSearchSuite {
    query: String,
    file_path: String,
    ignore_case: bool,
}

impl TestSearchSuite {
    fn new(query: &str, ignore_case: bool) -> TestSearchSuite {
        let file_path = "test.txt".to_string();
        TestSearchSuite {
            query: query.to_string(),
            file_path,
            ignore_case,
        }
    }
    fn to_command(&self) -> Commands {
        Commands::Search {
            query: self.query.clone(),
            file_path: self.file_path.clone(),
            ignore_case: self.ignore_case,
        }
    }
}

fn args_of(parts: &[&str]) -> Vec<String> {
    parts.iter().map(|p| p.to_string()).collect()
}

#[test]
fn test_cli_search() {
    let s = TestSearchSuite::new("public", false);
    let args = args_of(&["", "search", s.query.as_str(), s.file_path.as_str()]);
    let cli = Cli::parse_from(&args).unwrap();
    let result = cli.subcommand.unwrap();
    assert_eq!(result, s.to_command());
}

#[test]
fn test_cli_search_ignore_case() {
    let s = TestSearchSuite::new("public", true);
    let args = args_of(&["", "search", s.query.as_str(), s.file_path.as_str(), "--ignore-case"]);
    let mut cli = Cli::parse_from(&args).unwrap();
    let result = cli.subcommand.unwrap();
    assert_eq!(result, s.to_command());
    let args = args_of(&["", "search", s.query.as_str(), s.file_path.as_str(), "-i"]);
    cli = Cli::parse_from(&args).unwrap();
    let result = cli.subcommand.unwrap();
    assert_eq!(result, s.to_command());
}

#[test]
fn test_cli_hi() {
    let args = args_of(&["", "hi"]);
    let cli = Cli::parse_from(&args).unwrap();
    let result = cli.subcommand.unwrap();
    assert_eq!(result, Commands::Hi {});
}

#[test]
fn test_cli_version() {
    let args = args_of(&["", "version"]);
    let cli = Cli::parse_from(&args).unwrap();
    let result = cli.subcommand.unwrap();
    assert_eq!(result, Commands::Version {});
}

#[test]
fn parse_from_no_subcommand_is_none() {
    let args = args_of(&[""]);
    let cli = Cli::parse_from(&args).unwrap();
    assert_eq!(cli.subcommand, None);
}

#[test]
fn parse_from_search_without_path_is_missing() {
    let args = args_of(&["", "search", "public"]);
    assert_eq!(Cli::parse_from(&args), Err(SearchError::MissingArgument));
}

#[test]
fn parse_from_unknown_subcommand_is_rejected() {
    let args = args_of(&["", "publish"]);
    assert_eq!(Cli::parse_from(&args), Err(SearchError::MissingArgument));
}

#[test]
fn execute_returns_the_subcommand() {
    let cli = Cli::new(Some(Commands::Version {}));
    assert_eq!(cli.execute(), Commands::Version {});
    let search = Commands::Search {
        query: "public".to_string(),
        file_path: "test.txt".to_string(),
        ignore_case: true,
    };
    let cli = Cli::new(Some(Commands::Search {
        query: "public".to_string(),
        file_path: "test.txt".to_string(),
        ignore_case: true,
    }));
    assert_eq!(cli.execute(), search);
}

#[test]
fn execute_defaults_to_the_greeting() {
    let cli = Cli::new(None);
    assert_eq!(cli.execute(), Commands::Hi {});
}
