use git_helper::cli::{print_commit_history, ArgError, ArgsOutcome, CLI};

fn args(v: &[&str]) -> Vec<String> {
    v.iter().map(|s| s.to_string()).collect()
}

fn parse(v: &[&str]) -> (CLI, Result<ArgsOutcome, ArgError>) {
    let mut cli = CLI::new();
    let r = cli.Parse_Args(&args(v));
    (cli, r)
}

#[test]
fn new_is_empty() {
    let cli = CLI::new();
    assert!(!cli.dbg && !cli.graph && !cli.nested_gitignore && !cli.auto_repo_link);
    assert!(cli.files.is_empty() && cli.splice_files.is_empty());
    assert!(cli.conditions.is_empty() && cli.condition_params.is_empty());
    assert!(cli.local_commit_log.is_none());
}

#[test]
fn flags_and_files() {
    let (cli, r) = parse(&["-d", "a.txt", "--graph", "a.txt", "-n", "b.txt", "-A"]);
    assert_eq!(r, Ok(ArgsOutcome::Parsed));
    assert!(cli.dbg && cli.graph && cli.nested_gitignore && cli.auto_repo_link);
    assert_eq!(cli.files, args(&["a.txt", "b.txt"]));
}

#[test]
fn debug_spelling_with_leading_space() {
    let (cli, r) = parse(&[" --DEBUG"]);
    assert_eq!(r, Ok(ArgsOutcome::Parsed));
    assert!(cli.dbg);
    let (cli, _) = parse(&["--DEBUG"]);
    assert!(!cli.dbg);
    assert_eq!(cli.files, args(&["--DEBUG"]));
}

#[test]
fn splice_ranges() {
    let (cli, r) = parse(&["src/a.rs[2..=4]", "b.rs[3..10]", "c[5]", "d[+1..+2]"]);
    assert_eq!(r, Ok(ArgsOutcome::Parsed));
    let got: Vec<(String, (usize, usize))> =
        cli.splice_files.iter().map(|f| (f.path.clone(), f.slice_idx)).collect();
    assert_eq!(
        got,
        vec![
            ("src/a.rs".to_string(), (2, 5)),
            ("b.rs".to_string(), (3, 10)),
            ("c".to_string(), (5, 0)),
            ("d".to_string(), (1, 2)),
        ]
    );
}

#[test]
fn inclusive_range_equals_exclusive_successor() {
    let (a, _) = parse(&["p[7..=9]"]);
    let (b, _) = parse(&["p[7..10]"]);
    assert_eq!(a.splice_files[0].slice_idx, b.splice_files[0].slice_idx);
    assert_eq!(a.splice_files[0].path, b.splice_files[0].path);
}

#[test]
fn local_commit_log() {
    let (cli, _) = parse(&["-loc=notes/LOG.md"]);
    assert_eq!(cli.local_commit_log, Some("notes/LOG.md".to_string()));
    let (cli, _) = parse(&["-loc"]);
    assert_eq!(cli.local_commit_log, Some("COMMIT.md".to_string()));
    let (cli, _) = parse(&["-local=a=b"]);
    assert_eq!(cli.local_commit_log, Some("a=b".to_string()));
}

#[test]
fn help_stops_the_run() {
    let (cli, r) = parse(&["-d", "-h", "-g", "x"]);
    assert_eq!(r, Ok(ArgsOutcome::HelpRequested));
    assert!(cli.dbg);
    assert!(!cli.graph);
    assert!(cli.files.is_empty());
}

#[test]
fn range_errors() {
    assert_eq!(parse(&["a[x..3]"]).1, Err(ArgError::LowerBoundNotUsize));
    assert_eq!(parse(&["a[1..y]"]).1, Err(ArgError::UpperBoundNotUsize));
    assert_eq!(parse(&["a[1..=y]"]).1, Err(ArgError::UpperBoundNotUsize));
    assert_eq!(parse(&["a[1..2..3]"]).1, Err(ArgError::InvalidRange));
    assert_eq!(parse(&["a]1..2["]).1, Err(ArgError::ReversedBrackets));
    assert_eq!(parse(&["a[...3]"]).1, Err(ArgError::LowerBoundNotUsize));
    assert_eq!(parse(&["a[]"]).1, Err(ArgError::LowerBoundNotUsize));
}

#[test]
fn inclusive_upper_bound_overflow() {
    let arg = format!("a[1..={}]", usize::MAX);
    let mut cli = CLI::new();
    assert_eq!(cli.Parse_Args(&vec![arg]), Err(ArgError::UpperBoundOverflow));
}

#[test]
fn errors_keep_earlier_arguments() {
    let (cli, r) = parse(&["-g", "a[z]", "-d"]);
    assert_eq!(r, Err(ArgError::LowerBoundNotUsize));
    assert!(cli.graph);
    assert!(!cli.dbg);
}

#[test]
fn condition_arguments_are_refused() {
    assert_eq!(parse(&["--if"]).1, Err(ArgError::ConditionWithoutBrackets));
    assert_eq!(parse(&["--IF_THEN[x"]).1, Err(ArgError::ConditionWithoutBrackets));
    assert_eq!(parse(&["--if[-E]"]).1, Err(ArgError::LowerBoundNotUsize));
}

#[test]
fn commit_history_does_nothing() {
    print_commit_history();
}
