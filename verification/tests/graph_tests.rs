use git_helper::graph::{
    parse_branch_names, parse_log, parse_parent_hashes, Color, Commit, CommitOutput, GitGraph, Key,
    LogEntry,
};
use git_helper::view::{PaneRect, StyledSpan};

fn strings(v: &[&str]) -> Vec<String> {
    v.iter().map(|s| s.to_string()).collect()
}

fn commit(hash: &str, branches: &[&str], parents: &[&str]) -> Commit {
    Commit {
        hash: hash.to_string(),
        author: "ann".to_string(),
        date: "2024-01-02".to_string(),
        message: format!("msg {}", hash),
        branches: strings(branches),
        parents: strings(parents),
    }
}

fn texts(spans: &[StyledSpan]) -> Vec<String> {
    spans.iter().map(|s| s.text.clone()).collect()
}

#[test]
fn log_lines_with_four_fields() {
    let out = "h1|Ann|2024-01-01|first\nbad line\nh2|Bob|2024-01-02|two|parts\r\n";
    let entries = parse_log(out);
    assert_eq!(entries.len(), 2);
    assert_eq!(
        (&entries[0].hash[..], &entries[0].author[..], &entries[0].date[..], &entries[0].message[..]),
        ("h1", "Ann", "2024-01-01", "first")
    );
    assert_eq!(&entries[1].message[..], "two");
}

#[test]
fn branch_names_without_marker() {
    assert_eq!(parse_branch_names("* main\n  feature/x\n\n  * \n"), strings(&["main", "feature/x"]));
    assert_eq!(parse_branch_names(""), strings(&[]));
    assert_eq!(parse_branch_names("  a *b* \n"), strings(&["a b"]));
}

#[test]
fn parent_hashes_trimmed() {
    assert_eq!(parse_parent_hashes("abc\n  def \n\n"), strings(&["abc", "def"]));
    assert_eq!(parse_parent_hashes("\n"), strings(&[]));
}

#[test]
fn columns_and_colors() {
    let mut g = GitGraph::new();
    g.build_graph(vec![
        commit("c3", &["main", "dev"], &["c2"]),
        commit("r1", &[], &[]),
        commit("c2", &["dev", "topic"], &["r1"]),
        commit("r2", &["main"], &[]),
        commit("r1", &[], &[]),
        commit("x", &["solo"], &["unknown"]),
    ]);
    let cols: Vec<usize> = g.commits.iter().map(|n| n.column).collect();
    assert_eq!(cols, vec![0, 0, 0, 1, 0, 0]);
    let colors: Vec<Color> = g.commits.iter().map(|n| n.color).collect();
    assert_eq!(
        colors,
        vec![Color::Red, Color::White, Color::Green, Color::Red, Color::White, Color::Blue]
    );
    assert_eq!(g.branch_colors.get(&"topic".to_string()), Some(Color::Yellow));
    assert_eq!(g.branch_colors.get(&"none".to_string()), None);
}

#[test]
fn palette_cycles_after_twelve_branches() {
    let mut g = GitGraph::new();
    let names: Vec<String> = (0..13).map(|i| format!("b{}", i)).collect();
    let refs: Vec<&str> = names.iter().map(|s| s.as_str()).collect();
    g.build_graph(vec![commit("h", &refs, &[])]);
    assert_eq!(g.branch_colors.get(&"b11".to_string()), Some(Color::LightCyan));
    assert_eq!(g.branch_colors.get(&"b12".to_string()), Some(Color::Red));
}

#[test]
fn colors_are_kept_across_builds() {
    let mut g = GitGraph::new();
    g.build_graph(vec![commit("a", &["main"], &[])]);
    g.build_graph(vec![commit("b", &["dev", "main"], &[])]);
    assert_eq!(g.commits.len(), 2);
    assert_eq!(g.branch_colors.get(&"main".to_string()), Some(Color::Red));
    assert_eq!(g.branch_colors.get(&"dev".to_string()), Some(Color::Red));
    assert_eq!(g.commits[1].column, 0);
}

#[test]
fn load_history_parses_outputs() {
    let mut g = GitGraph::new();
    let outputs = vec![
        CommitOutput {
            entry: LogEntry {
                hash: "child".to_string(),
                author: "a".to_string(),
                date: "d".to_string(),
                message: "m".to_string(),
            },
            branches_output: "* main\n".to_string(),
            parents_output: "root\n".to_string(),
        },
        CommitOutput {
            entry: LogEntry {
                hash: "root".to_string(),
                author: "a".to_string(),
                date: "d".to_string(),
                message: "m0".to_string(),
            },
            branches_output: "  main\n".to_string(),
            parents_output: "\n".to_string(),
        },
    ];
    g.load_history(outputs);
    assert_eq!(g.commits.len(), 2);
    assert_eq!(g.commits[0].commit.branches, strings(&["main"]));
    assert_eq!(g.commits[0].commit.parents, strings(&["root"]));
    assert!(g.commits[1].commit.parents.is_empty());
    assert_eq!(g.commits[1].column, 0);
    assert_eq!(g.commits[0].color, Color::Red);
}

#[test]
fn keys_move_the_selection() {
    let mut g = GitGraph::new();
    assert!(g.handle_key(Key::Down));
    assert_eq!(g.selected_index, 0);
    g.build_graph(vec![commit("a", &[], &[]), commit("b", &[], &[]), commit("c", &[], &[])]);
    assert!(g.handle_key(Key::Up));
    assert_eq!(g.selected_index, 0);
    assert!(g.handle_key(Key::Down));
    assert!(g.handle_key(Key::Down));
    assert!(g.handle_key(Key::Down));
    assert_eq!(g.selected_index, 2);
    assert!(g.handle_key(Key::Up));
    assert_eq!(g.selected_index, 1);
    assert!(g.handle_key(Key::Down));
    assert!(g.handle_key(Key::Up));
    assert_eq!(g.selected_index, 1);
    assert!(g.handle_key(Key::Char('x')));
    assert!(g.handle_key(Key::Other));
    assert!(!g.handle_key(Key::Char('q')));
    assert_eq!(g.selected_index, 1);
}

#[test]
fn graph_lines_content() {
    let mut g = GitGraph::new();
    g.build_graph(vec![
        commit("0123456789abcdef", &["main"], &[]),
        commit("fedcba9876543210", &[], &[]),
    ]);
    assert!(g.hashes_abbreviable());
    let lines = g.graph_lines();
    assert_eq!(texts(&lines[0]), strings(&["> ", "●", " ", "0123456", " ", "(main)", " ", "msg 0123456789abcdef"]));
    assert_eq!(lines[0][1].fg, Some(Color::Red));
    assert_eq!(lines[0][3].fg, Some(Color::Cyan));
    assert!(lines[0][3].bold);
    assert_eq!(lines[0][7].fg, Some(Color::Yellow));
    assert_eq!(
        texts(&lines[1]),
        strings(&["  ", "│", "──", "●", " ", "fedcba9", " ", "msg fedcba9876543210"])
    );
    assert_eq!(lines[1][1].fg, Some(Color::DarkGray));
    assert_eq!(lines[1][7].fg, Some(Color::White));
}

#[test]
fn short_hashes_are_required() {
    let mut g = GitGraph::new();
    g.build_graph(vec![commit("abc", &[], &[])]);
    assert!(!g.hashes_abbreviable());
    let mut g = GitGraph::new();
    g.build_graph(vec![commit("abcdefé", &[], &[])]);
    assert!(!g.hashes_abbreviable());
}

#[test]
fn detail_lines_content() {
    let mut g = GitGraph::new();
    assert!(g.detail_lines().is_none());
    g.build_graph(vec![commit("h1234567", &["main", "dev"], &[])]);
    let d = g.detail_lines().unwrap();
    assert_eq!(d.len(), 11);
    assert_eq!(texts(&d[0]), strings(&["Commit: ", "h1234567"]));
    assert!(d[1].is_empty());
    assert_eq!(texts(&d[2]), strings(&["Author: ", "ann"]));
    assert_eq!(texts(&d[3]), strings(&["Date: ", "2024-01-02"]));
    assert_eq!(texts(&d[5]), strings(&["Message:"]));
    assert_eq!(texts(&d[6]), strings(&["msg h1234567"]));
    assert_eq!(texts(&d[8]), strings(&["Branches:"]));
    assert_eq!(texts(&d[9]), strings(&["  • ", "main"]));
    assert_eq!(d[10][1].fg, Some(Color::Green));
}

#[test]
fn render_splits_seventy_thirty() {
    let mut g = GitGraph::new();
    g.build_graph(vec![commit("0123456789", &[], &[])]);
    let screen = g.render(PaneRect { x: 0, y: 0, width: 100, height: 10 });
    assert_eq!(screen.graph_area, PaneRect { x: 0, y: 0, width: 70, height: 10 });
    assert_eq!(screen.details_area, PaneRect { x: 70, y: 0, width: 30, height: 10 });
    assert_eq!(screen.graph_lines.len(), 1);
    assert!(screen.details.is_some());
}
