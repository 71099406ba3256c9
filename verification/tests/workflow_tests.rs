use git_helper::cli::FileSlice;
use git_helper::workflow::{backup_path, git_arguments, gitignore_content, repo_url, slice_content};

fn strings(v: &[&str]) -> Vec<String> {
    v.iter().map(|s| s.to_string()).collect()
}

#[test]
fn git_arguments_with_dot() {
    assert_eq!(git_arguments(&strings(&["a", ".", "-x", "b"])), strings(&["a", ".", "b"]));
}

#[test]
fn git_arguments_without_dot() {
    assert_eq!(git_arguments(&strings(&["a", "b"])), strings(&["add"]));
    assert_eq!(git_arguments(&strings(&[])), strings(&["add"]));
    assert_eq!(git_arguments(&strings(&["./"])), strings(&["add"]));
}

#[test]
fn url_of_the_repository() {
    assert_eq!(repo_url("octo", "proj"), "https://github.com/octo/proj");
}

#[test]
fn backup_names() {
    assert_eq!(backup_path("src/a.rs"), "T@src/a.rs");
}

#[test]
fn gitignore_text() {
    let splices = vec![
        FileSlice { path: "a.rs".to_string(), slice_idx: (0, 1) },
        FileSlice { path: "b.rs".to_string(), slice_idx: (2, 3) },
    ];
    assert_eq!(gitignore_content("target\n", &splices), "target\nT@a.rs\nT@b.rs");
    assert_eq!(gitignore_content("", &splices), "T@a.rs\nT@b.rs");
    assert_eq!(gitignore_content("old", &vec![]), "old");
}

#[test]
fn slices_on_character_boundaries() {
    let text = "héllo".as_bytes().to_vec();
    assert_eq!(slice_content(&text, 0, 3), Some("hé".as_bytes().to_vec()));
    assert_eq!(slice_content(&text, 0, 2), None);
    assert_eq!(slice_content(&text, 3, 1), None);
    assert_eq!(slice_content(&text, 0, 99), None);
    assert_eq!(slice_content(&text, 6, 6), Some(vec![]));
    assert_eq!(slice_content(&text, 1, 6), Some("éllo".as_bytes().to_vec()));
}

#[test]
fn slices_agree_with_str_indexing() {
    let s = "aé€😀z";
    for lb in 0..=s.len() + 1 {
        for ub in 0..=s.len() + 1 {
            let expected = s.get(lb..ub).map(|t| t.as_bytes().to_vec());
            assert_eq!(slice_content(&s.as_bytes().to_vec(), lb, ub), expected, "{}..{}", lb, ub);
        }
    }
}
