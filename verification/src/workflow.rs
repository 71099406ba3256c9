//! The decisions of one run of the workflow: which arguments go to git, the
//! remote URL, the `.gitignore` text that hides the backups of spliced files,
//! and the bytes that a splice keeps of a file.

use vstd::prelude::*;
use crate::cli::FileSlice;
use crate::text::{
    chars_of, equals_str, is_white, lemma_leading_white_unique, lemma_trailing_white_unique, trim,
    trimmed,
};

verus! {

/// The git arguments: the plain arguments that do not start with `-` when
/// `.` is among them, otherwise just `add`.
pub open spec fn git_arguments_spec(files: Seq<Seq<char>>) -> Seq<Seq<char>> {
    if files.contains("."@) {
        undashed(files)
    } else {
        seq!["add"@]
    }
}

pub open spec fn is_dashed(f: Seq<char>) -> bool {
    f.len() > 0 && f[0] == '-'
}

/// The items that do not start with `-`, in order.
pub open spec fn undashed(files: Seq<Seq<char>>) -> Seq<Seq<char>>
    decreases files.len(),
{
    if files.len() == 0 {
        Seq::empty()
    } else if is_dashed(files.last()) {
        undashed(files.drop_last())
    } else {
        undashed(files.drop_last()).push(files.last())
    }
}

/// The name under which the whole of a spliced file is kept.
pub open spec fn backup_name(path: Seq<char>) -> Seq<char> {
    "T@"@ + path
}

/// One `.gitignore` line per spliced file, each ended by a newline.
pub open spec fn ignore_lines(paths: Seq<Seq<char>>) -> Seq<char>
    decreases paths.len(),
{
    if paths.len() == 0 {
        Seq::empty()
    } else {
        ignore_lines(paths.drop_last()) + backup_name(paths.last()) + "\n"@
    }
}

/// The new `.gitignore`: what it held, then the backup names, trimmed.
pub open spec fn gitignore_spec(existing: Seq<char>, paths: Seq<Seq<char>>) -> Seq<char> {
    existing + trimmed(ignore_lines(paths))
}

/// Whether byte offset `i` of `bytes` starts a character, as
/// `str::is_char_boundary` tests it.
pub open spec fn char_boundary(bytes: Seq<u8>, i: int) -> bool {
    i == 0 || i == bytes.len() || (0 <= i < bytes.len() && !(0x80 <= bytes[i] && bytes[i] < 0xC0))
}

/// Whether `&text[lb..ub]` is a valid slice of the text whose bytes these are.
pub open spec fn slice_ok(bytes: Seq<u8>, lb: int, ub: int) -> bool {
    lb <= ub && char_boundary(bytes, lb) && char_boundary(bytes, ub)
}

// ---------------------------------------------------------------------------
// Laws
// ---------------------------------------------------------------------------

proof fn lemma_undashed(files: Seq<Seq<char>>)
    ensures
        forall|i: int|
            0 <= i < undashed(files).len() ==> !is_dashed(#[trigger] undashed(files)[i])
                && files.contains(undashed(files)[i]),
        forall|f: Seq<char>| #[trigger] files.contains(f) && !is_dashed(f) ==> undashed(files).contains(f),
    decreases files.len(),
{
    if files.len() > 0 {
        let prev = files.drop_last();
        lemma_undashed(prev);
        let r = undashed(files);
        assert forall|i: int| 0 <= i < r.len() implies !is_dashed(#[trigger] r[i]) && files.contains(r[i]) by {
            if i < undashed(prev).len() {
                assert(r[i] == undashed(prev)[i]);
                let k = choose|k: int| 0 <= k < prev.len() && prev[k] == r[i];
                assert(files[k] == r[i]);
            } else {
                assert(files[files.len() - 1] == r[i]);
            }
        }
        assert forall|f: Seq<char>| #[trigger] files.contains(f) && !is_dashed(f) implies r.contains(f) by {
            let k = choose|k: int| 0 <= k < files.len() && files[k] == f;
            if k < files.len() - 1 {
                assert(prev[k] == f);
                assert(prev.contains(f));
                assert(undashed(prev).contains(f));
                let j = choose|j: int| 0 <= j < undashed(prev).len() && undashed(prev)[j] == f;
                assert(r[j] == undashed(prev)[j]);
            } else {
                assert(r[r.len() - 1] == f);
            }
        }
    }
}

/// With `.` among the plain arguments, git is handed `.` and the other plain
/// arguments that do not start with `-`, and nothing else; without it, just
/// `add`.
pub proof fn law_git_arguments(files: Seq<Seq<char>>)
    ensures
        files.contains("."@) ==> git_arguments_spec(files).contains("."@),
        files.contains("."@) ==> forall|i: int|
            0 <= i < git_arguments_spec(files).len() ==> !is_dashed(
                #[trigger] git_arguments_spec(files)[i],
            ) && files.contains(git_arguments_spec(files)[i]),
        forall|f: Seq<char>|
            files.contains("."@) && #[trigger] files.contains(f) && !is_dashed(f)
                ==> git_arguments_spec(files).contains(f),
        !files.contains("."@) ==> git_arguments_spec(files) == seq!["add"@],
{
    reveal_strlit(".");
    lemma_undashed(files);
}

proof fn lemma_ignore_lines_start(paths: Seq<Seq<char>>)
    requires
        paths.len() > 0,
    ensures
        ignore_lines(paths).len() > 0,
        ignore_lines(paths)[0] == 'T',
    decreases paths.len(),
{
    reveal_strlit("T@");
    let t = paths.drop_last();
    let tail = backup_name(paths.last()) + "\n"@;
    assert(ignore_lines(paths) == ignore_lines(t) + backup_name(paths.last()) + "\n"@);
    assert(ignore_lines(t) + backup_name(paths.last()) + "\n"@ =~= ignore_lines(t) + tail);
    if paths.len() > 1 {
        lemma_ignore_lines_start(t);
        assert((ignore_lines(t) + tail)[0] == ignore_lines(t)[0]);
    } else {
        assert(t =~= Seq::<Seq<char>>::empty());
        assert(ignore_lines(t) == Seq::<char>::empty());
        assert(tail[0] == 'T');
        assert((ignore_lines(t) + tail)[0] == tail[0]);
    }
}

/// The new `.gitignore` is what it held followed by one line `T@<path>` per
/// spliced file, in order, the lines joined by newlines and the last one
/// without its newline (where the last path does not end in whitespace).
pub proof fn law_gitignore(existing: Seq<char>, paths: Seq<Seq<char>>)
    requires
        paths.len() > 0 ==> paths.last().len() == 0 || !is_white(paths.last().last()),
    ensures
        paths.len() == 0 ==> gitignore_spec(existing, paths) == existing,
        paths.len() > 0 ==> gitignore_spec(existing, paths) == existing + ignore_lines(
            paths.drop_last(),
        ) + "T@"@ + paths.last(),
{
    reveal_strlit("T@");
    reveal_strlit("\n");
    let all = ignore_lines(paths);
    if paths.len() == 0 {
        lemma_leading_white_unique(all, 0);
        assert(all.skip(0) =~= all);
        lemma_trailing_white_unique(all, 0);
        assert(existing + trimmed(all) =~= existing);
    } else {
        lemma_ignore_lines_start(paths);
        let line = "T@"@ + paths.last();
        assert(all =~= ignore_lines(paths.drop_last()) + line + seq!['\n']);
        lemma_leading_white_unique(all, 0);
        assert(all.skip(0) =~= all);
        assert(all[all.len() - 1] == '\n');
        assert(all[all.len() - 2] == line.last());
        assert(!is_white(line.last()));
        lemma_trailing_white_unique(all, 1);
        assert(all.take(all.len() - 1) =~= ignore_lines(paths.drop_last()) + line);
        assert(existing + (ignore_lines(paths.drop_last()) + line) =~= existing + ignore_lines(
            paths.drop_last(),
        ) + "T@"@ + paths.last());
    }
}

// ---------------------------------------------------------------------------
// Executable functions
// ---------------------------------------------------------------------------

/// The arguments handed to git, as `git_arguments_spec` says.
pub fn git_arguments(files: &Vec<String>) -> (r: Vec<String>)
    ensures
        r.deep_view() == git_arguments_spec(files.deep_view()),
{
    let mut has_dot = false;
    let mut i: usize = 0;
    while i < files.len()
        invariant
            i <= files@.len(),
            has_dot == files.deep_view().take(i as int).contains("."@),
        decreases files.len() - i,
    {
        let v = chars_of(files[i].as_str());
        let is_dot = equals_str(&v, ".");
        proof {
            let t = files.deep_view().take(i + 1);
            assert(t.drop_last() =~= files.deep_view().take(i as int));
            if is_dot {
                assert(t[i as int] == "."@);
            }
            if t.contains("."@) && !is_dot {
                let k = choose|k: int| 0 <= k < t.len() && t[k] == "."@;
                assert(files.deep_view().take(i as int)[k] == "."@);
            }
            if files.deep_view().take(i as int).contains("."@) {
                let k = choose|k: int|
                    0 <= k < files.deep_view().take(i as int).len() && files.deep_view().take(
                        i as int,
                    )[k] == "."@;
                assert(t[k] == "."@);
            }
        }
        has_dot = has_dot || is_dot;
        i = i + 1;
    }
    assert(files.deep_view().take(files.len() as int) =~= files.deep_view());
    let mut out: Vec<String> = Vec::new();
    if !has_dot {
        out.push(String::from_str("add"));
        assert(out.deep_view() =~= seq!["add"@]);
        return out;
    }
    let mut j: usize = 0;
    assert(files.deep_view().take(0) =~= Seq::<Seq<char>>::empty());
    while j < files.len()
        invariant
            j <= files@.len(),
            out.deep_view() == undashed(files.deep_view().take(j as int)),
        decreases files.len() - j,
    {
        let ghost t = files.deep_view().take(j + 1);
        assert(t.drop_last() =~= files.deep_view().take(j as int));
        assert(t.last() == files[j as int]@);
        let v = chars_of(files[j].as_str());
        let ghost before = out.deep_view();
        if !(v.len() > 0 && v[0] == '-') {
            out.push(files[j].clone());
            assert(out.deep_view() =~= before.push(files[j as int]@));
        }
        j = j + 1;
    }
    assert(files.deep_view().take(files.len() as int) =~= files.deep_view());
    out
}

/// The address of the repository `dir` of the GitHub user `user`.
pub fn repo_url(user: &str, dir: &str) -> (r: String)
    ensures
        r@ == "https://github.com/"@ + user@ + "/"@ + dir@,
{
    let mut r = String::from_str("https://github.com/");
    r.append(user);
    r.append("/");
    r.append(dir);
    r
}

/// The name under which the whole of the spliced file `path` is kept.
pub fn backup_path(path: &str) -> (r: String)
    ensures
        r@ == backup_name(path@),
{
    let mut r = String::from_str("T@");
    r.append(path);
    r
}

/// The new `.gitignore` text: `existing` (empty where there is no such file)
/// followed by the backup names of the spliced files.
pub fn gitignore_content(existing: &str, splices: &Vec<FileSlice>) -> (r: String)
    ensures
        r@ == gitignore_spec(existing@, splices@.map_values(|f: FileSlice| f.path@)),
{
    let ghost paths = splices@.map_values(|f: FileSlice| f.path@);
    let mut lines = String::new();
    let mut i: usize = 0;
    assert(paths.take(0) =~= Seq::<Seq<char>>::empty());
    while i < splices.len()
        invariant
            i <= splices@.len(),
            paths == splices@.map_values(|f: FileSlice| f.path@),
            lines@ == ignore_lines(paths.take(i as int)),
        decreases splices.len() - i,
    {
        assert(paths.take(i + 1).drop_last() =~= paths.take(i as int));
        assert(paths.take(i + 1).last() == splices[i as int].path@);
        lines.append("T@");
        lines.append(splices[i].path.as_str());
        lines.append("\n");
        i = i + 1;
    }
    assert(paths.take(splices.len() as int) =~= paths);
    let mut r = String::from_str(existing);
    let t = trim(lines.as_str());
    r.append(t.as_str());
    r
}

fn is_boundary(bytes: &Vec<u8>, i: usize) -> (r: bool)
    ensures
        r == char_boundary(bytes@, i as int),
{
    i == 0 || i == bytes.len() || (i < bytes.len() && !(0x80 <= bytes[i] && bytes[i] < 0xC0))
}

/// The bytes `lb .. ub` of a text, where that range is a valid slice of it
/// (`&text[lb..ub]` would not panic); `None` otherwise.
pub fn slice_content(bytes: &Vec<u8>, lb: usize, ub: usize) -> (r: Option<Vec<u8>>)
    ensures
        r is Some <==> slice_ok(bytes@, lb as int, ub as int),
        r matches Some(out) ==> out@ == bytes@.subrange(lb as int, ub as int),
{
    if !(lb <= ub && is_boundary(bytes, lb) && is_boundary(bytes, ub)) {
        return None;
    }
    let mut out: Vec<u8> = Vec::new();
    let mut i: usize = lb;
    while i < ub
        invariant
            lb <= i <= ub <= bytes@.len(),
            out@ == bytes@.subrange(lb as int, i as int),
        decreases ub - i,
    {
        out.push(bytes[i]);
        assert(out@ =~= bytes@.subrange(lb as int, i + 1));
        i = i + 1;
    }
    Some(out)
}

} // verus!
