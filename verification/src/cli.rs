//! The command line: the options the tool understands and how an argument
//! list updates them.

use vstd::prelude::*;
use crate::text::{
    chars_of, equals_str, find_first, first_pos, lemma_find_char, parse_usize, parse_usize_spec,
    starts_with_str,
};

verus! {

/// Exit status of a run that went through.
pub const OK: i32 = 0;

/// Exit status of a run that failed.
pub const ERR: i32 = -1;

/// A file of which only the bytes `slice_idx.0 .. slice_idx.1` are committed.
#[derive(Debug)]
pub struct FileSlice {
    pub path: String,
    pub slice_idx: (usize, usize),
}

impl Clone for FileSlice {
    fn clone(&self) -> (r: Self)
        ensures
            r@ == self@,
    {
        FileSlice { path: self.path.clone(), slice_idx: self.slice_idx }
    }
}

#[verifier::ext_equal]
pub struct FileSliceView {
    pub path: Seq<char>,
    pub slice_idx: (usize, usize),
}

impl View for FileSlice {
    type V = FileSliceView;

    open spec fn view(&self) -> FileSliceView {
        FileSliceView { path: self.path@, slice_idx: self.slice_idx }
    }
}

/// The options of one run of the tool.
#[derive(Debug, Clone)]
pub struct CLI {
    pub dbg: bool,
    /// Plain arguments, each once, in the order of their first occurrence.
    pub files: Vec<String>,
    pub splice_files: Vec<FileSlice>,
    pub nested_gitignore: bool,
    pub graph: bool,
    pub conditions: Vec<String>,
    pub condition_params: Vec<String>,
    pub local_commit_log: Option<String>,
    pub auto_repo_link: bool,
}

#[verifier::ext_equal]
pub struct CliView {
    pub dbg: bool,
    pub files: Seq<Seq<char>>,
    pub splice_files: Seq<FileSliceView>,
    pub nested_gitignore: bool,
    pub graph: bool,
    pub conditions: Seq<Seq<char>>,
    pub condition_params: Seq<Seq<char>>,
    pub local_commit_log: Option<Seq<char>>,
    pub auto_repo_link: bool,
}

pub open spec fn option_view(o: Option<String>) -> Option<Seq<char>> {
    match o {
        Some(s) => Some(s@),
        None => None,
    }
}

impl View for CLI {
    type V = CliView;

    open spec fn view(&self) -> CliView {
        CliView {
            dbg: self.dbg,
            files: self.files.deep_view(),
            splice_files: self.splice_files@.map_values(|f: FileSlice| f@),
            nested_gitignore: self.nested_gitignore,
            graph: self.graph,
            conditions: self.conditions.deep_view(),
            condition_params: self.condition_params.deep_view(),
            local_commit_log: option_view(self.local_commit_log),
            auto_repo_link: self.auto_repo_link,
        }
    }
}

/// How a run of the parser ended without an error.
#[derive(Debug, Clone, Copy, PartialEq, Eq)]
pub enum ArgsOutcome {
    /// Every argument was taken in.
    Parsed,
    /// A help flag was met; the arguments after it were not looked at.
    HelpRequested,
}

/// Why an argument list was refused.
#[derive(Debug, Clone, Copy, PartialEq, Eq)]
pub enum ArgError {
    /// In a `path[range]` argument the first `]` stands before the first `[`.
    ReversedBrackets,
    /// The lower bound of a range is not a `usize`.
    LowerBoundNotUsize,
    /// The upper bound of a range is not a `usize`.
    UpperBoundNotUsize,
    /// An inclusive upper bound `..=usize::MAX` has no exclusive form.
    UpperBoundOverflow,
    /// A range has more than two bounds.
    InvalidRange,
    /// An `--if` argument without both of `[` and `]`.
    ConditionWithoutBrackets,
}

// ---------------------------------------------------------------------------
// Specification of the parser
// ---------------------------------------------------------------------------

/// `prefix` put in front of the first piece of `ps`.
pub open spec fn prepend_first(prefix: Seq<char>, ps: Seq<Seq<char>>) -> Seq<Seq<char>> {
    ps.update(0, prefix + ps[0])
}

/// The pieces of `s` between occurrences of `..`, leftmost first, as
/// `str::split("..")` gives them.
pub open spec fn dot_pieces(s: Seq<char>) -> Seq<Seq<char>>
    decreases s.len(),
{
    if s.len() == 0 {
        seq![Seq::empty()]
    } else if s.len() >= 2 && s[0] == '.' && s[1] == '.' {
        seq![Seq::<char>::empty()] + dot_pieces(s.skip(2))
    } else {
        prepend_first(seq![s[0]], dot_pieces(s.drop_first()))
    }
}

/// The byte range that the text between the brackets of `path[range]` names:
/// `a..b`, `a..=b` (that is `a..b+1`) or `a` (that is `a..0`).
pub open spec fn parse_range(inner: Seq<char>) -> Result<(usize, usize), ArgError> {
    let ps = dot_pieces(inner);
    match parse_usize_spec(ps[0]) {
        None => Err(ArgError::LowerBoundNotUsize),
        Some(lb) => if ps.len() == 1 {
            Ok((lb, 0))
        } else {
            let up = ps[1];
            let ub: Result<usize, ArgError> = if up.len() > 0 && up[0] == '=' {
                match parse_usize_spec(up.drop_first()) {
                    None => Err(ArgError::UpperBoundNotUsize),
                    Some(x) => if x == usize::MAX {
                        Err(ArgError::UpperBoundOverflow)
                    } else {
                        Ok((x + 1) as usize)
                    },
                }
            } else {
                match parse_usize_spec(up) {
                    None => Err(ArgError::UpperBoundNotUsize),
                    Some(x) => Ok(x),
                }
            };
            match ub {
                Err(e) => Err(e),
                Ok(u) => if ps.len() > 2 {
                    Err(ArgError::InvalidRange)
                } else {
                    Ok((lb, u))
                },
            }
        },
    }
}

/// The slice that an argument holding both `[` and `]` names.
pub open spec fn splice_of(a: Seq<char>) -> Result<FileSliceView, ArgError> {
    let l = first_pos(a, '[') as int;
    let r = first_pos(a, ']') as int;
    if r < l + 1 {
        Err(ArgError::ReversedBrackets)
    } else {
        match parse_range(a.subrange(l + 1, r)) {
            Ok(rg) => Ok(FileSliceView { path: a.take(l), slice_idx: rg }),
            Err(e) => Err(e),
        }
    }
}

pub open spec fn is_debug_flag(a: Seq<char>) -> bool {
    a == "-d"@ || a == "--debug"@ || a == " --DEBUG"@ || a == "-D"@
}

pub open spec fn is_help_flag(a: Seq<char>) -> bool {
    a == "-h"@ || a == "--help"@ || a == " --HELP"@ || a == "-H"@
}

pub open spec fn is_graph_flag(a: Seq<char>) -> bool {
    a == "--graph"@ || a == "--Graph"@ || a == "-G"@ || a == "-g"@
}

pub open spec fn is_nested_flag(a: Seq<char>) -> bool {
    a == "--nested"@ || a == "-n"@ || a == "-N"@ || a == "--Nested"@
}

pub open spec fn is_auto_flag(a: Seq<char>) -> bool {
    a == "--auto"@ || a == "-a"@ || a == "--Auto"@ || a == "-A"@
}

pub open spec fn is_condition_arg(a: Seq<char>) -> bool {
    "--if"@.is_prefix_of(a) || "--IF"@.is_prefix_of(a)
}

/// The commit-log path that a `-loc` argument names.
pub open spec fn local_log_of(a: Seq<char>) -> Seq<char> {
    if a.contains('=') {
        a.skip(first_pos(a, '=') as int + 1)
    } else {
        "COMMIT.md"@
    }
}

/// `files` with `a` added unless it is there already.
pub open spec fn insert_file(files: Seq<Seq<char>>, a: Seq<char>) -> Seq<Seq<char>> {
    if files.contains(a) {
        files
    } else {
        files.push(a)
    }
}

pub enum StepOutcome {
    Next(CliView),
    Help,
    Fail(ArgError),
}

/// What one argument does to the options, tested in this order.
pub open spec fn step(m: CliView, a: Seq<char>) -> StepOutcome {
    if is_debug_flag(a) {
        StepOutcome::Next(CliView { dbg: true, ..m })
    } else if is_help_flag(a) {
        StepOutcome::Help
    } else if a.contains('[') && a.contains(']') {
        match splice_of(a) {
            Ok(f) => StepOutcome::Next(CliView { splice_files: m.splice_files.push(f), ..m }),
            Err(e) => StepOutcome::Fail(e),
        }
    } else if is_graph_flag(a) {
        StepOutcome::Next(CliView { graph: true, ..m })
    } else if is_nested_flag(a) {
        StepOutcome::Next(CliView { nested_gitignore: true, ..m })
    } else if "-loc"@.is_prefix_of(a) {
        StepOutcome::Next(CliView { local_commit_log: Some(local_log_of(a)), ..m })
    } else if is_auto_flag(a) {
        StepOutcome::Next(CliView { auto_repo_link: true, ..m })
    } else if is_condition_arg(a) {
        StepOutcome::Fail(ArgError::ConditionWithoutBrackets)
    } else {
        StepOutcome::Next(CliView { files: insert_file(m.files, a), ..m })
    }
}

/// The options after the arguments `args`, taken from the left, and how the
/// run ended: at the first help flag or the first refused argument.
pub open spec fn parse_args_spec(m: CliView, args: Seq<Seq<char>>) -> (CliView, Result<
    ArgsOutcome,
    ArgError,
>)
    decreases args.len(),
{
    if args.len() == 0 {
        (m, Ok(ArgsOutcome::Parsed))
    } else {
        let (m1, r) = parse_args_spec(m, args.drop_last());
        if r != Ok::<ArgsOutcome, ArgError>(ArgsOutcome::Parsed) {
            (m1, r)
        } else {
            match step(m1, args.last()) {
                StepOutcome::Next(m2) => (m2, Ok(ArgsOutcome::Parsed)),
                StepOutcome::Help => (m1, Ok(ArgsOutcome::HelpRequested)),
                StepOutcome::Fail(e) => (m1, Err(e)),
            }
        }
    }
}

pub open spec fn empty_cli() -> CliView {
    CliView {
        dbg: false,
        files: Seq::empty(),
        splice_files: Seq::empty(),
        nested_gitignore: false,
        graph: false,
        conditions: Seq::empty(),
        condition_params: Seq::empty(),
        local_commit_log: None,
        auto_repo_link: false,
    }
}

// ---------------------------------------------------------------------------
// Lemmas
// ---------------------------------------------------------------------------

proof fn lemma_dot_pieces_nonempty(s: Seq<char>)
    ensures
        dot_pieces(s).len() >= 1,
    decreases s.len(),
{
    if s.len() >= 2 && s[0] == '.' && s[1] == '.' {
        lemma_dot_pieces_nonempty(s.skip(2));
    } else if s.len() > 0 {
        lemma_dot_pieces_nonempty(s.drop_first());
    }
}

/// Once a run has stopped, at a help flag or a refused argument, the
/// arguments after it change nothing.
pub proof fn lemma_parse_args_stops(m: CliView, args: Seq<Seq<char>>, k: int)
    requires
        0 <= k <= args.len(),
        parse_args_spec(m, args.take(k)).1 != Ok::<ArgsOutcome, ArgError>(ArgsOutcome::Parsed),
    ensures
        parse_args_spec(m, args) == parse_args_spec(m, args.take(k)),
    decreases args.len(),
{
    if args.len() == k {
        assert(args.take(k) =~= args);
    } else {
        assert(args.drop_last().take(k) =~= args.take(k));
        lemma_parse_args_stops(m, args.drop_last(), k);
    }
}

/// Taking in arguments never puts a plain argument into the files twice.
pub proof fn law_files_stay_distinct(m: CliView, args: Seq<Seq<char>>)
    requires
        m.files.no_duplicates(),
    ensures
        parse_args_spec(m, args).0.files.no_duplicates(),
    decreases args.len(),
{
    if args.len() > 0 {
        law_files_stay_distinct(m, args.drop_last());
        let m1 = parse_args_spec(m, args.drop_last()).0;
        let a = args.last();
        if !m1.files.contains(a) {
            assert forall|i: int, j: int|
                0 <= i < m1.files.push(a).len() && 0 <= j < m1.files.push(a).len() && i != j
                    implies m1.files.push(a)[i] != m1.files.push(a)[j] by {
                if i == m1.files.len() as int {
                    assert(m1.files[j] != a);
                } else if j == m1.files.len() as int {
                    assert(m1.files[i] != a);
                }
            }
        }
    }
}

/// Each spelling of the help flag, `-h`, `--help`, ` --HELP` and `-H`, ends
/// a run with help and changes no option.
pub proof fn law_help_flags(m: CliView)
    ensures
        parse_args_spec(m, seq!["-h"@]) == (m, Ok::<ArgsOutcome, ArgError>(ArgsOutcome::HelpRequested)),
        parse_args_spec(m, seq!["--help"@]) == (m, Ok::<ArgsOutcome, ArgError>(
            ArgsOutcome::HelpRequested,
        )),
        parse_args_spec(m, seq![" --HELP"@]) == (m, Ok::<ArgsOutcome, ArgError>(
            ArgsOutcome::HelpRequested,
        )),
        parse_args_spec(m, seq!["-H"@]) == (m, Ok::<ArgsOutcome, ArgError>(ArgsOutcome::HelpRequested)),
{
    reveal_strlit("-d");
    reveal_strlit("--debug");
    reveal_strlit(" --DEBUG");
    reveal_strlit("-D");
    reveal_strlit("-h");
    reveal_strlit("--help");
    reveal_strlit(" --HELP");
    reveal_strlit("-H");
    assert("-h"@[1] != "-d"@[1] && "-h"@[1] != "-D"@[1]);
    assert("-H"@[1] != "-d"@[1] && "-H"@[1] != "-D"@[1]);
    assert(" --HELP"@[0] != "--debug"@[0]);
    assert("--help"@.len() != "--debug"@.len() && "--help"@.len() != " --DEBUG"@.len());
    lemma_help_arg(m, "-h"@);
    lemma_help_arg(m, "--help"@);
    lemma_help_arg(m, " --HELP"@);
    lemma_help_arg(m, "-H"@);
}

/// A run on one argument is that argument's step.
proof fn lemma_single_arg(m: CliView, a: Seq<char>)
    ensures
        parse_args_spec(m, seq![a]) == match step(m, a) {
            StepOutcome::Next(m2) => (m2, Ok::<ArgsOutcome, ArgError>(ArgsOutcome::Parsed)),
            StepOutcome::Help => (m, Ok::<ArgsOutcome, ArgError>(ArgsOutcome::HelpRequested)),
            StepOutcome::Fail(e) => (m, Err::<ArgsOutcome, ArgError>(e)),
        },
{
    assert(seq![a].drop_last() =~= Seq::<Seq<char>>::empty());
    assert(parse_args_spec(m, Seq::<Seq<char>>::empty()) == (m, Ok::<ArgsOutcome, ArgError>(
        ArgsOutcome::Parsed,
    )));
    assert(seq![a].last() == a);
}

/// Each spelling of the debug flag, `-d`, `--debug`, ` --DEBUG` and `-D`,
/// turns debugging on and changes nothing else.
pub proof fn law_debug_flags(m: CliView)
    ensures
        parse_args_spec(m, seq!["-d"@]) == (CliView { dbg: true, ..m }, Ok::<ArgsOutcome, ArgError>(
            ArgsOutcome::Parsed,
        )),
        parse_args_spec(m, seq!["--debug"@]) == (CliView { dbg: true, ..m }, Ok::<
            ArgsOutcome,
            ArgError,
        >(ArgsOutcome::Parsed)),
        parse_args_spec(m, seq![" --DEBUG"@]) == (CliView { dbg: true, ..m }, Ok::<
            ArgsOutcome,
            ArgError,
        >(ArgsOutcome::Parsed)),
        parse_args_spec(m, seq!["-D"@]) == (CliView { dbg: true, ..m }, Ok::<ArgsOutcome, ArgError>(
            ArgsOutcome::Parsed,
        )),
{
    lemma_single_arg(m, "-d"@);
    lemma_single_arg(m, "--debug"@);
    lemma_single_arg(m, " --DEBUG"@);
    lemma_single_arg(m, "-D"@);
}

/// Whether `a` holds no `[`.
pub open spec fn no_open_bracket(a: Seq<char>) -> bool {
    forall|i: int| 0 <= i < a.len() ==> a[i] != '['
}

proof fn lemma_mode_arg(m: CliView, a: Seq<char>)
    requires
        !is_debug_flag(a),
        !is_help_flag(a),
        no_open_bracket(a),
    ensures
        is_graph_flag(a) ==> parse_args_spec(m, seq![a]) == (CliView { graph: true, ..m }, Ok::<
            ArgsOutcome,
            ArgError,
        >(ArgsOutcome::Parsed)),
        !is_graph_flag(a) && is_nested_flag(a) ==> parse_args_spec(m, seq![a]) == (CliView {
            nested_gitignore: true,
            ..m
        }, Ok::<ArgsOutcome, ArgError>(ArgsOutcome::Parsed)),
        !is_graph_flag(a) && !is_nested_flag(a) && !"-loc"@.is_prefix_of(a) && is_auto_flag(a)
            ==> parse_args_spec(m, seq![a]) == (CliView { auto_repo_link: true, ..m }, Ok::<
            ArgsOutcome,
            ArgError,
        >(ArgsOutcome::Parsed)),
{
    lemma_single_arg(m, a);
    assert(!a.contains('['));
}

/// Each spelling of the graph flag (`--graph`, `--Graph`, `-G`, `-g`), of the
/// nested flag (`--nested`, `-n`, `-N`, `--Nested`) and of the auto flag
/// (`--auto`, `-a`, `--Auto`, `-A`) turns that option on and changes nothing
/// else.
pub proof fn law_mode_flags(m: CliView)
    ensures
        parse_args_spec(m, seq!["--graph"@]) == (CliView { graph: true, ..m }, Ok::<
            ArgsOutcome,
            ArgError,
        >(ArgsOutcome::Parsed)),
        parse_args_spec(m, seq!["--Graph"@]) == (CliView { graph: true, ..m }, Ok::<
            ArgsOutcome,
            ArgError,
        >(ArgsOutcome::Parsed)),
        parse_args_spec(m, seq!["-G"@]) == (CliView { graph: true, ..m }, Ok::<ArgsOutcome, ArgError>(
            ArgsOutcome::Parsed,
        )),
        parse_args_spec(m, seq!["-g"@]) == (CliView { graph: true, ..m }, Ok::<ArgsOutcome, ArgError>(
            ArgsOutcome::Parsed,
        )),
        parse_args_spec(m, seq!["--nested"@]) == (CliView { nested_gitignore: true, ..m }, Ok::<
            ArgsOutcome,
            ArgError,
        >(ArgsOutcome::Parsed)),
        parse_args_spec(m, seq!["-n"@]) == (CliView { nested_gitignore: true, ..m }, Ok::<
            ArgsOutcome,
            ArgError,
        >(ArgsOutcome::Parsed)),
        parse_args_spec(m, seq!["-N"@]) == (CliView { nested_gitignore: true, ..m }, Ok::<
            ArgsOutcome,
            ArgError,
        >(ArgsOutcome::Parsed)),
        parse_args_spec(m, seq!["--Nested"@]) == (CliView { nested_gitignore: true, ..m }, Ok::<
            ArgsOutcome,
            ArgError,
        >(ArgsOutcome::Parsed)),
        parse_args_spec(m, seq!["--auto"@]) == (CliView { auto_repo_link: true, ..m }, Ok::<
            ArgsOutcome,
            ArgError,
        >(ArgsOutcome::Parsed)),
        parse_args_spec(m, seq!["-a"@]) == (CliView { auto_repo_link: true, ..m }, Ok::<
            ArgsOutcome,
            ArgError,
        >(ArgsOutcome::Parsed)),
        parse_args_spec(m, seq!["--Auto"@]) == (CliView { auto_repo_link: true, ..m }, Ok::<
            ArgsOutcome,
            ArgError,
        >(ArgsOutcome::Parsed)),
        parse_args_spec(m, seq!["-A"@]) == (CliView { auto_repo_link: true, ..m }, Ok::<
            ArgsOutcome,
            ArgError,
        >(ArgsOutcome::Parsed)),
{
    reveal_strlit("-d");
    reveal_strlit("--debug");
    reveal_strlit(" --DEBUG");
    reveal_strlit("-D");
    reveal_strlit("-h");
    reveal_strlit("--help");
    reveal_strlit(" --HELP");
    reveal_strlit("-H");
    reveal_strlit("--graph");
    reveal_strlit("--Graph");
    reveal_strlit("-G");
    reveal_strlit("-g");
    reveal_strlit("--nested");
    reveal_strlit("-n");
    reveal_strlit("-N");
    reveal_strlit("--Nested");
    reveal_strlit("--auto");
    reveal_strlit("-a");
    reveal_strlit("--Auto");
    reveal_strlit("-A");
    reveal_strlit("-loc");
    let two = seq!["-d"@, "-D"@, "-h"@, "-H"@, "-G"@, "-g"@, "-n"@, "-N"@, "-a"@, "-A"@];
    assert forall|i: int, j: int| 0 <= i < 10 && 0 <= j < 10 && i != j implies #[trigger] two[i]
        != #[trigger] two[j] by {
        assert(two[i][1] != two[j][1]);
    }
    assert forall|i: int| 0 <= i < 10 implies no_open_bracket(#[trigger] two[i]) by {
        assert forall|k: int| 0 <= k < two[i].len() implies two[i][k] != '[' by {
            if k == 0 {
            } else {
            }
        }
    }
    let long = seq![
        "--debug"@,
        " --DEBUG"@,
        "--help"@,
        " --HELP"@,
        "--graph"@,
        "--Graph"@,
        "--nested"@,
        "--Nested"@,
        "--auto"@,
        "--Auto"@,
    ];
    assert forall|i: int| 4 <= i < 10 implies no_open_bracket(#[trigger] long[i]) by {
        assert forall|k: int| 0 <= k < long[i].len() implies long[i][k] != '[' by {
            if k == 0 {
            } else if k == 1 {
            } else if k == 2 {
            } else if k == 3 {
            } else if k == 4 {
            } else if k == 5 {
            } else if k == 6 {
            } else {
            }
        }
    }
    assert(two[0] == "-d"@ && two[1] == "-D"@ && two[2] == "-h"@ && two[3] == "-H"@);
    assert(two[4] == "-G"@ && two[5] == "-g"@ && two[6] == "-n"@ && two[7] == "-N"@);
    assert(two[8] == "-a"@ && two[9] == "-A"@);
    assert(long[4] == "--graph"@ && long[5] == "--Graph"@ && long[6] == "--nested"@);
    assert(long[7] == "--Nested"@ && long[8] == "--auto"@ && long[9] == "--Auto"@);
    assert("--graph"@[2] != "--debug"@[2] && "--Graph"@[2] != "--debug"@[2]);
    assert("--auto"@[2] != "--help"@[2] && "--Auto"@[2] != "--help"@[2]);
    assert("--nested"@.len() != "--debug"@.len());
    assert("--nested"@[0] != " --DEBUG"@[0] && "--Nested"@[0] != " --DEBUG"@[0]);
    assert("--Nested"@.len() != "--debug"@.len());
    assert("--auto"@[1] != "-loc"@[1] && "--Auto"@[1] != "-loc"@[1]);
    assert("-a"@.len() < "-loc"@.len() && "-A"@.len() < "-loc"@.len());
    lemma_mode_arg(m, "--graph"@);
    lemma_mode_arg(m, "--Graph"@);
    lemma_mode_arg(m, "-G"@);
    lemma_mode_arg(m, "-g"@);
    lemma_mode_arg(m, "--nested"@);
    lemma_mode_arg(m, "-n"@);
    lemma_mode_arg(m, "-N"@);
    lemma_mode_arg(m, "--Nested"@);
    lemma_mode_arg(m, "--auto"@);
    lemma_mode_arg(m, "-a"@);
    lemma_mode_arg(m, "--Auto"@);
    lemma_mode_arg(m, "-A"@);
}

proof fn lemma_help_arg(m: CliView, a: Seq<char>)
    requires
        is_help_flag(a),
        !is_debug_flag(a),
    ensures
        parse_args_spec(m, seq![a]) == (m, Ok::<ArgsOutcome, ArgError>(ArgsOutcome::HelpRequested)),
{
    assert(seq![a].drop_last() =~= Seq::<Seq<char>>::empty());
    assert(parse_args_spec(m, Seq::<Seq<char>>::empty()) == (m, Ok::<ArgsOutcome, ArgError>(
        ArgsOutcome::Parsed,
    )));
    assert(seq![a].last() == a);
}

proof fn lemma_dot_pieces_no_dots(x: Seq<char>)
    requires
        !x.contains('.'),
    ensures
        dot_pieces(x) == seq![x],
    decreases x.len(),
{
    if x.len() > 0 {
        assert(x[0] != '.');
        assert(!x.drop_first().contains('.')) by {
            if x.drop_first().contains('.') {
                let k = choose|k: int| 0 <= k < x.drop_first().len() && x.drop_first()[k] == '.';
                assert(x[k + 1] == '.');
            }
        }
        lemma_dot_pieces_no_dots(x.drop_first());
        assert(seq![x[0]] + x.drop_first() =~= x);
        assert(prepend_first(seq![x[0]], seq![x.drop_first()]) =~= seq![x]);
    } else {
        assert(x =~= Seq::<char>::empty());
    }
}

proof fn lemma_dot_pieces_cut(x: Seq<char>, y: Seq<char>)
    requires
        !x.contains('.'),
    ensures
        dot_pieces(x + seq!['.', '.'] + y) == seq![x] + dot_pieces(y),
    decreases x.len(),
{
    let s = x + seq!['.', '.'] + y;
    if x.len() == 0 {
        assert(s.skip(2) =~= y);
        assert(x =~= Seq::<char>::empty());
    } else {
        assert(s[0] == x[0]);
        assert(x[0] != '.');
        assert(!x.drop_first().contains('.')) by {
            if x.drop_first().contains('.') {
                let k = choose|k: int| 0 <= k < x.drop_first().len() && x.drop_first()[k] == '.';
                assert(x[k + 1] == '.');
            }
        }
        assert(s.drop_first() =~= x.drop_first() + seq!['.', '.'] + y);
        lemma_dot_pieces_cut(x.drop_first(), y);
        lemma_dot_pieces_nonempty(y);
        assert(seq![x[0]] + x.drop_first() =~= x);
        assert(prepend_first(seq![x[0]], seq![x.drop_first()] + dot_pieces(y)) =~= seq![x]
            + dot_pieces(y));
    }
}

/// A single bound `a` names the range from `a` to 0.
pub proof fn law_single_bound(a: Seq<char>, x: usize)
    requires
        !a.contains('.'),
        parse_usize_spec(a) == Some(x),
    ensures
        parse_range(a) == Ok::<(usize, usize), ArgError>((x, 0)),
{
    lemma_dot_pieces_no_dots(a);
}

/// The range `a..b` of two decimal bounds names the bytes from `a` up to
/// (not including) `b`.
pub proof fn law_exclusive_range(a: Seq<char>, b: Seq<char>, x: usize, y: usize)
    requires
        !a.contains('.'),
        !b.contains('.'),
        parse_usize_spec(a) == Some(x),
        parse_usize_spec(b) == Some(y),
    ensures
        parse_range(a + seq!['.', '.'] + b) == Ok::<(usize, usize), ArgError>((x, y)),
{
    lemma_dot_pieces_cut(a, b);
    lemma_dot_pieces_no_dots(b);
    if b.len() > 0 && b[0] == '=' {
        assert(crate::text::unsigned_part(b) == b);
        assert(!crate::text::is_digit(b[0]));
    }
}

/// The range `a..=b` of two decimal bounds names the bytes from `a` up to
/// and including `b`.
pub proof fn law_inclusive_range_value(a: Seq<char>, b: Seq<char>, x: usize, y: usize)
    requires
        !a.contains('.'),
        !b.contains('.'),
        parse_usize_spec(a) == Some(x),
        parse_usize_spec(b) == Some(y),
        y < usize::MAX,
    ensures
        parse_range(a + seq!['.', '.', '='] + b) == Ok::<(usize, usize), ArgError>((x, (y + 1) as usize)),
{
    let eb = seq!['='] + b;
    assert(a + seq!['.', '.', '='] + b =~= a + seq!['.', '.'] + eb);
    assert(!eb.contains('.')) by {
        if eb.contains('.') {
            let k = choose|k: int| 0 <= k < eb.len() && eb[k] == '.';
            assert(b[k - 1] == '.');
        }
    }
    lemma_dot_pieces_cut(a, eb);
    lemma_dot_pieces_no_dots(eb);
    assert(eb.drop_first() =~= b);
}

proof fn lemma_no_open_bracket(a: Seq<char>)
    requires
        no_open_bracket(a),
    ensures
        !a.contains('['),
{
}

/// None of the spellings of the debug and help flags holds a `[`.
proof fn lemma_flags_without_brackets(a: Seq<char>)
    requires
        a.contains('['),
    ensures
        !is_debug_flag(a),
        !is_help_flag(a),
{
    reveal_strlit("-d");
    reveal_strlit("--debug");
    reveal_strlit(" --DEBUG");
    reveal_strlit("-D");
    reveal_strlit("-h");
    reveal_strlit("--help");
    reveal_strlit(" --HELP");
    reveal_strlit("-H");
    let lits = seq!["-d"@, "--debug"@, " --DEBUG"@, "-D"@, "-h"@, "--help"@, " --HELP"@, "-H"@];
    assert forall|i: int| 0 <= i < 8 implies no_open_bracket(#[trigger] lits[i]) by {
        assert forall|k: int| 0 <= k < lits[i].len() implies lits[i][k] != '[' by {
            if k == 0 {
            } else if k == 1 {
            } else if k == 2 {
            } else if k == 3 {
            } else if k == 4 {
            } else if k == 5 {
            } else if k == 6 {
            } else {
            }
        }
    }
    let k = choose|k: int| 0 <= k < a.len() && a[k] == '[';
    assert forall|i: int| 0 <= i < 8 implies a != #[trigger] lits[i] by {
        if a == lits[i] {
            lemma_no_open_bracket(lits[i]);
        }
    }
    assert(lits[0] == "-d"@ && lits[1] == "--debug"@ && lits[2] == " --DEBUG"@ && lits[3] == "-D"@);
    assert(lits[4] == "-h"@ && lits[5] == "--help"@ && lits[6] == " --HELP"@ && lits[7] == "-H"@);
}

/// An argument `path[range]`, with no other bracket in it, adds the slice of
/// `path` that the range names, or is refused as the range is.
pub proof fn law_splice_arg(m: CliView, path: Seq<char>, inner: Seq<char>)
    requires
        !path.contains('['),
        !path.contains(']'),
        !inner.contains('['),
        !inner.contains(']'),
    ensures
        parse_args_spec(m, seq![path + seq!['['] + inner + seq![']']]) == match parse_range(inner) {
            Ok(rg) => (
                CliView {
                    splice_files: m.splice_files.push(FileSliceView { path: path, slice_idx: rg }),
                    ..m
                },
                Ok::<ArgsOutcome, ArgError>(ArgsOutcome::Parsed),
            ),
            Err(e) => (m, Err::<ArgsOutcome, ArgError>(e)),
        },
{
    let a = path + seq!['['] + inner + seq![']'];
    let l = path.len() as int;
    let r = l + 1 + inner.len();
    assert(a[l] == '[');
    assert(a[r] == ']');
    assert forall|k: int| 0 <= k < l implies #[trigger] a[k] != '[' by {
        assert(a[k] == path[k]);
    }
    assert forall|k: int| 0 <= k < r implies #[trigger] a[k] != ']' by {
        if k < l {
            assert(a[k] == path[k]);
        } else if k > l {
            assert(a[k] == inner[k - l - 1]);
        }
    }
    crate::text::lemma_first_pos_unique(a, '[', l);
    crate::text::lemma_first_pos_unique(a, ']', r);
    assert(a.contains('['));
    assert(a.contains(']'));
    lemma_flags_without_brackets(a);
    assert(a.subrange(l + 1, r) =~= inner);
    assert(a.take(l) =~= path);
    lemma_single_arg(m, a);
}

/// Every spelling of a flag starts with `-` or a space.
proof fn lemma_flag_spellings_start(a: Seq<char>)
    requires
        is_debug_flag(a) || is_help_flag(a) || is_graph_flag(a) || is_nested_flag(a)
            || is_auto_flag(a) || "-loc"@.is_prefix_of(a) || is_condition_arg(a),
    ensures
        a.len() > 0 && (a[0] == '-' || a[0] == ' '),
{
    reveal_strlit("-d");
    reveal_strlit("--debug");
    reveal_strlit(" --DEBUG");
    reveal_strlit("-D");
    reveal_strlit("-h");
    reveal_strlit("--help");
    reveal_strlit(" --HELP");
    reveal_strlit("-H");
    reveal_strlit("--graph");
    reveal_strlit("--Graph");
    reveal_strlit("-G");
    reveal_strlit("-g");
    reveal_strlit("--nested");
    reveal_strlit("-n");
    reveal_strlit("-N");
    reveal_strlit("--Nested");
    reveal_strlit("--auto");
    reveal_strlit("-a");
    reveal_strlit("--Auto");
    reveal_strlit("-A");
    reveal_strlit("-loc");
    reveal_strlit("--if");
    reveal_strlit("--IF");
    if "-loc"@.is_prefix_of(a) {
        assert(a[0] == "-loc"@[0]);
    }
    if "--if"@.is_prefix_of(a) {
        assert(a[0] == "--if"@[0]);
    }
    if "--IF"@.is_prefix_of(a) {
        assert(a[0] == "--IF"@[0]);
    }
}

/// An argument that does not start with `-` or a space and does not hold
/// both brackets is a plain file: it is added unless it is there already,
/// and nothing else changes.
pub proof fn law_plain_file(m: CliView, a: Seq<char>)
    requires
        a.len() > 0,
        a[0] != '-',
        a[0] != ' ',
        !(a.contains('[') && a.contains(']')),
    ensures
        parse_args_spec(m, seq![a]) == (
            CliView {
                files: if m.files.contains(a) {
                    m.files
                } else {
                    m.files.push(a)
                },
                ..m
            },
            Ok::<ArgsOutcome, ArgError>(ArgsOutcome::Parsed),
        ),
{
    if is_debug_flag(a) || is_help_flag(a) || is_graph_flag(a) || is_nested_flag(a) || is_auto_flag(a)
        || "-loc"@.is_prefix_of(a) || is_condition_arg(a) {
        lemma_flag_spellings_start(a);
    }
    lemma_single_arg(m, a);
}

/// `-loc=path` sets the commit log to `path`, and `-loc` alone to
/// `COMMIT.md`; nothing else changes.
pub proof fn law_local_log(m: CliView, p: Seq<char>)
    requires
        !p.contains('['),
    ensures
        parse_args_spec(m, seq!["-loc"@ + seq!['='] + p]) == (CliView {
            local_commit_log: Some(p),
            ..m
        }, Ok::<ArgsOutcome, ArgError>(ArgsOutcome::Parsed)),
        parse_args_spec(m, seq!["-loc"@]) == (CliView {
            local_commit_log: Some("COMMIT.md"@),
            ..m
        }, Ok::<ArgsOutcome, ArgError>(ArgsOutcome::Parsed)),
{
    reveal_strlit("-d");
    reveal_strlit("--debug");
    reveal_strlit(" --DEBUG");
    reveal_strlit("-D");
    reveal_strlit("-h");
    reveal_strlit("--help");
    reveal_strlit(" --HELP");
    reveal_strlit("-H");
    reveal_strlit("--graph");
    reveal_strlit("--Graph");
    reveal_strlit("-G");
    reveal_strlit("-g");
    reveal_strlit("--nested");
    reveal_strlit("-n");
    reveal_strlit("-N");
    reveal_strlit("--Nested");
    reveal_strlit("-loc");
    let lo = "-loc"@;
    let a = lo + seq!['='] + p;
    // Both arguments have `l` second; every longer flag spelling has `-` there.
    let longs = seq![
        "--debug"@,
        " --DEBUG"@,
        "--help"@,
        " --HELP"@,
        "--graph"@,
        "--Graph"@,
        "--nested"@,
        "--Nested"@,
    ];
    assert(longs[0] == "--debug"@ && longs[1] == " --DEBUG"@ && longs[2] == "--help"@);
    assert(longs[3] == " --HELP"@ && longs[4] == "--graph"@ && longs[5] == "--Graph"@);
    assert(longs[6] == "--nested"@ && longs[7] == "--Nested"@);
    assert forall|i: int| 0 <= i < 8 implies (#[trigger] longs[i])[1] == '-' by {}
    assert(a[1] == 'l');
    assert(lo[1] == 'l');
    assert forall|i: int| 0 <= i < 8 implies a != #[trigger] longs[i] && lo != longs[i] by {
        if a == longs[i] {
            assert(a[1] == longs[i][1]);
        }
        if lo == longs[i] {
            assert(lo[1] == longs[i][1]);
        }
    }
    assert(lo.is_prefix_of(a)) by {
        assert(a.subrange(0, 4) =~= lo);
    }
    assert(lo.is_prefix_of(lo)) by {
        assert(lo.subrange(0, 4) =~= lo);
    }
    assert(!a.contains('[')) by {
        if a.contains('[') {
            let k = choose|k: int| 0 <= k < a.len() && a[k] == '[';
            if k >= 5 {
                assert(p[k - 5] == '[');
            }
        }
    }
    assert(!lo.contains('[')) by {
        if lo.contains('[') {
            let k = choose|k: int| 0 <= k < lo.len() && lo[k] == '[';
            assert(a[k] == '[');
        }
    }
    assert forall|k: int| 0 <= k < 4 implies #[trigger] a[k] != '=' by {}
    crate::text::lemma_first_pos_unique(a, '=', 4);
    assert(a[4] == '=');
    assert(a.contains('='));
    assert(a.skip(5) =~= p);
    assert(!lo.contains('=')) by {
        if lo.contains('=') {
            let k = choose|k: int| 0 <= k < lo.len() && lo[k] == '=';
            assert(a[k] == '=');
        }
    }
    lemma_single_arg(m, a);
    lemma_single_arg(m, lo);
}

/// The inclusive range `a..=b` names the same bytes as the exclusive range
/// `a..c` where `c` is `b + 1`.
pub proof fn law_inclusive_range(a: Seq<char>, b: Seq<char>, c: Seq<char>, x: usize)
    requires
        !a.contains('.'),
        !b.contains('.'),
        !c.contains('.'),
        parse_usize_spec(b) == Some(x),
        x < usize::MAX,
        parse_usize_spec(c) == Some((x + 1) as usize),
    ensures
        parse_range(a + seq!['.', '.', '='] + b) == parse_range(a + seq!['.', '.'] + c),
{
    let eb = seq!['='] + b;
    assert(a + seq!['.', '.', '='] + b =~= a + seq!['.', '.'] + eb);
    assert(!eb.contains('.')) by {
        if eb.contains('.') {
            let k = choose|k: int| 0 <= k < eb.len() && eb[k] == '.';
            assert(b[k - 1] == '.');
        }
    }
    lemma_dot_pieces_cut(a, eb);
    lemma_dot_pieces_no_dots(eb);
    lemma_dot_pieces_cut(a, c);
    lemma_dot_pieces_no_dots(c);
    assert(eb.drop_first() =~= b);
    if c.len() > 0 && c[0] == '=' {
        assert(crate::text::unsigned_part(c) == c);
        assert(!crate::text::is_digit(c[0]));
    }
}

// ---------------------------------------------------------------------------
// Executable parser
// ---------------------------------------------------------------------------

pub open spec fn range_pieces(s: Seq<char>, rs: Seq<(usize, usize)>) -> Seq<Seq<char>> {
    Seq::new(rs.len(), |k: int| s.subrange(rs[k].0 as int, rs[k].1 as int))
}

/// The bounds of the pieces of `v[start..end]` between occurrences of `..`.
fn dot_ranges(v: &Vec<char>, start: usize, end: usize) -> (r: Vec<(usize, usize)>)
    requires
        start <= end <= v@.len(),
    ensures
        forall|k: int| 0 <= k < r@.len() ==> start <= (#[trigger] r@[k]).0 <= r@[k].1 <= end,
        range_pieces(v@, r@) == dot_pieces(v@.subrange(start as int, end as int)),
{
    let mut out: Vec<(usize, usize)> = Vec::new();
    let mut cur: usize = start;
    let mut i: usize = start;
    proof {
        lemma_dot_pieces_nonempty(v@.subrange(start as int, end as int));
        let ps = dot_pieces(v@.subrange(start as int, end as int));
        assert(prepend_first(Seq::empty(), ps) =~= ps);
        assert(range_pieces(v@, out@) + prepend_first(v@.subrange(cur as int, i as int), ps) =~= ps);
    }
    while i < end
        invariant
            start <= cur <= i <= end,
            end <= v@.len(),
            forall|k: int| 0 <= k < out@.len() ==> start <= (#[trigger] out@[k]).0 <= out@[k].1 <= end,
            dot_pieces(v@.subrange(start as int, end as int)) == range_pieces(v@, out@)
                + prepend_first(
                v@.subrange(cur as int, i as int),
                dot_pieces(v@.subrange(i as int, end as int)),
            ),
        decreases end - i,
    {
        let ghost rest = v@.subrange(i as int, end as int);
        let ghost before = range_pieces(v@, out@);
        if i + 1 < end && v[i] == '.' && v[i + 1] == '.' {
            let ghost piece = v@.subrange(cur as int, i as int);
            let ghost tail = dot_pieces(v@.subrange(i + 2, end as int));
            proof {
                assert(rest.skip(2) =~= v@.subrange(i + 2, end as int));
                lemma_dot_pieces_nonempty(rest.skip(2));
                assert(prepend_first(piece, seq![Seq::<char>::empty()] + tail) =~= seq![piece]
                    + prepend_first(Seq::empty(), tail));
            }
            out.push((cur, i));
            assert(range_pieces(v@, out@) =~= before.push(piece));
            i = i + 2;
            cur = i;
            proof {
                assert(v@.subrange(cur as int, i as int) =~= Seq::<char>::empty());
                assert(before.push(piece) + prepend_first(Seq::empty(), tail) =~= before + (seq![
                    piece,
                ] + prepend_first(Seq::empty(), tail)));
            }
        } else {
            proof {
                assert(rest.drop_first() =~= v@.subrange(i + 1, end as int));
                lemma_dot_pieces_nonempty(rest.drop_first());
                let tail = dot_pieces(rest.drop_first());
                assert(v@.subrange(cur as int, i as int) + (seq![rest[0]] + tail[0]) =~= v@.subrange(
                    cur as int,
                    i + 1,
                ) + tail[0]);
                assert(prepend_first(v@.subrange(cur as int, i as int), prepend_first(seq![rest[0]], tail))
                    =~= prepend_first(v@.subrange(cur as int, i + 1), tail));
            }
            i = i + 1;
        }
    }
    proof {
        let ps = dot_pieces(v@.subrange(i as int, end as int));
        assert(v@.subrange(i as int, end as int) =~= Seq::<char>::empty());
        assert(prepend_first(v@.subrange(cur as int, i as int), seq![Seq::<char>::empty()]) =~= seq![
            v@.subrange(cur as int, i as int),
        ]);
    }
    let ghost before = range_pieces(v@, out@);
    out.push((cur, end));
    assert(range_pieces(v@, out@) =~= before.push(v@.subrange(cur as int, end as int)));
    out
}

/// The range that `v[start..end]` names, as `parse_range` says.
fn parse_range_exec(v: &Vec<char>, start: usize, end: usize) -> (r: Result<(usize, usize), ArgError>)
    requires
        start <= end <= v@.len(),
    ensures
        r == parse_range(v@.subrange(start as int, end as int)),
{
    let rs = dot_ranges(v, start, end);
    let ghost ps = dot_pieces(v@.subrange(start as int, end as int));
    proof {
        lemma_dot_pieces_nonempty(v@.subrange(start as int, end as int));
    }
    assert(range_pieces(v@, rs@).len() == rs@.len());
    let (a0, b0) = rs[0];
    assert(ps[0] == v@.subrange(a0 as int, b0 as int));
    let lb = match parse_usize(v, a0, b0) {
        None => {
            return Err(ArgError::LowerBoundNotUsize);
        },
        Some(x) => x,
    };
    if rs.len() == 1 {
        return Ok((lb, 0));
    }
    let (a1, b1) = rs[1];
    let ghost up = v@.subrange(a1 as int, b1 as int);
    assert(ps[1] == up);
    let ub = if a1 < b1 && v[a1] == '=' {
        assert(up.drop_first() =~= v@.subrange(a1 + 1, b1 as int));
        match parse_usize(v, a1 + 1, b1) {
            None => {
                return Err(ArgError::UpperBoundNotUsize);
            },
            Some(x) => {
                if x == usize::MAX {
                    return Err(ArgError::UpperBoundOverflow);
                }
                x + 1
            },
        }
    } else {
        match parse_usize(v, a1, b1) {
            None => {
                return Err(ArgError::UpperBoundNotUsize);
            },
            Some(x) => x,
        }
    };
    if rs.len() > 2 {
        return Err(ArgError::InvalidRange);
    }
    Ok((lb, ub))
}

/// Whether `a` is one of `list`.
fn contains_string(list: &Vec<String>, a: &String) -> (r: bool)
    ensures
        r == list.deep_view().contains(a@),
{
    let mut i: usize = 0;
    while i < list.len()
        invariant
            i <= list@.len(),
            forall|k: int| 0 <= k < i ==> list.deep_view()[k] != a@,
        decreases list.len() - i,
    {
        if list[i] == *a {
            assert(list.deep_view()[i as int] == a@);
            return true;
        }
        i = i + 1;
    }
    false
}

/// What taking in one argument came to.
enum Applied {
    Continue,
    Help,
    Fail(ArgError),
}

impl CLI {
    /// Options with every flag off and every list empty.
    pub fn new() -> (r: Self)
        ensures
            r@ == empty_cli(),
    {
        let r = CLI {
            dbg: false,
            files: Vec::new(),
            splice_files: Vec::new(),
            nested_gitignore: false,
            graph: false,
            conditions: Vec::new(),
            local_commit_log: None,
            auto_repo_link: false,
            condition_params: Vec::new(),
        };
        assert(r@ =~= empty_cli());
        r
    }

    fn apply_arg(&mut self, a: &String) -> (r: Applied)
        ensures
            match r {
                Applied::Continue => step(old(self)@, a@) == StepOutcome::Next(final(self)@),
                Applied::Help => step(old(self)@, a@) is Help && final(self)@ == old(self)@,
                Applied::Fail(e) => step(old(self)@, a@) == StepOutcome::Fail(e) && final(self)@
                    == old(self)@,
            },
    {
        let ghost m = self@;
        let v = chars_of(a.as_str());
        if equals_str(&v, "-d") || equals_str(&v, "--debug") || equals_str(&v, " --DEBUG")
            || equals_str(&v, "-D") {
            self.dbg = true;
            assert(self@ =~= CliView { dbg: true, ..m });
            return Applied::Continue;
        }
        if equals_str(&v, "-h") || equals_str(&v, "--help") || equals_str(&v, " --HELP")
            || equals_str(&v, "-H") {
            return Applied::Help;
        }
        let open = find_first(&v, '[');
        let close = find_first(&v, ']');
        proof {
            lemma_find_char(a@, '[');
            lemma_find_char(a@, ']');
        }
        if open.is_some() && close.is_some() {
            let l = open.unwrap();
            let r = close.unwrap();
            let path = String::from_str(a.as_str().substring_char(0, l));
            assert(path@ =~= a@.take(l as int));
            if r <= l {
                return Applied::Fail(ArgError::ReversedBrackets);
            }
            match parse_range_exec(&v, l + 1, r) {
                Ok(rg) => {
                    let slice = FileSlice { path, slice_idx: rg };
                    self.splice_files.push(slice);
                    assert(self@.splice_files =~= m.splice_files.push(slice@));
                    assert(self@ =~= CliView { splice_files: m.splice_files.push(slice@), ..m });
                    return Applied::Continue;
                },
                Err(e) => {
                    return Applied::Fail(e);
                },
            }
        }
        if equals_str(&v, "--graph") || equals_str(&v, "--Graph") || equals_str(&v, "-G")
            || equals_str(&v, "-g") {
            self.graph = true;
            assert(self@ =~= CliView { graph: true, ..m });
            return Applied::Continue;
        }
        if equals_str(&v, "--nested") || equals_str(&v, "-n") || equals_str(&v, "-N")
            || equals_str(&v, "--Nested") {
            self.nested_gitignore = true;
            assert(self@ =~= CliView { nested_gitignore: true, ..m });
            return Applied::Continue;
        }
        if starts_with_str(&v, "-loc") {
            let n = v.len();
            let eq = find_first(&v, '=');
            proof {
                lemma_find_char(a@, '=');
            }
            let log = match eq {
                Some(k) => {
                    assert(k < n);
                    let rest = String::from_str(a.as_str().substring_char(k + 1, n));
                    assert(rest@ =~= a@.skip(k + 1));
                    rest
                },
                None => String::from_str("COMMIT.md"),
            };
            self.local_commit_log = Some(log);
            assert(self@ =~= CliView { local_commit_log: Some(local_log_of(a@)), ..m });
            return Applied::Continue;
        }
        if equals_str(&v, "--auto") || equals_str(&v, "-a") || equals_str(&v, "--Auto")
            || equals_str(&v, "-A") {
            self.auto_repo_link = true;
            assert(self@ =~= CliView { auto_repo_link: true, ..m });
            return Applied::Continue;
        }
        if starts_with_str(&v, "--if") || starts_with_str(&v, "--IF") {
            return Applied::Fail(ArgError::ConditionWithoutBrackets);
        }
        if !contains_string(&self.files, a) {
            self.files.push(a.clone());
            assert(self@.files =~= m.files.push(a@));
        }
        assert(self@ =~= CliView { files: insert_file(m.files, a@), ..m });
        Applied::Continue
    }

    /// Takes in the command-line arguments `args` (the program name left
    /// out), from the left, until a help flag or a refused argument.
    pub fn Parse_Args(&mut self, args: &Vec<String>) -> (r: Result<ArgsOutcome, ArgError>)
        ensures
            (final(self)@, r) == parse_args_spec(old(self)@, args.deep_view()),
    {
        let ghost m0 = self@;
        let mut i: usize = 0;
        assert(args.deep_view().take(0) =~= Seq::<Seq<char>>::empty());
        while i < args.len()
            invariant
                i <= args@.len(),
                m0 == old(self)@,
                (self@, Ok::<ArgsOutcome, ArgError>(ArgsOutcome::Parsed)) == parse_args_spec(
                    m0,
                    args.deep_view().take(i as int),
                ),
            decreases args.len() - i,
        {
            assert(args.deep_view().take(i + 1).drop_last() =~= args.deep_view().take(i as int));
            assert(args.deep_view().take(i + 1).last() == args[i as int]@);
            let ghost before = self@;
            match self.apply_arg(&args[i]) {
                Applied::Continue => {},
                Applied::Help => {
                    proof {
                        assert(parse_args_spec(m0, args.deep_view().take(i + 1)) == (
                            before,
                            Ok::<ArgsOutcome, ArgError>(ArgsOutcome::HelpRequested),
                        ));
                        lemma_parse_args_stops(m0, args.deep_view(), i + 1);
                    }
                    return Ok(ArgsOutcome::HelpRequested);
                },
                Applied::Fail(e) => {
                    proof {
                        assert(parse_args_spec(m0, args.deep_view().take(i + 1)) == (
                            before,
                            Err::<ArgsOutcome, ArgError>(e),
                        ));
                        lemma_parse_args_stops(m0, args.deep_view(), i + 1);
                    }
                    return Err(e);
                },
            }
            i = i + 1;
        }
        assert(args.deep_view().take(args.len() as int) =~= args.deep_view());
        Ok(ArgsOutcome::Parsed)
    }
}

/// Shows the commit history; it has nothing to show yet and does nothing.
pub fn print_commit_history() {
}

} // verus!
