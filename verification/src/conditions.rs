//! Conditions on paths: the flag word that a `-XYZ` argument spells, the
//! decisions taken on what the file system reports of a path, and the order
//! in which a list of conditions is checked.

use vstd::prelude::*;
use crate::text::chars_of;

verus! {

/// `E`: the path must exist.
pub const MUST_EXIST: u8 = 1;

/// `N`: the path must not exist.
pub const MUST_NOT_EXIST: u8 = 2;

/// `F`: the path must be a file.
pub const MUST_BE_FILE: u8 = 4;

/// `D`: the path must be a directory.
pub const MUST_BE_DIR: u8 = 8;

/// `C`: the directory is created where the path does not exist.
pub const CREATE_DIR: u8 = 16;

/// `!`: the path must be like the first path seen since the last reset.
pub const MUST_BE_SIMILAR: u8 = 32;

/// `=`: the path must differ from the first path seen since the last reset.
pub const MUST_DIFFER: u8 = 64;

/// The bit that a letter of a condition argument sets.
pub open spec fn letter_bit(c: char) -> u8 {
    if c == 'E' {
        MUST_EXIST
    } else if c == 'N' {
        MUST_NOT_EXIST
    } else if c == 'F' {
        MUST_BE_FILE
    } else if c == 'D' {
        MUST_BE_DIR
    } else if c == 'C' {
        CREATE_DIR
    } else if c == '!' {
        MUST_BE_SIMILAR
    } else if c == '=' {
        MUST_DIFFER
    } else {
        0
    }
}

/// The flags that the letters `s` set together.
pub open spec fn flag_word(s: Seq<char>) -> u8
    decreases s.len(),
{
    if s.len() == 0 {
        0
    } else {
        flag_word(s.drop_last()) | letter_bit(s.last())
    }
}

/// `s` without its first character (empty stays empty).
pub open spec fn after_first(s: Seq<char>) -> Seq<char> {
    if s.len() == 0 {
        s
    } else {
        s.drop_first()
    }
}

pub open spec fn has_flag(flags: u8, bit: u8) -> bool {
    flags & bit != 0
}

/// What the file system reports of a path before anything is done to it.
#[derive(Debug, Clone, Copy, PartialEq, Eq)]
pub struct PathFacts {
    pub exists: bool,
    pub is_file: bool,
    pub is_dir: bool,
}

/// The metadata of a path that the similarity conditions compare.
#[derive(Debug, Clone, Copy, PartialEq, Eq)]
pub struct FileMeta {
    pub len: u64,
    pub is_file: bool,
    pub is_dir: bool,
}

/// A condition that a path did not meet.
#[derive(Debug, Clone, Copy, PartialEq, Eq)]
pub enum ConditionError {
    DoesNotExist,
    Exists,
    NotAFile,
    NotADirectory,
    NotSimilar,
    Similar,
}

/// One thing to do while going through a list of conditions.
#[derive(Debug, Clone, Copy, PartialEq, Eq)]
pub enum ConditionStep {
    /// Check the conditions `flags` on the item at `param`.
    Check { flags: u8, param: usize },
    /// Forget the metadata remembered for the similarity conditions.
    Reset,
}

/// The checks on existence and kind, in order; `Ok` says whether the
/// directory is to be created.
pub open spec fn path_check_spec(flags: u8, f: PathFacts) -> Result<bool, ConditionError> {
    if has_flag(flags, MUST_EXIST) && !f.exists {
        Err(ConditionError::DoesNotExist)
    } else if has_flag(flags, MUST_NOT_EXIST) && f.exists {
        Err(ConditionError::Exists)
    } else if has_flag(flags, MUST_BE_FILE) && !f.is_file {
        Err(ConditionError::NotAFile)
    } else if has_flag(flags, MUST_BE_DIR) && !f.is_dir {
        Err(ConditionError::NotADirectory)
    } else {
        Ok(has_flag(flags, CREATE_DIR) && !f.exists)
    }
}

/// Two paths are alike when they have the same length and are both files or
/// both directories.
pub open spec fn similar(a: FileMeta, b: FileMeta) -> bool {
    a.len == b.len && ((a.is_file && b.is_file) || (a.is_dir && b.is_dir))
}

/// The similarity checks on the current path's metadata, against the
/// metadata remembered (which the first of them remembers when there is none).
pub open spec fn meta_check_spec(flags: u8, current: FileMeta, stored: Option<FileMeta>) -> (
    Option<FileMeta>,
    Result<(), ConditionError>,
) {
    let (s1, kept) = if has_flag(flags, MUST_BE_SIMILAR) {
        match stored {
            None => (Some(current), true),
            Some(m) => (stored, similar(current, m)),
        }
    } else {
        (stored, true)
    };
    if !kept {
        (stored, Err(ConditionError::NotSimilar))
    } else if has_flag(flags, MUST_DIFFER) {
        match s1 {
            None => (Some(current), Ok(())),
            Some(m) => if similar(current, m) {
                (s1, Err(ConditionError::Similar))
            } else {
                (s1, Ok(()))
            },
        }
    } else {
        (s1, Ok(()))
    }
}

/// The text that a failed condition is reported with.
pub open spec fn message_spec(e: ConditionError, param: Seq<char>) -> Seq<char> {
    match e {
        ConditionError::DoesNotExist => "IF dependency not satisfied: "@ + param
            + " does not Exist!!"@,
        ConditionError::Exists => "IF dependency not satisfied: "@ + param + " Exists!!"@,
        ConditionError::NotAFile => "IF dependency not satisfied: "@ + param + " is not a File!!"@,
        ConditionError::NotADirectory => "IF dependency not satisfied: "@ + param
            + " is not a Directory!!"@,
        ConditionError::NotSimilar => "IF dependency not satisfied: "@
            + "Files are not Similar!!"@,
        ConditionError::Similar => "IF dependency not satisfied: "@ + "Files are Similar!!"@,
    }
}

/// The flags in force after `items`, and the steps that going through them
/// takes: an item is checked against the flags in force before it, and an
/// item that starts with `-` then resets the remembered metadata and sets the
/// flags that its letters spell.
pub open spec fn plan_spec(items: Seq<Seq<char>>) -> (u8, Seq<ConditionStep>)
    decreases items.len(),
{
    if items.len() == 0 {
        (0, Seq::empty())
    } else {
        let (f, steps) = plan_spec(items.drop_last());
        let it = items.last();
        let checked = if f != 0 {
            steps.push(ConditionStep::Check { flags: f, param: (items.len() - 1) as usize })
        } else {
            steps
        };
        if it.len() > 0 && it[0] == '-' {
            (flag_word(after_first(it)), checked.push(ConditionStep::Reset))
        } else {
            (f, checked)
        }
    }
}

// ---------------------------------------------------------------------------
// Laws
// ---------------------------------------------------------------------------

proof fn lemma_or_bit(w: u8, b: u8, m: u8)
    requires
        m == 1 || m == 2 || m == 4 || m == 8 || m == 16 || m == 32 || m == 64,
        b == 0 || b == 1 || b == 2 || b == 4 || b == 8 || b == 16 || b == 32 || b == 64,
    ensures
        ((w | b) & m != 0) == ((w & m != 0) || b == m),
        w < 128 ==> (w | b) < 128,
{
    assert(((w | b) & m != 0) == ((w & m != 0) || b == m)) by (bit_vector)
        requires
            m == 1 || m == 2 || m == 4 || m == 8 || m == 16 || m == 32 || m == 64,
            b == 0 || b == 1 || b == 2 || b == 4 || b == 8 || b == 16 || b == 32 || b == 64,
    ;
    assert(w < 128 ==> (w | b) < 128) by (bit_vector)
        requires
            b == 0 || b == 1 || b == 2 || b == 4 || b == 8 || b == 16 || b == 32 || b == 64,
    ;
}

/// A letter's flag is set in the flag word exactly when the letter occurs,
/// and no flag above the seven letters' is ever set.
pub proof fn lemma_flag_word_bits(s: Seq<char>, c: char)
    requires
        letter_bit(c) != 0,
    ensures
        has_flag(flag_word(s), letter_bit(c)) <==> s.contains(c),
        flag_word(s) < 128,
    decreases s.len(),
{
    let m = letter_bit(c);
    if s.len() == 0 {
        assert(0u8 & m == 0) by (bit_vector);
    } else {
        lemma_flag_word_bits(s.drop_last(), c);
        lemma_or_bit(flag_word(s.drop_last()), letter_bit(s.last()), letter_bit(c));
        assert(letter_bit(s.last()) == letter_bit(c) <==> s.last() == c);
        if s.drop_last().contains(c) {
            let k = choose|k: int| 0 <= k < s.drop_last().len() && s.drop_last()[k] == c;
            assert(s[k] == c);
        }
        if s.contains(c) && s.last() != c {
            let k = choose|k: int| 0 <= k < s.len() && s[k] == c;
            assert(s.drop_last()[k] == c);
        }
        if s.last() == c {
            assert(s[s.len() - 1] == c);
        }
    }
}

/// A condition that asks for a path to exist and not to exist fails for
/// every path.
pub proof fn law_exist_and_absent_conflict(s: Seq<char>, f: PathFacts)
    requires
        s.contains('E'),
        s.contains('N'),
    ensures
        path_check_spec(flag_word(s), f) is Err,
{
    lemma_flag_word_bits(s, 'E');
    lemma_flag_word_bits(s, 'N');
}

pub open spec fn is_dash_item(it: Seq<char>) -> bool {
    it.len() > 0 && it[0] == '-'
}

/// The last of the first `n` items that starts with `-`.
pub open spec fn last_dash(items: Seq<Seq<char>>, n: int) -> Option<int>
    decreases n,
{
    if n <= 0 {
        None
    } else if is_dash_item(items[n - 1]) {
        Some(n - 1)
    } else {
        last_dash(items, n - 1)
    }
}

proof fn lemma_last_dash_prefix(items: Seq<Seq<char>>, t: Seq<Seq<char>>, n: int)
    requires
        0 <= n <= t.len() <= items.len(),
        forall|k: int| 0 <= k < t.len() ==> t[k] == items[k],
    ensures
        last_dash(t, n) == last_dash(items, n),
        last_dash(items, n) matches Some(j) ==> 0 <= j < n && is_dash_item(items[j]),
    decreases n,
{
    if n > 0 {
        lemma_last_dash_prefix(items, t, n - 1);
    }
}

/// The flags in force after some items are those that the last item
/// starting with `-` spells, or none.
pub open spec fn flags_after(items: Seq<Seq<char>>, n: int) -> u8 {
    match last_dash(items, n) {
        Some(j) => flag_word(after_first(items[j])),
        None => 0,
    }
}

/// Whether `steps` check the item at `p` against the flags `f`.
pub open spec fn checks(steps: Seq<ConditionStep>, f: u8, p: int) -> bool {
    steps.contains(ConditionStep::Check { flags: f, param: p as usize })
}

/// Going through a list of conditions checks exactly the items that follow
/// an item starting with `-` that spells some flag, each against the flags
/// of the nearest such item before it, and resets the remembered metadata
/// once for each item starting with `-`, after that item's own check.
pub proof fn law_plan(items: Seq<Seq<char>>)
    requires
        items.len() <= usize::MAX,
    ensures
        plan_spec(items).0 == flags_after(items, items.len() as int),
        forall|p: int, f: u8|
            0 <= p < items.len() ==> (#[trigger] checks(plan_spec(items).1, f, p) <==> (f != 0 && f
                == flags_after(items, p))),
    decreases items.len(),
{
    if items.len() > 0 {
        let t = items.drop_last();
        let n = items.len() - 1;
        law_plan(t);
        lemma_last_dash_prefix(items, t, n);
        law_plan_checks(t);
        let (f0, steps) = plan_spec(t);
        assert(f0 == flags_after(items, n));
        let checked = if f0 != 0 {
            steps.push(ConditionStep::Check { flags: f0, param: n as usize })
        } else {
            steps
        };
        let all = plan_spec(items).1;
        assert(all == checked || all == checked.push(ConditionStep::Reset));
        assert forall|p: int, f: u8| 0 <= p < items.len() implies (#[trigger] checks(all, f, p) <==> (
        f != 0 && f == flags_after(items, p))) by {
            let st = ConditionStep::Check { flags: f, param: p as usize };
            assert(checks(all, f, p) == all.contains(st));
            if p < n {
                lemma_last_dash_prefix(items, t, p);
                assert(flags_after(t, p) == flags_after(items, p));
                if all.contains(st) {
                    let k = choose|k: int| 0 <= k < all.len() && all[k] == st;
                    if k >= steps.len() {
                        assert(all[k] == ConditionStep::Check { flags: f0, param: n as usize }
                            || all[k] == ConditionStep::Reset);
                    } else {
                        assert(steps[k] == st);
                    }
                }
                assert(checks(steps, f, p) == steps.contains(st));
                if steps.contains(st) {
                    let k = choose|k: int| 0 <= k < steps.len() && steps[k] == st;
                    assert(all[k] == st);
                }
            } else {
                if all.contains(st) {
                    let k = choose|k: int| 0 <= k < all.len() && all[k] == st;
                    if k < steps.len() {
                        assert(steps[k] == st);
                        assert(steps.contains(st));
                        match steps[k] {
                            ConditionStep::Check { flags, param } => {
                                assert(param < t.len());
                            },
                            ConditionStep::Reset => {},
                        }
                    }
                }
                if f != 0 && f == flags_after(items, p) {
                    assert(all[steps.len() as int] == st);
                }
            }
        }
    }
}

/// The existence and kind checks pass only where every condition asked for
/// holds; a failure names a condition that was asked for and does not hold;
/// and the directory is to be created exactly where that was asked for and
/// the path does not exist.
pub proof fn law_path_checks(flags: u8, f: PathFacts)
    ensures
        path_check_spec(flags, f) is Ok ==> {
            &&& (flags & MUST_EXIST != 0 ==> f.exists)
            &&& (flags & MUST_NOT_EXIST != 0 ==> !f.exists)
            &&& (flags & MUST_BE_FILE != 0 ==> f.is_file)
            &&& (flags & MUST_BE_DIR != 0 ==> f.is_dir)
        },
        (flags & MUST_EXIST != 0 ==> f.exists) && (flags & MUST_NOT_EXIST != 0 ==> !f.exists) && (
        flags & MUST_BE_FILE != 0 ==> f.is_file) && (flags & MUST_BE_DIR != 0 ==> f.is_dir)
            ==> path_check_spec(flags, f) == Ok::<bool, ConditionError>(
            flags & CREATE_DIR != 0 && !f.exists,
        ),
        path_check_spec(flags, f) == Err::<bool, ConditionError>(ConditionError::DoesNotExist) ==> flags
            & MUST_EXIST != 0 && !f.exists,
        path_check_spec(flags, f) == Err::<bool, ConditionError>(ConditionError::Exists) ==> flags
            & MUST_NOT_EXIST != 0 && f.exists,
        path_check_spec(flags, f) == Err::<bool, ConditionError>(ConditionError::NotAFile) ==> flags
            & MUST_BE_FILE != 0 && !f.is_file,
        path_check_spec(flags, f) == Err::<bool, ConditionError>(ConditionError::NotADirectory) ==> flags
            & MUST_BE_DIR != 0 && !f.is_dir,
        path_check_spec(flags, f) is Ok || path_check_spec(flags, f) == Err::<bool, ConditionError>(
            ConditionError::DoesNotExist,
        ) || path_check_spec(flags, f) == Err::<bool, ConditionError>(ConditionError::Exists)
            || path_check_spec(flags, f) == Err::<bool, ConditionError>(ConditionError::NotAFile)
            || path_check_spec(flags, f) == Err::<bool, ConditionError>(
            ConditionError::NotADirectory,
        ),
{
}

/// Two paths are alike when they have the same length and are both files or
/// both directories: against a remembered path, `!` passes and `=` fails
/// exactly for such a path, and the remembered path stays.
pub proof fn law_similarity_by_kind(current: FileMeta, first: FileMeta)
    ensures
        (current.len == first.len && ((current.is_file && first.is_file) || (current.is_dir
            && first.is_dir))) ==> meta_check_spec(MUST_BE_SIMILAR, current, Some(first)) == (
            Some(first),
            Ok::<(), ConditionError>(()),
        ) && meta_check_spec(MUST_DIFFER, current, Some(first)) == (
            Some(first),
            Err::<(), ConditionError>(ConditionError::Similar),
        ),
        !(current.len == first.len && ((current.is_file && first.is_file) || (current.is_dir
            && first.is_dir))) ==> meta_check_spec(MUST_BE_SIMILAR, current, Some(first)) == (
            Some(first),
            Err::<(), ConditionError>(ConditionError::NotSimilar),
        ) && meta_check_spec(MUST_DIFFER, current, Some(first)) == (
            Some(first),
            Ok::<(), ConditionError>(()),
        ),
{
    assert(MUST_BE_SIMILAR & MUST_BE_SIMILAR != 0 && MUST_BE_SIMILAR & MUST_DIFFER == 0
        && MUST_DIFFER & MUST_DIFFER != 0 && MUST_DIFFER & MUST_BE_SIMILAR == 0) by (bit_vector);
}

/// The first similarity check after a reset remembers the path it is made
/// on and passes; a later one passes `!` exactly when the path is like the
/// remembered one, and `=` exactly when it is not.
pub proof fn law_similarity(first: FileMeta, later: FileMeta)
    ensures
        meta_check_spec(MUST_BE_SIMILAR, first, None) == (Some(first), Ok::<(), ConditionError>(())),
        meta_check_spec(MUST_DIFFER, first, None) == (Some(first), Ok::<(), ConditionError>(())),
        (meta_check_spec(MUST_BE_SIMILAR, later, Some(first)).1 is Ok) == similar(later, first),
        (meta_check_spec(MUST_DIFFER, later, Some(first)).1 is Ok) == !similar(later, first),
        meta_check_spec(MUST_BE_SIMILAR, later, Some(first)).0 == Some(first),
        meta_check_spec(MUST_DIFFER, later, Some(first)).0 == Some(first),
{
    assert(MUST_BE_SIMILAR & MUST_BE_SIMILAR != 0 && MUST_BE_SIMILAR & MUST_DIFFER == 0
        && MUST_DIFFER & MUST_DIFFER != 0 && MUST_DIFFER & MUST_BE_SIMILAR == 0) by (bit_vector);
}

/// Every check that going through a list of conditions makes names an item
/// of the list and carries flags that ask for something.
pub proof fn law_plan_checks(items: Seq<Seq<char>>)
    ensures
        forall|k: int|
            0 <= k < plan_spec(items).1.len() ==> match #[trigger] plan_spec(items).1[k] {
                ConditionStep::Check { flags, param } => flags != 0 && param < items.len(),
                ConditionStep::Reset => true,
            },
    decreases items.len(),
{
    if items.len() > 0 {
        law_plan_checks(items.drop_last());
    }
}

// ---------------------------------------------------------------------------
// Executable functions
// ---------------------------------------------------------------------------

fn letter_bit_exec(c: char) -> (b: u8)
    ensures
        b == letter_bit(c),
{
    if c == 'E' {
        MUST_EXIST
    } else if c == 'N' {
        MUST_NOT_EXIST
    } else if c == 'F' {
        MUST_BE_FILE
    } else if c == 'D' {
        MUST_BE_DIR
    } else if c == 'C' {
        CREATE_DIR
    } else if c == '!' {
        MUST_BE_SIMILAR
    } else if c == '=' {
        MUST_DIFFER
    } else {
        0
    }
}

/// The flags that the letters after the first character of `arg` spell.
pub fn parse_condition_flags(arg: &String) -> (r: u8)
    ensures
        r == flag_word(after_first(arg@)),
{
    let v = chars_of(arg.as_str());
    let n = v.len();
    let mut flags: u8 = 0;
    if n == 0 {
        return 0;
    }
    let mut j: usize = 1;
    assert(v@.subrange(1, 1) =~= Seq::<char>::empty());
    while j < n
        invariant
            1 <= j <= n,
            n == v@.len(),
            flags == flag_word(v@.subrange(1, j as int)),
        decreases n - j,
    {
        assert(v@.subrange(1, j + 1).drop_last() =~= v@.subrange(1, j as int));
        flags = flags | letter_bit_exec(v[j]);
        j = j + 1;
    }
    assert(v@.subrange(1, n as int) =~= after_first(arg@));
    flags
}

/// The checks on existence and kind; `Ok(true)` asks for the directory to be
/// created.
pub fn check_path_flags(flags: u8, facts: PathFacts) -> (r: Result<bool, ConditionError>)
    ensures
        r == path_check_spec(flags, facts),
{
    if flags & MUST_EXIST != 0 && !facts.exists {
        return Err(ConditionError::DoesNotExist);
    }
    if flags & MUST_NOT_EXIST != 0 && facts.exists {
        return Err(ConditionError::Exists);
    }
    if flags & MUST_BE_FILE != 0 && !facts.is_file {
        return Err(ConditionError::NotAFile);
    }
    if flags & MUST_BE_DIR != 0 && !facts.is_dir {
        return Err(ConditionError::NotADirectory);
    }
    Ok(flags & CREATE_DIR != 0 && !facts.exists)
}

/// Whether the similarity checks need the path's metadata.
pub fn needs_metadata(flags: u8) -> (r: bool)
    ensures
        r == (has_flag(flags, MUST_BE_SIMILAR) || has_flag(flags, MUST_DIFFER)),
{
    flags & MUST_BE_SIMILAR != 0 || flags & MUST_DIFFER != 0
}

fn is_similar(a: FileMeta, b: FileMeta) -> (r: bool)
    ensures
        r == similar(a, b),
{
    a.len == b.len && ((a.is_file && b.is_file) || (a.is_dir && b.is_dir))
}

/// The similarity checks of `flags` on the current path's metadata.
pub fn check_metadata_flags(flags: u8, current: FileMeta, stored: &mut Option<FileMeta>) -> (r:
    Result<(), ConditionError>)
    ensures
        (*final(stored), r) == meta_check_spec(flags, current, *old(stored)),
{
    if flags & MUST_BE_SIMILAR != 0 {
        match *stored {
            None => {
                *stored = Some(current);
            },
            Some(m) => {
                if !is_similar(current, m) {
                    return Err(ConditionError::NotSimilar);
                }
            },
        }
    }
    if flags & MUST_DIFFER != 0 {
        match *stored {
            None => {
                *stored = Some(current);
            },
            Some(m) => {
                if is_similar(current, m) {
                    return Err(ConditionError::Similar);
                }
            },
        }
    }
    Ok(())
}

impl ConditionError {
    /// The text that the failed condition on `param` is reported with.
    pub fn message(&self, param: &str) -> (r: String)
        ensures
            r@ == message_spec(*self, param@),
    {
        let mut r = String::from_str("IF dependency not satisfied: ");
        match self {
            ConditionError::DoesNotExist => {
                r.append(param);
                r.append(" does not Exist!!");
            },
            ConditionError::Exists => {
                r.append(param);
                r.append(" Exists!!");
            },
            ConditionError::NotAFile => {
                r.append(param);
                r.append(" is not a File!!");
            },
            ConditionError::NotADirectory => {
                r.append(param);
                r.append(" is not a Directory!!");
            },
            ConditionError::NotSimilar => {
                r.append("Files are not Similar!!");
            },
            ConditionError::Similar => {
                r.append("Files are Similar!!");
            },
        }
        r
    }
}

/// The steps that going through `conditions` takes, in order.
pub fn plan_condition_checks(conditions: &Vec<String>) -> (r: Vec<ConditionStep>)
    ensures
        r@ == plan_spec(conditions.deep_view()).1,
{
    let mut steps: Vec<ConditionStep> = Vec::new();
    let mut flags: u8 = 0;
    let mut i: usize = 0;
    assert(conditions.deep_view().take(0) =~= Seq::<Seq<char>>::empty());
    while i < conditions.len()
        invariant
            i <= conditions@.len(),
            (flags, steps@) == plan_spec(conditions.deep_view().take(i as int)),
        decreases conditions.len() - i,
    {
        let ghost items = conditions.deep_view().take(i + 1);
        assert(items.drop_last() =~= conditions.deep_view().take(i as int));
        assert(items.last() == conditions[i as int]@);
        if flags != 0 {
            steps.push(ConditionStep::Check { flags, param: i });
        }
        let v = chars_of(conditions[i].as_str());
        if v.len() > 0 && v[0] == '-' {
            steps.push(ConditionStep::Reset);
            flags = parse_condition_flags(&conditions[i]);
        }
        i = i + 1;
    }
    assert(conditions.deep_view().take(conditions.len() as int) =~= conditions.deep_view());
    steps
}

} // verus!
