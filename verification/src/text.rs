//! Character-level text handling: whitespace trimming, splitting on a
//! separator, line splitting and decimal parsing, each proved against a
//! specification over `Seq<char>`.

use vstd::prelude::*;

verus! {

// ---------------------------------------------------------------------------
// Specifications
// ---------------------------------------------------------------------------

/// The characters with the Unicode `White_Space` property, which is what
/// `char::is_whitespace` and `str::trim` go by.
pub open spec fn is_white(c: char) -> bool {
    let u = c as u32;
    ||| (9 <= u && u <= 13)
    ||| u == 32
    ||| u == 0x85
    ||| u == 0xA0
    ||| u == 0x1680
    ||| (0x2000 <= u && u <= 0x200A)
    ||| u == 0x2028
    ||| u == 0x2029
    ||| u == 0x202F
    ||| u == 0x205F
    ||| u == 0x3000
}

/// How many whitespace characters `s` starts with.
pub open spec fn leading_white(s: Seq<char>) -> nat
    decreases s.len(),
{
    if s.len() > 0 && is_white(s[0]) {
        1 + leading_white(s.drop_first())
    } else {
        0
    }
}

/// How many whitespace characters `s` ends with.
pub open spec fn trailing_white(s: Seq<char>) -> nat
    decreases s.len(),
{
    if s.len() > 0 && is_white(s.last()) {
        1 + trailing_white(s.drop_last())
    } else {
        0
    }
}

/// `s` without its leading and trailing whitespace.
pub open spec fn trimmed(s: Seq<char>) -> Seq<char> {
    let t = s.skip(leading_white(s) as int);
    t.take(t.len() - trailing_white(t))
}

/// The pieces of `s` between occurrences of `sep`, as `str::split` with a
/// `char` pattern gives them: always at least one piece.
pub open spec fn split_on(s: Seq<char>, sep: char) -> Seq<Seq<char>>
    decreases s.len(),
{
    if s.len() == 0 {
        seq![Seq::empty()]
    } else {
        let p = split_on(s.drop_last(), sep);
        if s.last() == sep {
            p.push(Seq::empty())
        } else {
            p.update(p.len() - 1, p.last().push(s.last()))
        }
    }
}

/// `l` without one trailing carriage return.
pub open spec fn strip_cr(l: Seq<char>) -> Seq<char> {
    if l.len() > 0 && l.last() == '\r' {
        l.drop_last()
    } else {
        l
    }
}

/// The lines of `s` as `str::lines` gives them: split at `\n`, a `\r` just
/// before a `\n` dropped, and no empty last line after a final `\n`.
pub open spec fn lines_of(s: Seq<char>) -> Seq<Seq<char>> {
    if s.len() == 0 {
        seq![]
    } else {
        let p = split_on(s, '\n');
        let q = if s.last() == '\n' {
            p.drop_last()
        } else {
            p
        };
        Seq::new(q.len(), |i: int| if i + 1 < p.len() { strip_cr(q[i]) } else { q[i] })
    }
}

/// The pieces joined back together.
pub open spec fn concat_all(ps: Seq<Seq<char>>) -> Seq<char>
    decreases ps.len(),
{
    if ps.len() == 0 {
        Seq::empty()
    } else {
        concat_all(ps.drop_last()) + ps.last()
    }
}

/// `s` with every `c` removed.
pub open spec fn without_char(s: Seq<char>, c: char) -> Seq<char> {
    s.filter(|x: char| x != c)
}

/// Index of the first `c` in `s`, or `s.len()` where there is none.
pub open spec fn first_pos(s: Seq<char>, c: char) -> nat
    decreases s.len(),
{
    if s.len() == 0 {
        0
    } else if s[0] == c {
        0
    } else {
        1 + first_pos(s.drop_first(), c)
    }
}

/// `Some` index of the first `c` in `s`, as `str::find` with a `char` gives it
/// (counted in characters).
pub open spec fn find_char(s: Seq<char>, c: char) -> Option<int> {
    if first_pos(s, c) < s.len() {
        Some(first_pos(s, c) as int)
    } else {
        None
    }
}

pub open spec fn is_digit(c: char) -> bool {
    48 <= (c as u32) && (c as u32) <= 57
}

/// The number that a sequence of decimal digits writes.
pub open spec fn digits_value(s: Seq<char>) -> nat
    decreases s.len(),
{
    if s.len() == 0 {
        0
    } else {
        digits_value(s.drop_last()) * 10 + ((s.last() as u32) - 48) as nat
    }
}

/// `s` without one leading `+`.
pub open spec fn unsigned_part(s: Seq<char>) -> Seq<char> {
    if s.len() > 0 && s[0] == '+' {
        s.drop_first()
    } else {
        s
    }
}

pub open spec fn all_digits(d: Seq<char>) -> bool {
    forall|i: int| 0 <= i < d.len() ==> is_digit(#[trigger] d[i])
}

/// What `str::parse::<usize>` accepts: an optional `+`, then one or more
/// decimal digits whose value fits in a `usize`.
pub open spec fn parse_usize_spec(s: Seq<char>) -> Option<usize> {
    let d = unsigned_part(s);
    if d.len() > 0 && all_digits(d) && digits_value(d) <= usize::MAX {
        Some(digits_value(d) as usize)
    } else {
        None
    }
}

// ---------------------------------------------------------------------------
// Lemmas
// ---------------------------------------------------------------------------

proof fn lemma_leading_white(s: Seq<char>)
    ensures
        leading_white(s) <= s.len(),
        forall|k: int| 0 <= k < leading_white(s) ==> is_white(#[trigger] s[k]),
        leading_white(s) < s.len() ==> !is_white(s[leading_white(s) as int]),
    decreases s.len(),
{
    if s.len() > 0 && is_white(s[0]) {
        lemma_leading_white(s.drop_first());
        assert forall|k: int| 0 <= k < leading_white(s) implies is_white(#[trigger] s[k]) by {
            if k > 0 {
                assert(s[k] == s.drop_first()[k - 1]);
            }
        }
    }
}

pub proof fn lemma_leading_white_unique(s: Seq<char>, a: int)
    requires
        0 <= a <= s.len(),
        forall|k: int| 0 <= k < a ==> is_white(#[trigger] s[k]),
        a < s.len() ==> !is_white(s[a]),
    ensures
        leading_white(s) == a,
{
    lemma_leading_white(s);
    let lw = leading_white(s) as int;
    if lw < a {
        assert(is_white(s[lw]));
    } else if a < lw {
        assert(is_white(s[a]));
    }
}

proof fn lemma_trailing_white(s: Seq<char>)
    ensures
        trailing_white(s) <= s.len(),
        forall|k: int|
            s.len() - trailing_white(s) <= k < s.len() ==> is_white(#[trigger] s[k]),
        trailing_white(s) < s.len() ==> !is_white(s[s.len() - 1 - trailing_white(s)]),
    decreases s.len(),
{
    if s.len() > 0 && is_white(s.last()) {
        lemma_trailing_white(s.drop_last());
        assert forall|k: int|
            s.len() - trailing_white(s) <= k < s.len() implies is_white(#[trigger] s[k]) by {
            if k < s.len() - 1 {
                assert(s[k] == s.drop_last()[k]);
            }
        }
        if trailing_white(s) < s.len() {
            assert(s[s.len() - 1 - trailing_white(s)] == s.drop_last()[s.drop_last().len() - 1
                - trailing_white(s.drop_last())]);
        }
    }
}

pub proof fn lemma_trailing_white_unique(s: Seq<char>, m: int)
    requires
        0 <= m <= s.len(),
        forall|k: int| s.len() - m <= k < s.len() ==> is_white(#[trigger] s[k]),
        m < s.len() ==> !is_white(s[s.len() - 1 - m]),
    ensures
        trailing_white(s) == m,
{
    lemma_trailing_white(s);
    let tw = trailing_white(s) as int;
    if tw < m {
        assert(is_white(s[s.len() - 1 - tw]));
    } else if m < tw {
        assert(is_white(s[s.len() - 1 - m]));
    }
}

pub proof fn lemma_split_on_nonempty(s: Seq<char>, sep: char)
    ensures
        split_on(s, sep).len() >= 1,
    decreases s.len(),
{
    if s.len() > 0 {
        lemma_split_on_nonempty(s.drop_last(), sep);
    }
}

/// A text without the separator is one piece.
pub proof fn lemma_split_no_sep(x: Seq<char>, sep: char)
    requires
        !x.contains(sep),
    ensures
        split_on(x, sep) == seq![x],
    decreases x.len(),
{
    if x.len() > 0 {
        assert(!x.drop_last().contains(sep)) by {
            if x.drop_last().contains(sep) {
                let k = choose|k: int| 0 <= k < x.drop_last().len() && x.drop_last()[k] == sep;
                assert(x[k] == sep);
            }
        }
        lemma_split_no_sep(x.drop_last(), sep);
        assert(x[x.len() - 1] != sep);
        assert(x.drop_last().push(x.last()) =~= x);
        assert(seq![x.drop_last()].update(0, x.drop_last().push(x.last())) =~= seq![x]);
    } else {
        assert(x =~= Seq::<char>::empty());
    }
}

/// Splitting `x`, a separator, then `y` gives the pieces of `x` followed by
/// those of `y`.
pub proof fn lemma_split_concat(x: Seq<char>, y: Seq<char>, sep: char)
    ensures
        split_on(x + seq![sep] + y, sep) == split_on(x, sep) + split_on(y, sep),
    decreases y.len(),
{
    let s = x + seq![sep] + y;
    lemma_split_on_nonempty(x, sep);
    if y.len() == 0 {
        assert(s =~= x.push(sep));
        assert(s.drop_last() =~= x);
        assert(split_on(y, sep) =~= seq![Seq::<char>::empty()]);
        assert(split_on(x, sep).push(Seq::empty()) =~= split_on(x, sep) + seq![
            Seq::<char>::empty(),
        ]);
    } else {
        assert(s.drop_last() =~= x + seq![sep] + y.drop_last());
        assert(s.last() == y.last());
        lemma_split_concat(x, y.drop_last(), sep);
        lemma_split_on_nonempty(y.drop_last(), sep);
        let a = split_on(x, sep);
        let b = split_on(y.drop_last(), sep);
        if y.last() == sep {
            assert((a + b).push(Seq::empty()) =~= a + b.push(Seq::empty()));
        } else {
            assert((a + b).update((a + b).len() - 1, (a + b).last().push(y.last())) =~= a
                + b.update(b.len() - 1, b.last().push(y.last())));
        }
    }
}

proof fn lemma_first_pos(s: Seq<char>, c: char)
    ensures
        first_pos(s, c) <= s.len(),
        forall|k: int| 0 <= k < first_pos(s, c) ==> #[trigger] s[k] != c,
        first_pos(s, c) < s.len() ==> s[first_pos(s, c) as int] == c,
    decreases s.len(),
{
    if s.len() > 0 && s[0] != c {
        lemma_first_pos(s.drop_first(), c);
        assert forall|k: int| 0 <= k < first_pos(s, c) implies #[trigger] s[k] != c by {
            if k > 0 {
                assert(s[k] == s.drop_first()[k - 1]);
            }
        }
    }
}

pub proof fn lemma_first_pos_unique(s: Seq<char>, c: char, a: int)
    requires
        0 <= a <= s.len(),
        forall|k: int| 0 <= k < a ==> #[trigger] s[k] != c,
        a < s.len() ==> s[a] == c,
    ensures
        first_pos(s, c) == a,
{
    lemma_first_pos(s, c);
    let f = first_pos(s, c) as int;
    if f < a {
        assert(s[f] != c);
    } else if a < f {
        assert(s[a] != c);
    }
}

/// `find_char` is `None` exactly when `c` does not occur.
pub proof fn lemma_find_char(s: Seq<char>, c: char)
    ensures
        find_char(s, c) is None <==> !s.contains(c),
        find_char(s, c) matches Some(k) ==> 0 <= k < s.len() && s[k] == c && (forall|j: int|
            0 <= j < k ==> #[trigger] s[j] != c),
{
    lemma_first_pos(s, c);
    if s.contains(c) {
        let j = choose|j: int| 0 <= j < s.len() && s[j] == c;
        assert(first_pos(s, c) <= j);
    }
}

proof fn lemma_concat_split(s: Seq<char>, c: char)
    ensures
        concat_all(split_on(s, c)) == without_char(s, c),
    decreases s.len(),
{
    reveal(Seq::filter);
    let f = |x: char| x != c;
    if s.len() == 0 {
        assert(split_on(s, c).drop_last() =~= Seq::<Seq<char>>::empty());
        assert(concat_all(Seq::<Seq<char>>::empty()) == Seq::<char>::empty());
        assert(split_on(s, c).last() =~= Seq::<char>::empty());
        assert(concat_all(split_on(s, c)) =~= Seq::<char>::empty());
        assert(s.filter(f) =~= Seq::<char>::empty());
    } else {
        assert(s.filter(f) == if f(s.last()) {
            s.drop_last().filter(f).push(s.last())
        } else {
            s.drop_last().filter(f)
        });
        let p = split_on(s.drop_last(), c);
        lemma_concat_split(s.drop_last(), c);
        lemma_split_on_nonempty(s.drop_last(), c);
        if s.last() == c {
            assert(p.push(Seq::empty()).drop_last() =~= p);
            assert(concat_all(p) + Seq::<char>::empty() =~= concat_all(p));
        } else {
            let q = p.update(p.len() - 1, p.last().push(s.last()));
            assert(q.drop_last() =~= p.drop_last());
            assert(p.drop_last().push(p.last()) =~= p);
            assert(concat_all(p) =~= concat_all(p.drop_last()) + p.last());
            assert(concat_all(q) =~= concat_all(p).push(s.last()));
        }
    }
}

proof fn lemma_digits_value_prefix(s: Seq<char>, i: int)
    requires
        0 <= i <= s.len(),
    ensures
        digits_value(s.take(i)) <= digits_value(s),
    decreases s.len() - i,
{
    if i < s.len() {
        lemma_digits_value_prefix(s, i + 1);
        assert(s.take(i + 1).drop_last() =~= s.take(i));
    } else {
        assert(s.take(i) =~= s);
    }
}

/// A trimmed text is a piece of the text, neither starts nor ends with
/// whitespace, and trimming it again changes nothing.
pub proof fn law_trimmed(s: Seq<char>)
    ensures
        ({
            let r = trimmed(s);
            &&& r.len() <= s.len()
            &&& leading_white(s) + r.len() <= s.len()
            &&& r == s.subrange(leading_white(s) as int, leading_white(s) + r.len() as int)
            &&& r.len() > 0 ==> !is_white(r[0]) && !is_white(r.last())
            &&& trimmed(r) == r
        }),
{
    lemma_leading_white(s);
    let lw = leading_white(s) as int;
    let t = s.skip(lw);
    lemma_trailing_white(t);
    let tw = trailing_white(t) as int;
    let r = trimmed(s);
    assert(r =~= s.subrange(lw, lw + r.len()));
    if r.len() > 0 {
        assert(r[0] == s[lw]);
        assert(r.last() == t[t.len() - 1 - tw]);
    }
    lemma_leading_white_unique(r, 0);
    lemma_trailing_white_unique(r.skip(0), 0);
    assert(r.skip(0) =~= r);
    assert(r.take(r.len() as int) =~= r);
}

/// The lines of a text are its first line, without a `\r` just before the
/// `\n` that ends it, followed by the lines of the rest; a last line without
/// `\n` is kept as it is, and an empty text has no lines.
pub proof fn law_lines(x: Seq<char>, y: Seq<char>)
    requires
        !x.contains('\n'),
    ensures
        lines_of(x + seq!['\n'] + y) == seq![strip_cr(x)] + lines_of(y),
        x.len() > 0 ==> lines_of(x) == seq![x],
        lines_of(Seq::<char>::empty()) == Seq::<Seq<char>>::empty(),
{
    let s = x + seq!['\n'] + y;
    lemma_split_concat(x, y, '\n');
    lemma_split_no_sep(x, '\n');
    lemma_split_on_nonempty(y, '\n');
    let p = split_on(s, '\n');
    let py = split_on(y, '\n');
    assert(p == seq![x] + py);
    assert(s.len() > 0);
    if y.len() == 0 {
        assert(s.last() == '\n');
        assert(py =~= seq![Seq::<char>::empty()]);
        assert(lines_of(y) =~= Seq::<Seq<char>>::empty());
        assert(lines_of(s) =~= seq![strip_cr(x)]);
    } else {
        assert(s.last() == y.last());
        let q = if s.last() == '\n' {
            p.drop_last()
        } else {
            p
        };
        let qy = if y.last() == '\n' {
            py.drop_last()
        } else {
            py
        };
        assert(q =~= seq![x] + qy);
        assert(lines_of(s) =~= seq![strip_cr(x)] + lines_of(y));
    }
    if x.len() > 0 {
        assert(x.last() != '\n') by {
            assert(x[x.len() - 1] == x.last());
        }
        assert(lines_of(x) =~= seq![x]);
    }
}

/// Removing a character leaves none of it.
pub proof fn law_without_char(s: Seq<char>, c: char)
    ensures
        !without_char(s, c).contains(c),
{
    broadcast use vstd::seq_lib::group_filter_ensures;

    if without_char(s, c).contains(c) {
        let k = choose|k: int| 0 <= k < without_char(s, c).len() && without_char(s, c)[k] == c;
        assert(without_char(s, c)[k] != c);
    }
}

// ---------------------------------------------------------------------------
// Executable functions
// ---------------------------------------------------------------------------

/// The characters of `s`.
pub fn chars_of(s: &str) -> (v: Vec<char>)
    ensures
        v@ == s@,
{
    let mut v: Vec<char> = Vec::new();
    for c in it: s.chars()
        invariant
            v@ == it.seq().take(it.index() as int),
            it.seq() == s@,
    {
        v.push(c);
    }
    v
}

/// `char::is_whitespace`.
pub fn is_white_char(c: char) -> (b: bool)
    ensures
        b == is_white(c),
{
    let u = c as u32;
    (9 <= u && u <= 13) || u == 32 || u == 0x85 || u == 0xA0 || u == 0x1680 || (0x2000 <= u && u
        <= 0x200A) || u == 0x2028 || u == 0x2029 || u == 0x202F || u == 0x205F || u == 0x3000
}

/// `s` with leading and trailing whitespace removed, as `str::trim` does.
pub fn trim(s: &str) -> (r: String)
    ensures
        r@ == trimmed(s@),
{
    let v = chars_of(s);
    let n = v.len();
    let mut a: usize = 0;
    while a < n && is_white_char(v[a])
        invariant
            a <= n,
            n == v@.len(),
            forall|k: int| 0 <= k < a ==> is_white(#[trigger] v@[k]),
        decreases n - a,
    {
        a = a + 1;
    }
    proof {
        lemma_leading_white_unique(s@, a as int);
    }
    let mut b: usize = n;
    while b > a && is_white_char(v[b - 1])
        invariant
            a <= b <= n,
            n == v@.len(),
            forall|k: int| b <= k < n ==> is_white(#[trigger] v@[k]),
        decreases b,
    {
        b = b - 1;
    }
    proof {
        let t = s@.skip(a as int);
        assert forall|k: int| t.len() - (n - b) <= k < t.len() implies is_white(#[trigger] t[k]) by {
            assert(t[k] == v@[a + k]);
        }
        if n - b < t.len() {
            assert(t[t.len() - 1 - (n - b)] == v@[b - 1]);
        }
        lemma_trailing_white_unique(t, (n - b) as int);
        assert(t.take(t.len() - (n - b)) =~= s@.subrange(a as int, b as int));
    }
    let piece = s.substring_char(a, b);
    String::from_str(piece)
}

/// The pieces of `s` between occurrences of `sep`, as `str::split` gives them.
pub fn split_char(s: &str, sep: char) -> (r: Vec<String>)
    ensures
        r.deep_view() == split_on(s@, sep),
{
    let v = chars_of(s);
    let n = v.len();
    let mut out: Vec<String> = Vec::new();
    let mut start: usize = 0;
    let mut i: usize = 0;
    assert(s@.take(0) =~= Seq::<char>::empty());
    assert(out.deep_view().push(s@.subrange(0, 0)) =~= split_on(s@.take(0), sep));
    while i < n
        invariant
            start <= i <= n,
            n == v@.len(),
            v@ == s@,
            out.deep_view().push(s@.subrange(start as int, i as int)) == split_on(
                s@.take(i as int),
                sep,
            ),
        decreases n - i,
    {
        let ghost prev = out.deep_view();
        proof {
            lemma_split_on_nonempty(s@.take(i as int), sep);
        }
        assert(s@.take(i + 1).drop_last() =~= s@.take(i as int));
        if v[i] == sep {
            let piece = String::from_str(s.substring_char(start, i));
            out.push(piece);
            assert(out.deep_view() =~= prev.push(s@.subrange(start as int, i as int)));
            start = i + 1;
            assert(split_on(s@.take(i + 1), sep) == split_on(s@.take(i as int), sep).push(
                Seq::empty(),
            ));
            assert(s@.subrange(start as int, i + 1) =~= Seq::<char>::empty());
            assert(out.deep_view().push(s@.subrange(start as int, i + 1)) =~= split_on(
                s@.take(i + 1),
                sep,
            ));
        } else {
            assert(s@.subrange(start as int, i as int).push(v@[i as int]) =~= s@.subrange(
                start as int,
                i + 1,
            ));
            assert(out.deep_view().push(s@.subrange(start as int, i + 1)) =~= split_on(
                s@.take(i as int),
                sep,
            ).update(
                split_on(s@.take(i as int), sep).len() - 1,
                split_on(s@.take(i as int), sep).last().push(v@[i as int]),
            ));
        }
        i = i + 1;
    }
    let ghost prev = out.deep_view();
    let last = String::from_str(s.substring_char(start, n));
    out.push(last);
    assert(out.deep_view() =~= prev.push(s@.subrange(start as int, n as int)));
    assert(s@.take(n as int) =~= s@);
    out
}

fn strip_cr_string(l: &String) -> (r: String)
    ensures
        r@ == strip_cr(l@),
{
    let v = chars_of(l.as_str());
    let n = v.len();
    if n > 0 && v[n - 1] == '\r' {
        assert(l@.subrange(0, n - 1) =~= l@.drop_last());
        String::from_str(l.as_str().substring_char(0, n - 1))
    } else {
        l.clone()
    }
}

/// The lines of `s`, as `str::lines` gives them.
pub fn lines(s: &str) -> (r: Vec<String>)
    ensures
        r.deep_view() == lines_of(s@),
{
    let v = chars_of(s);
    let n = v.len();
    let mut out: Vec<String> = Vec::new();
    if n == 0 {
        assert(out.deep_view() =~= lines_of(s@));
        return out;
    }
    let pieces = split_char(s, '\n');
    proof {
        lemma_split_on_nonempty(s@, '\n');
    }
    let count = if v[n - 1] == '\n' {
        pieces.len() - 1
    } else {
        pieces.len()
    };
    let mut i: usize = 0;
    while i < count
        invariant
            i <= count,
            count <= pieces.len(),
            n == s@.len(),
            n > 0,
            pieces.deep_view() == split_on(s@, '\n'),
            count == lines_of(s@).len(),
            out.deep_view() == lines_of(s@).take(i as int),
        decreases count - i,
    {
        let ghost prev = out.deep_view();
        let line = if i + 1 < pieces.len() {
            strip_cr_string(&pieces[i])
        } else {
            pieces[i].clone()
        };
        out.push(line);
        assert(out.deep_view() =~= prev.push(line@));
        assert(lines_of(s@).take(i + 1) =~= lines_of(s@).take(i as int).push(lines_of(s@)[i as int]));
        i = i + 1;
    }
    assert(lines_of(s@).take(count as int) =~= lines_of(s@));
    out
}

/// `s` with every `c` removed, as `str::replace(c, "")` gives it.
pub fn remove_char(s: &str, c: char) -> (r: String)
    ensures
        r@ == without_char(s@, c),
{
    let pieces = split_char(s, c);
    let mut out = String::new();
    let mut i: usize = 0;
    assert(pieces.deep_view().take(0) =~= Seq::<Seq<char>>::empty());
    while i < pieces.len()
        invariant
            i <= pieces.len(),
            out@ == concat_all(pieces.deep_view().take(i as int)),
        decreases pieces.len() - i,
    {
        out.append(pieces[i].as_str());
        assert(pieces.deep_view().take(i + 1).drop_last() =~= pieces.deep_view().take(i as int));
        i = i + 1;
    }
    proof {
        assert(pieces.deep_view().take(pieces.len() as int) =~= pieces.deep_view());
        lemma_concat_split(s@, c);
    }
    out
}

/// Position of the first `c` in `v`, as `str::find` gives it (in characters).
pub fn find_first(v: &Vec<char>, c: char) -> (r: Option<usize>)
    ensures
        match r {
            Some(k) => find_char(v@, c) == Some(k as int),
            None => find_char(v@, c) is None,
        },
{
    let mut i: usize = 0;
    while i < v.len()
        invariant
            i <= v@.len(),
            forall|k: int| 0 <= k < i ==> #[trigger] v@[k] != c,
        decreases v.len() - i,
    {
        if v[i] == c {
            proof {
                lemma_first_pos_unique(v@, c, i as int);
            }
            return Some(i);
        }
        i = i + 1;
    }
    proof {
        lemma_first_pos_unique(v@, c, i as int);
    }
    None
}

/// Whether `v` holds exactly the characters of `lit`.
pub fn equals_str(v: &Vec<char>, lit: &str) -> (r: bool)
    ensures
        r == (v@ == lit@),
{
    let w = chars_of(lit);
    if v.len() != w.len() {
        return false;
    }
    let mut i: usize = 0;
    while i < v.len()
        invariant
            i <= v@.len(),
            v@.len() == w@.len(),
            w@ == lit@,
            forall|k: int| 0 <= k < i ==> v@[k] == w@[k],
        decreases v.len() - i,
    {
        if v[i] != w[i] {
            return false;
        }
        i = i + 1;
    }
    assert(v@ =~= w@);
    true
}

/// Whether `v` starts with the characters of `lit`.
pub fn starts_with_str(v: &Vec<char>, lit: &str) -> (r: bool)
    ensures
        r == lit@.is_prefix_of(v@),
{
    let w = chars_of(lit);
    if w.len() > v.len() {
        return false;
    }
    let mut i: usize = 0;
    while i < w.len()
        invariant
            i <= w@.len(),
            w@.len() <= v@.len(),
            w@ == lit@,
            forall|k: int| 0 <= k < i ==> v@[k] == w@[k],
        decreases w.len() - i,
    {
        if v[i] != w[i] {
            assert(v@.subrange(0, w@.len() as int)[i as int] != w@[i as int]);
            return false;
        }
        i = i + 1;
    }
    assert(w@ =~= v@.subrange(0, w@.len() as int));
    true
}

/// The `usize` that `v[start..end]` writes in decimal, as `str::parse::<usize>`
/// reads it.
pub fn parse_usize(v: &Vec<char>, start: usize, end: usize) -> (r: Option<usize>)
    requires
        start <= end <= v@.len(),
    ensures
        r == parse_usize_spec(v@.subrange(start as int, end as int)),
{
    let ghost s = v@.subrange(start as int, end as int);
    let mut i: usize = start;
    if i < end && v[i] == '+' {
        i = i + 1;
    }
    let ghost i0 = i as int;
    let ghost d = v@.subrange(i0, end as int);
    assert(d =~= unsigned_part(s));
    if i == end {
        return None;
    }
    let mut acc: usize = 0;
    assert(v@.subrange(i0, i0) =~= Seq::<char>::empty());
    while i < end
        invariant
            0 <= i0 <= i <= end,
            end <= v@.len(),
            d == v@.subrange(i0, end as int),
            s == v@.subrange(start as int, end as int),
            d == unsigned_part(s),
            forall|k: int| i0 <= k < i ==> is_digit(#[trigger] v@[k]),
            acc == digits_value(v@.subrange(i0, i as int)),
        decreases end - i,
    {
        let u = v[i] as u32;
        if u < 48 || u > 57 {
            assert(0 <= i - i0 < d.len());
            assert(d[i - i0] == v@[i as int]);
            assert(!is_digit(d[i - i0]));
            assert(!all_digits(d));
            return None;
        }
        let digit = (u - 48) as usize;
        assert(v@.subrange(i0, i + 1).drop_last() =~= v@.subrange(i0, i as int));
        assert(v@.subrange(i0, i + 1) =~= d.take(i + 1 - i0));
        proof {
            lemma_digits_value_prefix(d, i + 1 - i0);
        }
        match acc.checked_mul(10) {
            None => {
                return None;
            },
            Some(m) => match m.checked_add(digit) {
                None => {
                    return None;
                },
                Some(next) => {
                    acc = next;
                },
            },
        }
        i = i + 1;
    }
    assert(v@.subrange(i0, end as int) =~= d);
    assert forall|k: int| 0 <= k < d.len() implies is_digit(#[trigger] d[k]) by {
        assert(d[k] == v@[i0 + k]);
    }
    Some(acc)
}

} // verus!
