//! Character-level string helpers with exact specifications: whitespace
//! trimming, splitting, prefix tests, replacement, decimal numbers and
//! case-insensitive keyword tests.

use vstd::prelude::*;

verus! {

// ---------------------------------------------------------------------
// Building strings
// ---------------------------------------------------------------------

/// Appends one character to a `String` (`String::push`).
#[verifier::external_body]
pub(crate) fn push_char(s: &mut String, c: char)
    ensures
        final(s)@ == old(s)@.push(c),
{
    s.push(c);
}

/// The characters of a string slice, in order.
pub fn chars_of(s: &str) -> (v: Vec<char>)
    ensures
        v@ == s@,
{
    let mut v: Vec<char> = Vec::new();
    for c in it: s.chars()
        invariant
            v@ == it.seq().take(it.index() as int),
    {
        v.push(c);
    }
    v
}

/// Appends the characters `v[from..to]` to `out`.
pub fn push_chars(out: &mut String, v: &Vec<char>, from: usize, to: usize)
    requires
        from <= to <= v.len(),
    ensures
        final(out)@ == old(out)@ + v@.subrange(from as int, to as int),
{
    let mut i = from;
    while i < to
        invariant
            from <= i <= to <= v.len(),
            out@ == old(out)@ + v@.subrange(from as int, i as int),
        decreases to - i,
    {
        push_char(out, v[i]);
        assert(v@.subrange(from as int, i + 1) == v@.subrange(from as int, i as int).push(v@[i as int]));
        i += 1;
    }
}

/// A `String` holding the characters `v[from..to]`.
pub fn string_from(v: &Vec<char>, from: usize, to: usize) -> (s: String)
    requires
        from <= to <= v.len(),
    ensures
        s@ == v@.subrange(from as int, to as int),
{
    let mut s = String::new();
    push_chars(&mut s, v, from, to);
    s
}

/// The vector `v[from..to]`.
pub fn sub_chars(v: &Vec<char>, from: usize, to: usize) -> (r: Vec<char>)
    requires
        from <= to <= v.len(),
    ensures
        r@ == v@.subrange(from as int, to as int),
{
    let mut r: Vec<char> = Vec::new();
    let mut i = from;
    while i < to
        invariant
            from <= i <= to <= v.len(),
            r@ == v@.subrange(from as int, i as int),
        decreases to - i,
    {
        r.push(v[i]);
        assert(v@.subrange(from as int, i + 1) == v@.subrange(from as int, i as int).push(v@[i as int]));
        i += 1;
    }
    r
}

/// `n` spaces.
pub open spec fn spaces(n: nat) -> Seq<char> {
    Seq::new(n, |i: int| ' ')
}

/// Appends `n` spaces to `out`.
pub fn push_spaces(out: &mut String, n: usize)
    ensures
        final(out)@ == old(out)@ + spaces(n as nat),
{
    let mut i: usize = 0;
    while i < n
        invariant
            i <= n,
            out@ == old(out)@ + spaces(i as nat),
        decreases n - i,
    {
        push_char(out, ' ');
        assert(spaces((i + 1) as nat) == spaces(i as nat).push(' '));
        i += 1;
    }
}

/// `n` copies of `c`.
pub open spec fn repeat_char(c: char, n: nat) -> Seq<char> {
    Seq::new(n, |i: int| c)
}

/// A string of `n` copies of `c`.
pub fn repeat_string(c: char, n: usize) -> (s: String)
    ensures
        s@ == repeat_char(c, n as nat),
{
    let mut s = String::new();
    let mut i: usize = 0;
    while i < n
        invariant
            i <= n,
            s@ == repeat_char(c, i as nat),
        decreases n - i,
    {
        push_char(&mut s, c);
        assert(repeat_char(c, (i + 1) as nat) == repeat_char(c, i as nat).push(c));
        i += 1;
    }
    s
}

/// Whether `v` holds exactly the characters of `lit`.
pub fn chars_eq_str(v: &Vec<char>, lit: &str) -> (b: bool)
    ensures
        b == (v@ == lit@),
{
    let w = chars_of(lit);
    chars_eq(v, &w)
}

/// Whether two character vectors are equal.
pub fn chars_eq(v: &Vec<char>, w: &Vec<char>) -> (b: bool)
    ensures
        b == (v@ == w@),
{
    if v.len() != w.len() {
        return false;
    }
    let mut i: usize = 0;
    while i < v.len()
        invariant
            i <= v.len() == w.len(),
            forall|j: int| 0 <= j < i ==> v@[j] == w@[j],
        decreases v.len() - i,
    {
        if v[i] != w[i] {
            return false;
        }
        i += 1;
    }
    assert(v@ =~= w@);
    true
}

// ---------------------------------------------------------------------
// Prefixes and searching
// ---------------------------------------------------------------------

/// `p` is a prefix of `s`.
pub open spec fn has_prefix(s: Seq<char>, p: Seq<char>) -> bool {
    p.len() <= s.len() && s.take(p.len() as int) == p
}

/// Whether `v[at..]` starts with `p`.
pub fn matches_at(v: &Vec<char>, at: usize, p: &Vec<char>) -> (b: bool)
    requires
        at <= v.len(),
    ensures
        b == has_prefix(v@.skip(at as int), p@),
{
    if p.len() > v.len() - at {
        return false;
    }
    let mut j: usize = 0;
    while j < p.len()
        invariant
            at <= v.len(),
            p.len() <= v.len() - at,
            j <= p.len(),
            forall|k: int| 0 <= k < j ==> v@[at + k] == p@[k],
        decreases p.len() - j,
    {
        if v[at + j] != p[j] {
            assert(v@.skip(at as int).take(p.len() as int)[j as int] != p@[j as int]);
            return false;
        }
        j += 1;
    }
    assert(v@.skip(at as int).take(p.len() as int) =~= p@);
    true
}

/// Index of the first `c` in `s` at or after `from`, or the length of `s`.
pub open spec fn find_from(s: Seq<char>, c: char, from: int) -> int
    decreases s.len() - from,
{
    if from < 0 || from >= s.len() {
        s.len() as int
    } else if s[from] == c {
        from
    } else {
        find_from(s, c, from + 1)
    }
}

pub proof fn lemma_find_from(s: Seq<char>, c: char, from: int)
    requires
        0 <= from <= s.len(),
    ensures
        from <= find_from(s, c, from) <= s.len(),
        find_from(s, c, from) < s.len() ==> s[find_from(s, c, from)] == c,
        forall|k: int| from <= k < find_from(s, c, from) ==> s[k] != c,
    decreases s.len() - from,
{
    if from < s.len() && s[from] != c {
        lemma_find_from(s, c, from + 1);
    }
}

/// The position of the first `c` in `v` at or after `from`, or `v.len()`.
pub fn find_char(v: &Vec<char>, c: char, from: usize) -> (r: usize)
    requires
        from <= v.len(),
    ensures
        r == find_from(v@, c, from as int),
{
    let mut i = from;
    while i < v.len()
        invariant
            from <= i <= v.len(),
            find_from(v@, c, i as int) == find_from(v@, c, from as int),
        decreases v.len() - i,
    {
        if v[i] == c {
            return i;
        }
        i += 1;
    }
    i
}

// ---------------------------------------------------------------------
// Whitespace and trimming
// ---------------------------------------------------------------------

/// Characters with the Unicode `White_Space` property (`char::is_whitespace`).
pub open spec fn is_whitespace(c: char) -> bool {
    ||| ('\u{9}' <= c && c <= '\u{d}')
    ||| c == ' '
    ||| c == '\u{85}'
    ||| c == '\u{a0}'
    ||| c == '\u{1680}'
    ||| ('\u{2000}' <= c && c <= '\u{200a}')
    ||| c == '\u{2028}'
    ||| c == '\u{2029}'
    ||| c == '\u{202f}'
    ||| c == '\u{205f}'
    ||| c == '\u{3000}'
}

pub fn char_is_whitespace(c: char) -> (b: bool)
    ensures
        b == is_whitespace(c),
{
    ('\u{9}' <= c && c <= '\u{d}') || c == ' ' || c == '\u{85}' || c == '\u{a0}' || c
        == '\u{1680}' || ('\u{2000}' <= c && c <= '\u{200a}') || c == '\u{2028}' || c
        == '\u{2029}' || c == '\u{202f}' || c == '\u{205f}' || c == '\u{3000}'
}

/// Index of the first non-whitespace character at or after `i`.
pub open spec fn skip_ws(s: Seq<char>, i: int) -> int
    decreases s.len() - i,
{
    if 0 <= i < s.len() && is_whitespace(s[i]) {
        skip_ws(s, i + 1)
    } else {
        i
    }
}

/// One past the last non-whitespace character before `j`, not below `lo`.
pub open spec fn back_ws(s: Seq<char>, j: int, lo: int) -> int
    decreases j - lo,
{
    if lo < j && j <= s.len() && is_whitespace(s[j - 1]) {
        back_ws(s, j - 1, lo)
    } else {
        j
    }
}

/// `s` without leading and trailing whitespace (`str::trim`).
pub open spec fn trim(s: Seq<char>) -> Seq<char> {
    let a = skip_ws(s, 0);
    s.subrange(a, back_ws(s, s.len() as int, a))
}

pub proof fn lemma_skip_ws(s: Seq<char>, i: int)
    requires
        0 <= i <= s.len(),
    ensures
        i <= skip_ws(s, i) <= s.len(),
    decreases s.len() - i,
{
    if i < s.len() && is_whitespace(s[i]) {
        lemma_skip_ws(s, i + 1);
    }
}

pub proof fn lemma_back_ws(s: Seq<char>, j: int, lo: int)
    requires
        0 <= lo <= j <= s.len(),
    ensures
        lo <= back_ws(s, j, lo) <= j,
    decreases j - lo,
{
    if lo < j && is_whitespace(s[j - 1]) {
        lemma_back_ws(s, j - 1, lo);
    }
}

/// The bounds `(a, b)` with `trim(v) == v[a..b]`.
pub fn trim_bounds(v: &Vec<char>) -> (r: (usize, usize))
    ensures
        r.0 <= r.1 <= v.len(),
        r.0 == skip_ws(v@, 0),
        r.1 == back_ws(v@, v@.len() as int, r.0 as int),
        trim(v@) == v@.subrange(r.0 as int, r.1 as int),
{
    let mut a: usize = 0;
    while a < v.len() && char_is_whitespace(v[a])
        invariant
            a <= v.len(),
            skip_ws(v@, a as int) == skip_ws(v@, 0),
        decreases v.len() - a,
    {
        a += 1;
    }
    let mut b: usize = v.len();
    while b > a && char_is_whitespace(v[b - 1])
        invariant
            a <= b <= v.len(),
            back_ws(v@, b as int, a as int) == back_ws(v@, v@.len() as int, a as int),
        decreases b - a,
    {
        b -= 1;
    }
    (a, b)
}

/// The characters of `v` without surrounding whitespace.
pub fn trim_chars(v: &Vec<char>) -> (r: Vec<char>)
    ensures
        r@ == trim(v@),
{
    let (a, b) = trim_bounds(v);
    sub_chars(v, a, b)
}

// ---------------------------------------------------------------------
// Splitting
// ---------------------------------------------------------------------

/// The pieces of `s` between occurrences of `sep` (`str::split` with a
/// character): there is always one more piece than separators.
pub open spec fn split_on(s: Seq<char>, sep: char) -> Seq<Seq<char>>
    decreases s.len(),
{
    if s.len() == 0 {
        seq![Seq::<char>::empty()]
    } else {
        let p = split_on(s.drop_last(), sep);
        if s.last() == sep {
            p.push(Seq::<char>::empty())
        } else {
            p.update(p.len() - 1, p.last().push(s.last()))
        }
    }
}

pub proof fn lemma_split_on_len(s: Seq<char>, sep: char)
    ensures
        split_on(s, sep).len() >= 1,
    decreases s.len(),
{
    if s.len() > 0 {
        lemma_split_on_len(s.drop_last(), sep);
    }
}

/// Splitting text joined at a separator gives the pieces of each side.
pub proof fn lemma_split_join(a: Seq<char>, b: Seq<char>, sep: char)
    ensures
        split_on(a + seq![sep] + b, sep) == split_on(a, sep) + split_on(b, sep),
    decreases b.len(),
{
    let whole = a + seq![sep] + b;
    if b.len() == 0 {
        assert(whole =~= a.push(sep));
        assert(whole.drop_last() =~= a);
        assert(split_on(b, sep) =~= seq![Seq::<char>::empty()]);
        assert(split_on(a, sep).push(Seq::<char>::empty()) =~= split_on(a, sep) + split_on(b, sep));
    } else {
        let init = b.drop_last();
        assert(whole.drop_last() =~= a + seq![sep] + init);
        assert(whole.last() == b.last());
        lemma_split_join(a, init, sep);
        lemma_split_on_len(init, sep);
        let pa = split_on(a, sep);
        let pb = split_on(init, sep);
        if b.last() == sep {
            assert((pa + pb).push(Seq::<char>::empty()) =~= pa + pb.push(Seq::<char>::empty()));
        } else {
            let p = pa + pb;
            assert(p.last() == pb.last());
            assert(p.update(p.len() - 1, p.last().push(b.last())) =~= pa + pb.update(
                pb.len() - 1,
                pb.last().push(b.last()),
            ));
        }
    }
}

/// Text without the separator is a single piece.
pub proof fn lemma_split_single(s: Seq<char>, sep: char)
    requires
        !s.contains(sep),
    ensures
        split_on(s, sep) == seq![s],
    decreases s.len(),
{
    if s.len() == 0 {
        assert(s =~= Seq::<char>::empty());
    } else {
        let init = s.drop_last();
        assert(!init.contains(sep)) by {
            if init.contains(sep) {
                let k = choose|k: int| 0 <= k < init.len() && init[k] == sep;
                assert(s[k] == init[k]);
            }
        }
        lemma_split_single(init, sep);
        assert(s.last() != sep) by {
            if s.last() == sep {
                assert(s[s.len() - 1] == sep);
                assert(s.contains(sep));
            }
        }
        assert(init.push(s.last()) =~= s);
        assert(seq![init].update(0, init.push(s.last())) =~= seq![s]);
    }
}

/// The pieces of `v` between occurrences of `sep`.
pub fn split_chars(v: &Vec<char>, sep: char) -> (r: Vec<Vec<char>>)
    ensures
        r.deep_view() == split_on(v@, sep),
{
    let mut pieces: Vec<Vec<char>> = Vec::new();
    let mut cur: Vec<char> = Vec::new();
    let mut i: usize = 0;
    while i < v.len()
        invariant
            i <= v.len(),
            pieces.deep_view().push(cur@) == split_on(v@.take(i as int), sep),
        decreases v.len() - i,
    {
        let ghost before = pieces.deep_view().push(cur@);
        let c = v[i];
        assert(v@.take(i + 1).drop_last() =~= v@.take(i as int));
        if c == sep {
            let ghost old_pieces = pieces@;
            let ghost cur_view = cur@;
            let done = cur;
            pieces.push(done);
            cur = Vec::new();
            assert(pieces@ == old_pieces.push(done));
            assert forall|k: int| 0 <= k < pieces@.len() implies #[trigger] pieces.deep_view()[k]
                == before[k] by {
                if k < old_pieces.len() {
                    assert(pieces@[k] == old_pieces[k]);
                }
            }
            assert(pieces.deep_view() =~= before);
            assert(pieces.deep_view().push(cur@) =~= before.push(Seq::<char>::empty()));
        } else {
            cur.push(c);
            assert(pieces.deep_view().push(cur@) =~= before.update(
                before.len() - 1,
                before.last().push(c),
            ));
        }
        i += 1;
    }
    assert(v@.take(v.len() as int) =~= v@);
    let ghost old_pieces = pieces@;
    let ghost final_view = pieces.deep_view().push(cur@);
    pieces.push(cur);
    assert forall|k: int| 0 <= k < pieces@.len() implies #[trigger] pieces.deep_view()[k]
        == final_view[k] by {
        if k < old_pieces.len() {
            assert(pieces@[k] == old_pieces[k]);
        }
    }
    assert(pieces.deep_view() =~= final_view);
    pieces
}

// ---------------------------------------------------------------------
// Replacing
// ---------------------------------------------------------------------

/// `s` with every non-overlapping occurrence of `pat`, leftmost first,
/// replaced by `rep` (`str::replace` with a non-empty pattern).
pub open spec fn replace_all(s: Seq<char>, pat: Seq<char>, rep: Seq<char>) -> Seq<char>
    decreases s.len(),
{
    if pat.len() == 0 || s.len() < pat.len() {
        s
    } else if s.take(pat.len() as int) == pat {
        rep + replace_all(s.skip(pat.len() as int), pat, rep)
    } else {
        seq![s[0]] + replace_all(s.drop_first(), pat, rep)
    }
}

/// `s.replace(pat, rep)` for a non-empty `pat`.
pub fn replace_str(s: &str, pat: &str, rep: &str) -> (r: String)
    requires
        pat@.len() > 0,
    ensures
        r@ == replace_all(s@, pat@, rep@),
{
    let v = chars_of(s);
    let p = chars_of(pat);
    let mut out = String::new();
    let mut i: usize = 0;
    assert(v@.skip(0) =~= v@);
    assert(out@ + replace_all(v@, p@, rep@) =~= replace_all(v@, p@, rep@));
    while i < v.len()
        invariant
            i <= v.len(),
            p@.len() > 0,
            p@ == pat@,
            v@ == s@,
            out@ + replace_all(v@.skip(i as int), p@, rep@) == replace_all(v@, p@, rep@),
        decreases v.len() - i,
    {
        let ghost rest = v@.skip(i as int);
        if matches_at(&v, i, &p) {
            out.append(rep);
            assert(rest.skip(p@.len() as int) =~= v@.skip(i + p.len()));
            assert(out@ + replace_all(v@.skip(i + p.len()), p@, rep@) =~= replace_all(v@, p@, rep@));
            i += p.len();
        } else {
            push_char(&mut out, v[i]);
            assert(rest.drop_first() =~= v@.skip(i + 1));
            proof {
                if rest.len() >= p@.len() {
                    assert(replace_all(rest, p@, rep@) == seq![rest[0]] + replace_all(
                        rest.drop_first(),
                        p@,
                        rep@,
                    ));
                } else {
                    assert(replace_all(rest, p@, rep@) == rest);
                    assert(replace_all(rest.drop_first(), p@, rep@) == rest.drop_first());
                    assert(rest =~= seq![rest[0]] + rest.drop_first());
                }
            }
            assert(out@ + replace_all(v@.skip(i + 1), p@, rep@) =~= replace_all(v@, p@, rep@));
            i += 1;
        }
    }
    assert(replace_all(v@.skip(v.len() as int), p@, rep@) =~= Seq::<char>::empty());
    assert(out@ + Seq::<char>::empty() =~= out@);
    out
}

// ---------------------------------------------------------------------
// Character classes
// ---------------------------------------------------------------------

/// Control characters, general category `Cc` (`char::is_control`).
pub open spec fn is_control(c: char) -> bool {
    c <= '\u{1f}' || ('\u{7f}' <= c && c <= '\u{9f}')
}

/// Characters that a lower-cased string shows as an ASCII letter: `A`..`Z`
/// become `a`..`z`, and KELVIN SIGN becomes `k`; any other character is
/// kept, which for comparisons with ASCII keywords is what full Unicode
/// lower-casing (`str::to_lowercase`) gives.
pub open spec fn ascii_fold(c: char) -> char {
    if 'A' <= c && c <= 'Z' {
        ((c as int) + 32) as char
    } else if c == '\u{212a}' {
        'k'
    } else {
        c
    }
}

/// `s` with [`ascii_fold`] applied to each character.
pub open spec fn fold_case(s: Seq<char>) -> Seq<char> {
    Seq::new(s.len(), |i: int| ascii_fold(s[i]))
}

/// `v` with [`ascii_fold`] applied to each character.
pub fn fold_case_chars(v: &Vec<char>) -> (r: Vec<char>)
    ensures
        r@ == fold_case(v@),
{
    let mut r: Vec<char> = Vec::new();
    let mut i: usize = 0;
    while i < v.len()
        invariant
            i <= v.len(),
            r@ == fold_case(v@.take(i as int)),
        decreases v.len() - i,
    {
        let c = v[i];
        let f = if 'A' <= c && c <= 'Z' {
            ((c as u32) + 32) as u8 as char
        } else if c == '\u{212a}' {
            'k'
        } else {
            c
        };
        assert(f == ascii_fold(c));
        r.push(f);
        assert(r@ =~= fold_case(v@.take(i + 1)));
        i += 1;
    }
    assert(v@.take(v.len() as int) =~= v@);
    r
}

/// `s` with every control character replaced by `?`.
pub open spec fn sanitized(s: Seq<char>) -> Seq<char> {
    Seq::new(s.len(), |i: int| if is_control(s[i]) { '?' } else { s[i] })
}

/// Makes text safe to print: control characters, which could move the
/// cursor or start an escape sequence, become `?`; nothing else changes.
pub fn sanitize_terminal_text(s: &str) -> (r: String)
    ensures
        r@ == sanitized(s@),
        r@.len() == s@.len(),
        forall|i: int| 0 <= i < r@.len() ==> !is_control(#[trigger] r@[i]),
{
    let v = chars_of(s);
    let mut out = String::new();
    let mut i: usize = 0;
    while i < v.len()
        invariant
            i <= v.len(),
            v@ == s@,
            out@ == sanitized(v@.take(i as int)),
        decreases v.len() - i,
    {
        let c = v[i];
        let d = if c <= '\u{1f}' || ('\u{7f}' <= c && c <= '\u{9f}') {
            '?'
        } else {
            c
        };
        push_char(&mut out, d);
        assert(out@ =~= sanitized(v@.take(i + 1)));
        i += 1;
    }
    assert(v@.take(v.len() as int) =~= v@);
    out
}

} // verus!
