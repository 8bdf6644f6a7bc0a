//! Text primitives. A text is modelled by its sequence of characters.

use vstd::prelude::*;
use vstd::string::*;

verus! {

/// `String::push` of the standard library appends exactly the given character.
pub assume_specification[ String::push ](s: &mut String, c: char)
    ensures
        final(s)@ == old(s)@.push(c),
;

// ---------------------------------------------------------------------------
// Characters
// ---------------------------------------------------------------------------
/// The Unicode property White_Space.
pub open spec fn is_white(c: char) -> bool {
    ||| '\u{9}' <= c <= '\u{d}'
    ||| c == '\u{20}'
    ||| c == '\u{85}'
    ||| c == '\u{a0}'
    ||| c == '\u{1680}'
    ||| '\u{2000}' <= c <= '\u{200a}'
    ||| c == '\u{2028}'
    ||| c == '\u{2029}'
    ||| c == '\u{202f}'
    ||| c == '\u{205f}'
    ||| c == '\u{3000}'
}

/// Whether `c` is white space.
pub fn is_white_char(c: char) -> (r: bool)
    ensures
        r == is_white(c),
{
    ('\u{9}' <= c && c <= '\u{d}') || c == '\u{20}' || c == '\u{85}' || c == '\u{a0}' || c
        == '\u{1680}' || ('\u{2000}' <= c && c <= '\u{200a}') || c == '\u{2028}' || c == '\u{2029}'
        || c == '\u{202f}' || c == '\u{205f}' || c == '\u{3000}'
}

/// The ASCII digits.
pub open spec fn is_digit(c: char) -> bool {
    '0' <= c <= '9'
}

/// `c` with an ASCII capital letter made small.
pub open spec fn lower(c: char) -> char {
    if 'A' <= c <= 'Z' {
        (c as u32 + 32) as char
    } else {
        c
    }
}

// ---------------------------------------------------------------------------
// Conversion
// ---------------------------------------------------------------------------
/// The characters of `s`.
pub fn chars_of(s: &str) -> (r: Vec<char>)
    ensures
        r@ == s@,
{
    let mut out: Vec<char> = Vec::new();
    for c in it: s.chars()
        invariant
            it.seq() == s@,
            out@ == s@.take(it.index() as int),
    {
        out.push(c);
        assert(s@.take(it.index() + 1) == s@.take(it.index() as int).push(c));
    }
    assert(s@.take(s@.len() as int) == s@);
    out
}

/// The text of the characters `from..to` of `cs`.
pub fn text_of(cs: &Vec<char>, from: usize, to: usize) -> (r: String)
    requires
        from <= to <= cs@.len(),
    ensures
        r@ == cs@.subrange(from as int, to as int),
{
    let mut out = String::new();
    let mut i: usize = from;
    while i < to
        invariant
            from <= i <= to <= cs@.len(),
            out@ == cs@.subrange(from as int, i as int),
        decreases to - i,
    {
        out.push(cs[i]);
        assert(cs@.subrange(from as int, i + 1) == cs@.subrange(from as int, i as int).push(
            cs@[i as int],
        ));
        i += 1;
    }
    out
}

/// The characters of a text that may be missing.
pub open spec fn opt_view(o: Option<String>) -> Option<Seq<char>> {
    match o {
        Some(s) => Some(s@),
        None => None,
    }
}

/// A text equal to `o`, or none.
pub fn copy_opt(o: &Option<String>) -> (r: Option<String>)
    ensures
        opt_view(r) == opt_view(*o),
{
    match o {
        Some(s) => Some(s.clone()),
        None => None,
    }
}

/// Whether two texts hold the same characters.
pub fn same_text(a: &str, b: &str) -> (r: bool)
    ensures
        r == (a@ == b@),
{
    let x = chars_of(a);
    let y = chars_of(b);
    same_chars(&x, &y)
}

/// Whether two character lists are equal.
pub fn same_chars(x: &Vec<char>, y: &Vec<char>) -> (r: bool)
    ensures
        r == (x@ == y@),
{
    if x.len() != y.len() {
        return false;
    }
    let mut i: usize = 0;
    while i < x.len()
        invariant
            i <= x.len(),
            x.len() == y.len(),
            x@.take(i as int) == y@.take(i as int),
        decreases x.len() - i,
    {
        if x[i] != y[i] {
            assert(x@[i as int] != y@[i as int]);
            return false;
        }
        assert(x@.take(i + 1) == x@.take(i as int).push(x@[i as int]));
        assert(y@.take(i + 1) == y@.take(i as int).push(y@[i as int]));
        i += 1;
    }
    assert(x@.take(x@.len() as int) == x@);
    assert(y@.take(y@.len() as int) == y@);
    true
}

/// `c` with an ASCII capital letter made small.
pub fn lower_char(c: char) -> (r: char)
    ensures
        r == lower(c),
{
    if 'A' <= c && c <= 'Z' {
        (c as u8 + 32) as char
    } else {
        c
    }
}

/// `s` with its ASCII capital letters made small.
pub fn lowercase(s: &str) -> (r: String)
    ensures
        r@ == s@.map_values(|c: char| lower(c)),
{
    let cs = chars_of(s);
    let mut out = String::new();
    let mut i: usize = 0;
    let ghost want = s@.map_values(|c: char| lower(c));
    while i < cs.len()
        invariant
            i <= cs@.len(),
            cs@ == s@,
            want == s@.map_values(|c: char| lower(c)),
            out@ == want.take(i as int),
        decreases cs@.len() - i,
    {
        out.push(lower_char(cs[i]));
        assert(want.take(i + 1) =~= want.take(i as int).push(want[i as int]));
        i += 1;
    }
    assert(want.take(want.len() as int) == want);
    out
}

// ---------------------------------------------------------------------------
// Trimming
// ---------------------------------------------------------------------------
/// `s` without its leading white space.
pub open spec fn trimmed_start(s: Seq<char>) -> Seq<char>
    decreases s.len(),
{
    if s.len() > 0 && is_white(s[0]) {
        trimmed_start(s.drop_first())
    } else {
        s
    }
}

/// `s` without its trailing white space.
pub open spec fn trimmed_end(s: Seq<char>) -> Seq<char>
    decreases s.len(),
{
    if s.len() > 0 && is_white(s.last()) {
        trimmed_end(s.drop_last())
    } else {
        s
    }
}

/// `s` without white space at either end.
pub open spec fn trimmed(s: Seq<char>) -> Seq<char> {
    trimmed_end(trimmed_start(s))
}

/// `s` without trailing occurrences of `c`.
pub open spec fn trimmed_end_of(s: Seq<char>, c: char) -> Seq<char>
    decreases s.len(),
{
    if s.len() > 0 && s.last() == c {
        trimmed_end_of(s.drop_last(), c)
    } else {
        s
    }
}

/// `s` without leading occurrences of `c`.
pub open spec fn trimmed_start_of(s: Seq<char>, c: char) -> Seq<char>
    decreases s.len(),
{
    if s.len() > 0 && s[0] == c {
        trimmed_start_of(s.drop_first(), c)
    } else {
        s
    }
}

/// A text without white space at its ends is trimmed already.
pub proof fn lemma_trimmed_keeps(s: Seq<char>)
    requires
        s.len() > 0 ==> !is_white(s[0]) && !is_white(s.last()),
    ensures
        trimmed(s) == s,
{
}

proof fn lemma_trimmed_start(s: Seq<char>)
    ensures
        trimmed_start(s).len() <= s.len(),
        trimmed_start(s).len() > 0 ==> !is_white(trimmed_start(s)[0]) && trimmed_start(s).last()
            == s.last(),
    decreases s.len(),
{
    if s.len() > 0 && is_white(s[0]) {
        lemma_trimmed_start(s.drop_first());
    }
}

proof fn lemma_trimmed_end(s: Seq<char>)
    ensures
        trimmed_end(s).len() <= s.len(),
        trimmed_end(s).len() > 0 ==> !is_white(trimmed_end(s).last()) && trimmed_end(s)[0] == s[0],
    decreases s.len(),
{
    if s.len() > 0 && is_white(s.last()) {
        lemma_trimmed_end(s.drop_last());
    }
}

/// A trimmed text has no white space at its ends, and trimming it again changes nothing.
pub proof fn lemma_trimmed_again(s: Seq<char>)
    ensures
        trimmed(s).len() <= s.len(),
        trimmed(s).len() > 0 ==> !is_white(trimmed(s)[0]) && !is_white(trimmed(s).last()),
        trimmed(trimmed(s)) == trimmed(s),
{
    lemma_trimmed_start(s);
    lemma_trimmed_end(trimmed_start(s));
    lemma_trimmed_keeps(trimmed(s));
}

/// The bounds of `cs[from..to]` without white space at either end.
pub fn trim_bounds(cs: &Vec<char>, from: usize, to: usize) -> (r: (usize, usize))
    requires
        from <= to <= cs@.len(),
    ensures
        from <= r.0 <= r.1 <= to,
        cs@.subrange(r.0 as int, r.1 as int) == trimmed(cs@.subrange(from as int, to as int)),
{
    let mut a: usize = from;
    while a < to && is_white_char(cs[a])
        invariant
            from <= a <= to <= cs@.len(),
            trimmed_start(cs@.subrange(a as int, to as int)) == trimmed_start(
                cs@.subrange(from as int, to as int),
            ),
        decreases to - a,
    {
        assert(cs@.subrange(a as int, to as int).drop_first() == cs@.subrange(a + 1, to as int));
        a += 1;
    }
    let mut b: usize = to;
    while a < b && is_white_char(cs[b - 1])
        invariant
            from <= a <= b <= to <= cs@.len(),
            trimmed_end(cs@.subrange(a as int, b as int)) == trimmed_end(
                cs@.subrange(a as int, to as int),
            ),
        decreases b - a,
    {
        assert(cs@.subrange(a as int, b as int).drop_last() == cs@.subrange(a as int, b - 1));
        b -= 1;
    }
    (a, b)
}

/// `s` without white space at either end.
pub fn trim(s: &str) -> (r: String)
    ensures
        r@ == trimmed(s@),
{
    let cs = chars_of(s);
    let (a, b) = trim_bounds(&cs, 0, cs.len());
    assert(cs@.subrange(0, cs@.len() as int) == cs@);
    text_of(&cs, a, b)
}

/// `s` without trailing white space.
pub fn trim_end(s: &str) -> (r: String)
    ensures
        r@ == trimmed_end(s@),
{
    let cs = chars_of(s);
    let mut b: usize = cs.len();
    assert(cs@.subrange(0, cs@.len() as int) == cs@);
    while 0 < b && is_white_char(cs[b - 1])
        invariant
            b <= cs@.len(),
            trimmed_end(cs@.subrange(0, b as int)) == trimmed_end(s@),
        decreases b,
    {
        assert(cs@.subrange(0, b as int).drop_last() == cs@.subrange(0, b - 1));
        b -= 1;
    }
    text_of(&cs, 0, b)
}

/// `s` without trailing occurrences of `c`.
pub fn trim_end_of(s: &str, c: char) -> (r: String)
    ensures
        r@ == trimmed_end_of(s@, c),
{
    let cs = chars_of(s);
    let mut b: usize = cs.len();
    assert(cs@.subrange(0, cs@.len() as int) == cs@);
    while 0 < b && cs[b - 1] == c
        invariant
            b <= cs@.len(),
            trimmed_end_of(cs@.subrange(0, b as int), c) == trimmed_end_of(s@, c),
        decreases b,
    {
        assert(cs@.subrange(0, b as int).drop_last() == cs@.subrange(0, b - 1));
        b -= 1;
    }
    text_of(&cs, 0, b)
}

/// `s` without leading occurrences of `c`.
pub fn trim_start_of(s: &str, c: char) -> (r: String)
    ensures
        r@ == trimmed_start_of(s@, c),
{
    let cs = chars_of(s);
    let mut a: usize = 0;
    assert(cs@.subrange(0, cs@.len() as int) == cs@);
    while a < cs.len() && cs[a] == c
        invariant
            a <= cs@.len(),
            trimmed_start_of(cs@.subrange(a as int, cs@.len() as int), c) == trimmed_start_of(
                s@,
                c,
            ),
        decreases cs@.len() - a,
    {
        assert(cs@.subrange(a as int, cs@.len() as int).drop_first() == cs@.subrange(
            a + 1,
            cs@.len() as int,
        ));
        a += 1;
    }
    text_of(&cs, a, cs.len())
}

// ---------------------------------------------------------------------------
// Searching and splitting
// ---------------------------------------------------------------------------
/// The position of the first `c` in `s`, or the length of `s` where there is none.
pub open spec fn pos(s: Seq<char>, c: char) -> int
    decreases s.len(),
{
    if s.len() == 0 || s[0] == c {
        0
    } else {
        1 + pos(s.drop_first(), c)
    }
}

/// What `pos` finds: the first occurrence, or the end.
pub proof fn lemma_pos(s: Seq<char>, c: char)
    ensures
        0 <= pos(s, c) <= s.len(),
        pos(s, c) < s.len() ==> s[pos(s, c)] == c,
        forall|i: int| 0 <= i < pos(s, c) ==> s[i] != c,
        pos(s, c) == s.len() <==> !s.contains(c),
    decreases s.len(),
{
    if s.len() > 0 && s[0] != c {
        let t = s.drop_first();
        lemma_pos(t, c);
        assert forall|i: int| 0 <= i < pos(s, c) implies s[i] != c by {
            if i > 0 {
                assert(s[i] == t[i - 1]);
            }
        }
    }
    if pos(s, c) < s.len() {
        assert(s.contains(c));
    }
}

/// A position with only other characters before it is the first one.
pub proof fn lemma_pos_is(s: Seq<char>, c: char, k: int)
    requires
        0 <= k <= s.len(),
        k < s.len() ==> s[k] == c,
        forall|i: int| 0 <= i < k ==> s[i] != c,
    ensures
        pos(s, c) == k,
{
    lemma_pos(s, c);
}

/// The first position at or behind `from`, and before `to`, that holds `c`; `to` where there is
/// none.
pub fn find_char(cs: &Vec<char>, from: usize, to: usize, c: char) -> (r: usize)
    requires
        from <= to <= cs@.len(),
    ensures
        from <= r <= to,
        r - from == pos(cs@.subrange(from as int, to as int), c),
        r < to ==> cs@[r as int] == c,
{
    let mut i: usize = from;
    while i < to && cs[i] != c
        invariant
            from <= i <= to <= cs@.len(),
            forall|k: int| from <= k < i ==> cs@[k] != c,
        decreases to - i,
    {
        i += 1;
    }
    proof {
        lemma_pos_is(cs@.subrange(from as int, to as int), c, i - from);
    }
    i
}

/// The pieces of `s` around each `c`: one more than there are occurrences.
pub open spec fn split(s: Seq<char>, c: char) -> Seq<Seq<char>>
    decreases s.len(),
{
    let k = pos(s, c);
    if 0 <= k < s.len() {
        seq![s.take(k)] + split(s.skip(k + 1), c)
    } else {
        seq![s]
    }
}

/// The two parts of `s` around its first `c`.
pub open spec fn split_once(s: Seq<char>, c: char) -> Option<(Seq<char>, Seq<char>)> {
    let k = pos(s, c);
    if k < s.len() {
        Some((s.take(k), s.skip(k + 1)))
    } else {
        None
    }
}

/// The views of a list of texts.
pub open spec fn views(v: Seq<String>) -> Seq<Seq<char>> {
    v.map_values(|s: String| s@)
}

/// Appending to a list appends to its views.
pub broadcast proof fn lemma_views_push(v: Seq<String>, s: String)
    ensures
        #[trigger] views(v.push(s)) == views(v).push(s@),
{
    assert(views(v.push(s)) =~= views(v).push(s@));
}

/// The pieces of `s` around each `c`.
pub fn split_text(s: &str, c: char) -> (r: Vec<String>)
    ensures
        views(r@) == split(s@, c),
{
    let cs = chars_of(s);
    let n: usize = cs.len();
    let mut out: Vec<String> = Vec::new();
    let mut from: usize = 0;
    proof {
        assert(cs@.skip(0) == cs@);
        assert(views(out@) + split(cs@, c) =~= split(cs@, c));
    }
    loop
        invariant_except_break
            from <= n,
            n == cs@.len(),
            cs@ == s@,
            views(out@) + split(cs@.skip(from as int), c) == split(s@, c),
        ensures
            views(out@) == split(s@, c),
        decreases n - from,
    {
        let k = find_char(&cs, from, n, c);
        let ghost rest = cs@.skip(from as int);
        let ghost before = views(out@);
        assert(cs@.subrange(from as int, n as int) == rest);
        out.push(text_of(&cs, from, k));
        proof {
            lemma_views_push(out@.drop_last(), out@.last());
            assert(out@.drop_last().push(out@.last()) == out@);
            assert(rest.take(k - from) == cs@.subrange(from as int, k as int));
        }
        if k < n {
            proof {
                assert(rest.skip(k - from + 1) == cs@.skip(k + 1));
                assert(views(out@) + split(cs@.skip(k + 1), c) =~= before + split(rest, c));
            }
            from = k + 1;
        } else {
            proof {
                assert(rest.take(k - from) == rest);
                assert(views(out@) =~= before + split(rest, c));
            }
            break;
        }
    }
    out
}

/// The two parts of `s` around its first `c`, where it holds one.
pub fn split_once_text(s: &str, c: char) -> (r: Option<(String, String)>)
    ensures
        match (r, split_once(s@, c)) {
            (Some(a), Some(b)) => a.0@ == b.0 && a.1@ == b.1,
            (None, None) => true,
            _ => false,
        },
{
    let cs = chars_of(s);
    let n: usize = cs.len();
    let k = find_char(&cs, 0, n, c);
    assert(cs@.subrange(0, n as int) == cs@);
    if k < n {
        let a = text_of(&cs, 0, k);
        let b = text_of(&cs, k + 1, n);
        assert(cs@.subrange(0, k as int) == s@.take(k as int));
        assert(cs@.subrange(k + 1, n as int) == s@.skip(k + 1));
        Some((a, b))
    } else {
        None
    }
}

/// Whether `s` holds the character `c`.
pub fn has_char(s: &str, c: char) -> (r: bool)
    ensures
        r == s@.contains(c),
{
    let cs = chars_of(s);
    let n: usize = cs.len();
    let k = find_char(&cs, 0, n, c);
    proof {
        assert(cs@.subrange(0, n as int) == cs@);
        lemma_pos(s@, c);
    }
    k < n
}

/// `s` without a carriage return at its end.
pub open spec fn without_cr(s: Seq<char>) -> Seq<char> {
    if s.len() > 0 && s.last() == '\r' {
        s.drop_last()
    } else {
        s
    }
}

/// The lines of `s`. A line ends with a line feed or a carriage return and a line feed; the last
/// one may end with the text.
pub open spec fn lines(s: Seq<char>) -> Seq<Seq<char>>
    decreases s.len(),
{
    let k = pos(s, '\n');
    if s.len() == 0 {
        Seq::empty()
    } else if 0 <= k < s.len() {
        seq![without_cr(s.take(k))] + lines(s.skip(k + 1))
    } else {
        seq![s]
    }
}

/// The lines of `s`.
pub fn lines_of(s: &str) -> (r: Vec<String>)
    ensures
        views(r@) == lines(s@),
{
    let cs = chars_of(s);
    let n: usize = cs.len();
    let mut out: Vec<String> = Vec::new();
    let mut from: usize = 0;
    proof {
        assert(cs@.skip(0) == cs@);
        assert(views(out@) + lines(cs@) =~= lines(cs@));
    }
    while from < n
        invariant
            from <= n,
            n == cs@.len(),
            cs@ == s@,
            views(out@) + lines(cs@.skip(from as int)) == lines(s@),
        decreases n - from,
    {
        let k = find_char(&cs, from, n, '\n');
        let ghost rest = cs@.skip(from as int);
        let ghost before = views(out@);
        assert(cs@.subrange(from as int, n as int) == rest);
        if k < n {
            let end: usize = if from < k && cs[k - 1] == '\r' {
                k - 1
            } else {
                k
            };
            out.push(text_of(&cs, from, end));
            proof {
                lemma_views_push(out@.drop_last(), out@.last());
                assert(out@.drop_last().push(out@.last()) == out@);
                let line = rest.take(k - from);
                assert(line == cs@.subrange(from as int, k as int));
                assert(without_cr(line) =~= cs@.subrange(from as int, end as int));
                assert(rest.skip(k - from + 1) == cs@.skip(k + 1));
                assert(views(out@) + lines(cs@.skip(k + 1)) =~= before + lines(rest));
            }
            from = k + 1;
        } else {
            out.push(text_of(&cs, from, n));
            proof {
                lemma_views_push(out@.drop_last(), out@.last());
                assert(out@.drop_last().push(out@.last()) == out@);
                assert(rest == cs@.subrange(from as int, n as int));
                assert(cs@.skip(n as int) == Seq::<char>::empty());
                assert(views(out@) + lines(cs@.skip(n as int)) =~= before + lines(rest));
            }
            from = n;
        }
    }
    proof {
        assert(cs@.skip(n as int) == Seq::<char>::empty());
        assert(views(out@) + Seq::<Seq<char>>::empty() =~= views(out@));
    }
    out
}

/// Whether `cs[at..]` begins with `p`.
pub fn chars_at(cs: &Vec<char>, at: usize, p: &Vec<char>) -> (r: bool)
    requires
        at <= cs@.len(),
    ensures
        r == p@.is_prefix_of(cs@.skip(at as int)),
{
    if cs.len() - at < p.len() {
        return false;
    }
    let mut i: usize = 0;
    while i < p.len()
        invariant
            i <= p@.len(),
            at + p@.len() <= cs.len(),
            forall|k: int| 0 <= k < i ==> p@[k] == cs@[at + k],
        decreases p@.len() - i,
    {
        if p[i] != cs[at + i] {
            assert(p@[i as int] != cs@.skip(at as int).subrange(0, p@.len() as int)[i as int]);
            return false;
        }
        i += 1;
    }
    assert(p@ == cs@.skip(at as int).subrange(0, p@.len() as int));
    true
}

/// Whether `s` begins with `p`.
pub fn begins_with(s: &str, p: &str) -> (r: bool)
    ensures
        r == p@.is_prefix_of(s@),
{
    let cs = chars_of(s);
    let ps = chars_of(p);
    assert(cs@.skip(0) == cs@);
    chars_at(&cs, 0, &ps)
}

/// Whether `s` ends with `p`.
pub fn finishes_with(s: &str, p: &str) -> (r: bool)
    ensures
        r == p@.is_suffix_of(s@),
{
    let cs = chars_of(s);
    let ps = chars_of(p);
    if cs.len() < ps.len() {
        return false;
    }
    let at: usize = cs.len() - ps.len();
    proof {
        assert(cs@.skip(at as int) == s@.subrange(at as int, s@.len() as int));
        if ps@.is_prefix_of(cs@.skip(at as int)) {
            assert(cs@.skip(at as int).subrange(0, ps@.len() as int) == cs@.skip(at as int));
        }
        if ps@.is_suffix_of(s@) {
            assert(ps@ == cs@.skip(at as int).subrange(0, ps@.len() as int));
        }
    }
    chars_at(&cs, at, &ps)
}

/// What is left of `s` behind the prefix `p`.
pub fn strip_prefix(s: &str, p: &str) -> (r: Option<String>)
    ensures
        match r {
            Some(t) => p@.is_prefix_of(s@) && t@ == s@.skip(p@.len() as int),
            None => !p@.is_prefix_of(s@),
        },
{
    let cs = chars_of(s);
    let ps = chars_of(p);
    assert(cs@.skip(0) == cs@);
    if chars_at(&cs, 0, &ps) {
        let t = text_of(&cs, ps.len(), cs.len());
        assert(cs@.subrange(ps@.len() as int, cs@.len() as int) == s@.skip(p@.len() as int));
        Some(t)
    } else {
        None
    }
}

/// What is left of `s` before the suffix `p`.
pub fn strip_suffix(s: &str, p: &str) -> (r: Option<String>)
    ensures
        match r {
            Some(t) => p@.is_suffix_of(s@) && t@ == s@.take(s@.len() - p@.len()),
            None => !p@.is_suffix_of(s@),
        },
{
    if finishes_with(s, p) {
        let cs = chars_of(s);
        let ps = chars_of(p);
        let t = text_of(&cs, 0, cs.len() - ps.len());
        assert(cs@.subrange(0, cs@.len() - ps@.len()) == s@.take(s@.len() - p@.len()));
        Some(t)
    } else {
        None
    }
}

/// Whether `p` stands in `s` at the position `i`.
pub open spec fn stands_at(s: Seq<char>, p: Seq<char>, i: int) -> bool {
    p.is_prefix_of(s.skip(i))
}

/// Whether `p` stands anywhere in `s`.
pub open spec fn holds(s: Seq<char>, p: Seq<char>) -> bool {
    exists|i: int| 0 <= i <= s.len() && #[trigger] stands_at(s, p, i)
}

/// Whether `p` stands anywhere in `s`.
pub fn holds_text(s: &str, p: &str) -> (r: bool)
    ensures
        r == holds(s@, p@),
{
    let cs = chars_of(s);
    let ps = chars_of(p);
    let mut i: usize = 0;
    loop
        invariant
            i <= cs@.len(),
            cs@ == s@,
            ps@ == p@,
            forall|k: int| 0 <= k < i ==> !#[trigger] stands_at(s@, p@, k),
        decreases cs@.len() - i,
    {
        if chars_at(&cs, i, &ps) {
            assert(stands_at(s@, p@, i as int));
            return true;
        }
        if i == cs.len() {
            return false;
        }
        i += 1;
    }
}

// ---------------------------------------------------------------------------
// Joining
// ---------------------------------------------------------------------------
/// The texts of `v` with `sep` between neighbours.
pub open spec fn joined(v: Seq<Seq<char>>, sep: Seq<char>) -> Seq<char>
    decreases v.len(),
{
    if v.len() == 0 {
        Seq::empty()
    } else if v.len() == 1 {
        v[0]
    } else {
        joined(v.drop_last(), sep) + sep + v.last()
    }
}

/// The texts of `v` with `sep` between neighbours.
pub fn join_texts(v: &Vec<String>, sep: &str) -> (r: String)
    ensures
        r@ == joined(views(v@), sep@),
{
    let mut out = String::new();
    let mut i: usize = 0;
    while i < v.len()
        invariant
            i <= v@.len(),
            out@ == joined(views(v@).take(i as int), sep@),
        decreases v@.len() - i,
    {
        let ghost t = views(v@).take(i + 1);
        assert(t.drop_last() == views(v@).take(i as int));
        assert(t.last() == v@[i as int]@);
        if i > 0 {
            out.append(sep);
        } else {
            assert(views(v@).take(0) == Seq::<Seq<char>>::empty());
        }
        out.append(v[i].as_str());
        assert(out@ == joined(t, sep@));
        i += 1;
    }
    assert(views(v@).take(v@.len() as int) == views(v@));
    out
}

/// The views of a list of borrowed texts.
pub open spec fn str_views(v: Seq<&str>) -> Seq<Seq<char>> {
    v.map_values(|s: &str| s@)
}

/// The texts of a list, each of its own.
pub fn texts(v: &[&str]) -> (r: Vec<String>)
    ensures
        views(r@) == str_views(v@),
{
    let mut out: Vec<String> = Vec::new();
    let mut i: usize = 0;
    while i < v.len()
        invariant
            i <= v@.len(),
            views(out@) == str_views(v@).take(i as int),
        decreases v@.len() - i,
    {
        let ghost before = out@;
        let t = v[i].to_string();
        out.push(t);
        proof {
            lemma_views_push(before, t);
            assert(str_views(v@).take(i + 1) =~= str_views(v@).take(i as int).push(v@[i as int]@));
        }
        i += 1;
    }
    assert(str_views(v@).take(v@.len() as int) =~= str_views(v@));
    out
}

/// Appends a text to a list.
pub fn push_text(v: &mut Vec<String>, s: String)
    ensures
        views(final(v)@) == views(old(v)@).push(s@),
{
    proof {
        lemma_views_push(v@, s);
    }
    v.push(s);
}

/// Texts equal to those of a list.
pub fn copy_texts(v: &Vec<String>) -> (r: Vec<String>)
    ensures
        views(r@) == views(v@),
{
    let mut out: Vec<String> = Vec::new();
    let mut i: usize = 0;
    while i < v.len()
        invariant
            i <= v@.len(),
            views(out@) == views(v@).take(i as int),
        decreases v@.len() - i,
    {
        let ghost before = out@;
        let t = v[i].clone();
        out.push(t);
        proof {
            lemma_views_push(before, t);
            assert(views(v@).take(i + 1) =~= views(v@).take(i as int).push(v@[i as int]@));
        }
        i += 1;
    }
    assert(views(v@).take(v@.len() as int) =~= views(v@));
    out
}

/// Whether the text is one of the list.
pub fn has_text(v: &Vec<String>, s: &str) -> (r: bool)
    ensures
        r == views(v@).contains(s@),
{
    let mut i: usize = 0;
    while i < v.len()
        invariant
            i <= v@.len(),
            forall|k: int| 0 <= k < i ==> (#[trigger] views(v@)[k]) != s@,
        decreases v@.len() - i,
    {
        assert(views(v@)[i as int] == v@[i as int]@);
        if same_text(v[i].as_str(), s) {
            assert(views(v@).contains(s@));
            return true;
        }
        i += 1;
    }
    false
}

/// `a` followed by `b`.
pub fn concat(a: &str, b: &str) -> (r: String)
    ensures
        r@ == a@ + b@,
{
    let mut out = a.to_string();
    out.append(b);
    out
}

/// `a`, `b` and `c` one behind the other.
pub fn concat3(a: &str, b: &str, c: &str) -> (r: String)
    ensures
        r@ == a@ + b@ + c@,
{
    let mut out = a.to_string();
    out.append(b);
    out.append(c);
    out
}

// ---------------------------------------------------------------------------
// Numbers
// ---------------------------------------------------------------------------
/// The digit `d` as a character.
pub open spec fn digit_char(d: nat) -> char {
    ('0' as u32 + d) as char
}

/// `n` in decimal notation.
pub open spec fn decimal(n: nat) -> Seq<char>
    decreases n,
{
    if n < 10 {
        seq![digit_char(n)]
    } else {
        decimal(n / 10).push(digit_char(n % 10))
    }
}

fn digit_of(d: u64) -> (r: char)
    requires
        d < 10,
    ensures
        r == digit_char(d as nat),
{
    if d == 0 {
        '0'
    } else if d == 1 {
        '1'
    } else if d == 2 {
        '2'
    } else if d == 3 {
        '3'
    } else if d == 4 {
        '4'
    } else if d == 5 {
        '5'
    } else if d == 6 {
        '6'
    } else if d == 7 {
        '7'
    } else if d == 8 {
        '8'
    } else {
        '9'
    }
}

/// `n` in decimal notation.
pub fn decimal_text(n: u64) -> (r: String)
    ensures
        r@ == decimal(n as nat),
    decreases n,
{
    if n < 10 {
        let mut out = String::new();
        out.push(digit_of(n));
        assert(out@ == seq![digit_char(n as nat)]);
        out
    } else {
        let mut out = decimal_text(n / 10);
        out.push(digit_of(n % 10));
        out
    }
}

/// `n` in decimal notation.
pub fn decimal_wide(n: u128) -> (r: String)
    ensures
        r@ == decimal(n as nat),
    decreases n,
{
    if n < 10 {
        let mut out = String::new();
        out.push(digit_of(n as u64));
        assert(out@ == seq![digit_char(n as nat)]);
        out
    } else {
        let mut out = decimal_wide(n / 10);
        out.push(digit_of((n % 10) as u64));
        out
    }
}

/// The value of a run of digits.
pub open spec fn digits_value(s: Seq<char>) -> nat
    decreases s.len(),
{
    if s.len() == 0 {
        0
    } else {
        (digits_value(s.drop_last()) * 10 + (s.last() as u32 - '0' as u32)) as nat
    }
}

/// Whether `s` is a non-empty run of digits.
pub open spec fn all_digits(s: Seq<char>) -> bool {
    s.len() > 0 && forall|i: int| 0 <= i < s.len() ==> is_digit(#[trigger] s[i])
}

/// The digits of `s` behind one optional plus sign.
pub open spec fn unsigned_digits(s: Seq<char>) -> Seq<char> {
    if s.len() > 0 && s[0] == '+' {
        s.drop_first()
    } else {
        s
    }
}

/// The number up to `max` that `s` writes: digits behind one optional plus sign.
pub open spec fn parsed(s: Seq<char>, max: nat) -> Option<nat> {
    let d = unsigned_digits(s);
    if all_digits(d) && digits_value(d) <= max {
        Some(digits_value(d))
    } else {
        None
    }
}

/// The decimal notation of a number has its value.
pub proof fn lemma_decimal_value(n: nat)
    ensures
        digits_value(decimal(n)) == n,
    decreases n,
{
    let d = decimal(n);
    if n < 10 {
        assert(d.drop_last() =~= Seq::empty());
        assert(digits_value(d.drop_last()) == 0);
    } else {
        lemma_decimal_value(n / 10);
        assert(d.drop_last() =~= decimal(n / 10));
    }
}

proof fn lemma_digits_value_grows(s: Seq<char>, k: int)
    requires
        0 <= k <= s.len(),
        forall|i: int| 0 <= i < s.len() ==> is_digit(#[trigger] s[i]),
    ensures
        digits_value(s.take(k)) <= digits_value(s),
    decreases s.len() - k,
{
    if k < s.len() {
        lemma_digits_value_grows(s, k + 1);
        let t = s.take(k + 1);
        assert(t.drop_last() == s.take(k));
        assert(is_digit(s[k]));
    } else {
        assert(s.take(k) == s);
    }
}

fn parse_number(s: &str, max: u64) -> (r: Option<u64>)
    ensures
        match r {
            Some(n) => parsed(s@, max as nat) == Some(n as nat),
            None => parsed(s@, max as nat) is None,
        },
{
    let cs = chars_of(s);
    let n: usize = cs.len();
    let start: usize = if n > 0 && cs[0] == '+' {
        1
    } else {
        0
    };
    let ghost d = unsigned_digits(s@);
    assert(d == cs@.subrange(start as int, n as int));
    if start == n {
        return None;
    }
    let mut value: u64 = 0;
    let mut i: usize = start;
    while i < n
        invariant
            start <= i <= n,
            n == cs@.len(),
            d == unsigned_digits(s@),
            d == cs@.subrange(start as int, n as int),
            value <= max,
            value == digits_value(d.take(i - start)),
            forall|k: int| 0 <= k < i - start ==> is_digit(#[trigger] d[k]),
        decreases n - i,
    {
        let c = cs[i];
        let ghost t = d.take(i - start + 1);
        assert(t.drop_last() == d.take(i - start));
        assert(t.last() == c && d[i - start] == c);
        if c < '0' || '9' < c {
            assert(!is_digit(d[i - start]));
            return None;
        }
        let digit: u64 = c as u64 - '0' as u64;
        let next: u128 = value as u128 * 10 + digit as u128;
        assert(next == digits_value(t));
        if next > max as u128 {
            proof {
                if all_digits(d) {
                    lemma_digits_value_grows(d, i - start + 1);
                }
            }
            return None;
        }
        value = next as u64;
        i += 1;
    }
    assert(d.take(n - start) == d);
    Some(value)
}

/// The number that `s` writes, up to the size of an address.
pub fn parse_usize(s: &str) -> (r: Option<usize>)
    ensures
        match r {
            Some(n) => parsed(s@, usize::MAX as nat) == Some(n as nat),
            None => parsed(s@, usize::MAX as nat) is None,
        },
{
    match parse_number(s, usize::MAX as u64) {
        Some(n) => Some(n as usize),
        None => None,
    }
}

/// The number up to `max` that `s` writes.
pub fn parse_up_to(s: &str, max: u32) -> (r: Option<u32>)
    ensures
        match r {
            Some(n) => parsed(s@, max as nat) == Some(n as nat),
            None => parsed(s@, max as nat) is None,
        },
{
    match parse_number(s, max as u64) {
        Some(n) => Some(n as u32),
        None => None,
    }
}

/// The 32-bit number that `s` writes.
pub fn parse_u32(s: &str) -> (r: Option<u32>)
    ensures
        match r {
            Some(n) => parsed(s@, u32::MAX as nat) == Some(n as nat),
            None => parsed(s@, u32::MAX as nat) is None,
        },
{
    match parse_number(s, u32::MAX as u64) {
        Some(n) => Some(n as u32),
        None => None,
    }
}

// ---------------------------------------------------------------------------
// Order
// ---------------------------------------------------------------------------
/// Whether `a` comes before `b` or equals it, comparing character by character.
pub open spec fn text_le(a: Seq<char>, b: Seq<char>) -> bool
    decreases a.len(),
{
    if a.len() == 0 {
        true
    } else if b.len() == 0 {
        false
    } else if a[0] == b[0] {
        text_le(a.drop_first(), b.drop_first())
    } else {
        a[0] < b[0]
    }
}

/// The order of texts is total.
pub proof fn lemma_text_le_total(a: Seq<char>, b: Seq<char>)
    ensures
        text_le(a, b) || text_le(b, a),
    decreases a.len(),
{
    if a.len() > 0 && b.len() > 0 && a[0] == b[0] {
        lemma_text_le_total(a.drop_first(), b.drop_first());
    }
}

/// The order of texts is antisymmetric.
pub proof fn lemma_text_le_antisymmetric(a: Seq<char>, b: Seq<char>)
    requires
        text_le(a, b),
        text_le(b, a),
    ensures
        a == b,
    decreases a.len(),
{
    if a.len() > 0 && b.len() > 0 && a[0] == b[0] {
        lemma_text_le_antisymmetric(a.drop_first(), b.drop_first());
        assert(a == seq![a[0]] + a.drop_first());
        assert(b == seq![b[0]] + b.drop_first());
    } else {
        assert(a.len() == 0 && b.len() == 0);
        assert(a == b);
    }
}

/// The order of texts is transitive.
pub proof fn lemma_text_le_transitive(a: Seq<char>, b: Seq<char>, c: Seq<char>)
    requires
        text_le(a, b),
        text_le(b, c),
    ensures
        text_le(a, c),
    decreases a.len(),
{
    if a.len() > 0 && b.len() > 0 && c.len() > 0 && a[0] == b[0] && b[0] == c[0] {
        lemma_text_le_transitive(a.drop_first(), b.drop_first(), c.drop_first());
    }
}

/// Every text is at most itself.
pub proof fn lemma_text_le_reflexive(a: Seq<char>)
    ensures
        text_le(a, a),
{
    lemma_text_le_total(a, a);
}

/// Whether `a` comes before `b` or equals it.
pub fn not_after(a: &str, b: &str) -> (r: bool)
    ensures
        r == text_le(a@, b@),
{
    let x = chars_of(a);
    let y = chars_of(b);
    let mut i: usize = 0;
    proof {
        assert(x@.skip(0) == x@);
        assert(y@.skip(0) == y@);
    }
    while i < x.len() && i < y.len()
        invariant
            i <= x@.len(),
            i <= y@.len(),
            x@ == a@,
            y@ == b@,
            text_le(x@.skip(i as int), y@.skip(i as int)) == text_le(a@, b@),
        decreases x@.len() - i,
    {
        if x[i] != y[i] {
            return x[i] < y[i];
        }
        assert(x@.skip(i as int).drop_first() == x@.skip(i + 1));
        assert(y@.skip(i as int).drop_first() == y@.skip(i + 1));
        i += 1;
    }
    i == x.len()
}

/// Whether the texts of `v` stand in order.
pub open spec fn sorted(v: Seq<Seq<char>>) -> bool {
    forall|i: int, j: int| 0 <= i <= j < v.len() ==> text_le(#[trigger] v[i], #[trigger] v[j])
}

/// Whether the texts of `v` stand in order and none occurs twice.
pub open spec fn strictly_sorted(v: Seq<Seq<char>>) -> bool {
    sorted(v) && v.no_duplicates()
}

/// Where `item` goes in the ordered list `v`: behind everything that is not after it.
fn insertion_point(v: &Vec<String>, item: &str) -> (r: usize)
    requires
        sorted(views(v@)),
    ensures
        r <= v@.len(),
        forall|i: int| 0 <= i < r ==> text_le(#[trigger] views(v@)[i], item@),
        forall|i: int| r <= i < v@.len() ==> !text_le(#[trigger] views(v@)[i], item@),
{
    let mut i: usize = 0;
    while i < v.len() && not_after(v[i].as_str(), item)
        invariant
            i <= v@.len(),
            forall|k: int| 0 <= k < i ==> text_le(#[trigger] views(v@)[k], item@),
        decreases v@.len() - i,
    {
        i += 1;
    }
    proof {
        assert forall|k: int| i <= k < v@.len() implies !text_le(
            #[trigger] views(v@)[k],
            item@,
        ) by {
            if text_le(views(v@)[k], item@) {
                lemma_text_le_transitive(views(v@)[i as int], views(v@)[k], item@);
            }
        }
    }
    i
}

/// Puts `item` into the ordered list `v`, unless it is there.
pub fn insert_sorted(v: &mut Vec<String>, item: String)
    requires
        strictly_sorted(views(old(v)@)),
    ensures
        strictly_sorted(views(final(v)@)),
        views(final(v)@).to_set() == views(old(v)@).to_set().insert(item@),
{
    let at = insertion_point(v, item.as_str());
    let ghost before = views(v@);
    if at > 0 && same_text(v[at - 1].as_str(), item.as_str()) {
        proof {
            assert(before[at - 1] == item@);
            assert(before.contains(item@));
            assert(before.to_set() =~= before.to_set().insert(item@));
        }
        return ;
    }
    let ghost it = item@;
    v.insert(at, item);
    proof {
        let after = views(v@);
        assert(after =~= before.insert(at as int, it));
        assert forall|i: int, j: int| 0 <= i <= j < after.len() implies text_le(
            #[trigger] after[i],
            #[trigger] after[j],
        ) by {
            let bi = if i < at { i } else { i - 1 };
            let bj = if j < at { j } else { j - 1 };
            if i == at && j == at {
                lemma_text_le_reflexive(it);
            } else if i == at {
                assert(!text_le(before[bj], it));
                lemma_text_le_total(before[bj], it);
            } else if j == at {
                assert(text_le(before[bi], it));
            } else {
                assert(text_le(before[bi], before[bj]));
            }
        }
        assert(!before.contains(it)) by {
            if before.contains(it) {
                let k = choose|k: int| 0 <= k < before.len() && before[k] == it;
                lemma_text_le_reflexive(it);
                assert(k < at);
                assert(text_le(before[k], before[at - 1]));
                assert(text_le(before[at - 1], it));
                lemma_text_le_antisymmetric(before[at - 1], it);
            }
        }
        assert forall|i: int, j: int| 0 <= i < after.len() && 0 <= j < after.len() && i
            != j implies after[i] != after[j] by {
            let bi = if i < at { i } else { i - 1 };
            let bj = if j < at { j } else { j - 1 };
            if i == at {
                assert(before.contains(before[bj]));
            } else if j == at {
                assert(before.contains(before[bi]));
            }
        }
        assert forall|x: Seq<char>| after.to_set().contains(x) == before.to_set().insert(
            it,
        ).contains(x) by {
            if after.contains(x) {
                let k = choose|k: int| 0 <= k < after.len() && after[k] == x;
                let bk = if k < at { k } else { k - 1 };
                if k != at {
                    assert(before[bk] == x);
                }
            }
            if before.contains(x) {
                let k = choose|k: int| 0 <= k < before.len() && before[k] == x;
                let ak = if k < at { k } else { k + 1 };
                assert(after[ak] == x);
            }
            if x == it {
                assert(after[at as int] == x);
            }
        }
        assert(after.to_set() =~= before.to_set().insert(it));
    }
}

/// The texts of `v` in order, each once.
pub fn sort_unique(v: &Vec<String>) -> (r: Vec<String>)
    ensures
        strictly_sorted(views(r@)),
        views(r@).to_set() == views(v@).to_set(),
{
    let mut out: Vec<String> = Vec::new();
    let mut i: usize = 0;
    proof {
        assert(views(out@).to_set() =~= views(v@).take(0).to_set());
    }
    while i < v.len()
        invariant
            i <= v@.len(),
            strictly_sorted(views(out@)),
            views(out@).to_set() == views(v@).take(i as int).to_set(),
        decreases v@.len() - i,
    {
        let ghost vs = views(v@);
        insert_sorted(&mut out, v[i].clone());
        proof {
            assert(vs.take(i + 1) == vs.take(i as int).push(vs[i as int]));
            lemma_push_to_set(vs.take(i as int), vs[i as int]);
        }
        i += 1;
    }
    assert(views(v@).take(v@.len() as int) == views(v@));
    out
}

/// How many texts at the beginning may stand before the given one.
pub open spec fn name_place(v: Seq<Seq<char>>, s: Seq<char>) -> int
    decreases v.len(),
{
    if v.len() == 0 || !text_le(v[0], s) {
        0
    } else {
        1 + name_place(v.drop_first(), s)
    }
}

/// The texts in order.
pub open spec fn in_name_order(v: Seq<Seq<char>>) -> Seq<Seq<char>>
    decreases v.len(),
{
    if v.len() == 0 {
        v
    } else {
        let before = in_name_order(v.drop_last());
        before.insert(name_place(before, v.last()), v.last())
    }
}

proof fn lemma_name_place(v: Seq<Seq<char>>, s: Seq<char>)
    ensures
        0 <= name_place(v, s) <= v.len(),
        forall|i: int| 0 <= i < name_place(v, s) ==> text_le(#[trigger] v[i], s),
        name_place(v, s) < v.len() ==> !text_le(v[name_place(v, s)], s),
    decreases v.len(),
{
    if v.len() > 0 && text_le(v[0], s) {
        let t = v.drop_first();
        lemma_name_place(t, s);
        assert forall|i: int| 0 <= i < name_place(v, s) implies text_le(#[trigger] v[i], s) by {
            if i > 0 {
                assert(v[i] == t[i - 1]);
            }
        }
    }
}

/// Texts in order come in order, and none is added or lost.
pub proof fn law_name_order_is_an_order(v: Seq<Seq<char>>)
    ensures
        sorted(in_name_order(v)),
        in_name_order(v).to_multiset() == v.to_multiset(),
    decreases v.len(),
{
    broadcast use vstd::seq_lib::group_to_multiset_ensures;

    if v.len() > 0 {
        let t = v.drop_last();
        let e = v.last();
        law_name_order_is_an_order(t);
        let before = in_name_order(t);
        let k = name_place(before, e);
        lemma_name_place(before, e);
        let after = in_name_order(v);
        assert forall|i: int, j: int| 0 <= i <= j < after.len() implies text_le(
            #[trigger] after[i],
            #[trigger] after[j],
        ) by {
            let bi = if i < k {
                i
            } else {
                i - 1
            };
            let bj = if j < k {
                j
            } else {
                j - 1
            };
            if i == j {
                lemma_text_le_reflexive(after[i]);
            } else if j == k {
                assert(text_le(before[bi], e));
            } else if i == k {
                lemma_text_le_total(before[k], e);
                if bj > k {
                    assert(text_le(before[k], before[bj]));
                    lemma_text_le_transitive(e, before[k], before[bj]);
                }
            } else {
                assert(text_le(before[bi], before[bj]));
            }
        }
        assert(v =~= t.push(e));
        before.to_multiset_ensures();
        assert(after.to_multiset() =~= before.to_multiset().insert(e));
        assert(v.to_multiset() =~= t.to_multiset().insert(e));
    }
}

/// The texts in order.
pub fn sort_names(v: &Vec<String>) -> (r: Vec<String>)
    ensures
        views(r@) == in_name_order(views(v@)),
        r@.len() == v@.len(),
{
    let ghost want = views(v@);
    let mut out: Vec<String> = Vec::new();
    let mut i: usize = 0;
    assert(want.take(0) =~= Seq::empty());
    assert(views(out@) =~= Seq::empty());
    while i < v.len()
        invariant
            i <= v@.len(),
            out@.len() == i,
            want == views(v@),
            views(out@) == in_name_order(want.take(i as int)),
        decreases v@.len() - i,
    {
        let ghost before = out@;
        let ghost bv = views(out@);
        assert(want.take(i + 1).drop_last() =~= want.take(i as int));
        assert(want.take(i + 1).last() == v@[i as int]@);
        let mut k: usize = 0;
        assert(bv.skip(0) =~= bv);
        while k < out.len() && not_after(out[k].as_str(), v[i].as_str())
            invariant
                k <= out@.len(),
                i < v@.len(),
                bv == views(out@),
                name_place(bv, v@[i as int]@) == k + name_place(bv.skip(k as int), v@[i as int]@),
            decreases out@.len() - k,
        {
            assert(bv.skip(k as int)[0] == out@[k as int]@);
            assert(bv.skip(k as int).drop_first() =~= bv.skip(k + 1));
            k += 1;
        }
        proof {
            if k < out@.len() {
                assert(bv.skip(k as int)[0] == out@[k as int]@);
            }
        }
        let s = v[i].clone();
        out.insert(k, s);
        assert(views(out@) =~= bv.insert(k as int, s@));
        i += 1;
    }
    assert(want.take(v@.len() as int) =~= want);
    out
}

/// Appending an item adds it to the set of items.
pub proof fn lemma_push_to_set<T>(s: Seq<T>, x: T)
    ensures
        s.push(x).to_set() == s.to_set().insert(x),
{
    assert forall|y: T| s.push(x).to_set().contains(y) == s.to_set().insert(x).contains(y) by {
        if s.contains(y) {
            let k = choose|k: int| 0 <= k < s.len() && s[k] == y;
            assert(s.push(x)[k] == y);
        }
        if y == x {
            assert(s.push(x)[s.len() as int] == y);
        }
        if s.push(x).contains(y) {
            let k = choose|k: int| 0 <= k < s.push(x).len() && s.push(x)[k] == y;
            if k < s.len() {
                assert(s[k] == y);
            }
        }
    }
    assert(s.push(x).to_set() =~= s.to_set().insert(x));
}

// ---------------------------------------------------------------------------
// Laws
// ---------------------------------------------------------------------------
/// Among the ASCII characters the blank and the five controls from tabulator to carriage return are
/// white space, and nothing else.
pub proof fn law_ascii_white_space(c: char)
    requires
        (c as u32) < 128,
    ensures
        is_white(c) <==> (c == ' ' || c == '\t' || c == '\n' || c == '\r' || c == '\u{b}' || c
            == '\u{c}'),
{
}

/// A small letter stays, a capital one becomes the small one at the same place of the alphabet, and
/// everything else stays.
pub proof fn law_small_letters(c: char)
    ensures
        lower(lower(c)) == lower(c),
        'A' <= c <= 'Z' ==> 'a' <= lower(c) <= 'z' && lower(c) as u32 - 'a' as u32 == c as u32
            - 'A' as u32,
        !('A' <= c <= 'Z') ==> lower(c) == c,
{
}

proof fn lemma_trimmed_start_is(a: Seq<char>, t: Seq<char>)
    requires
        forall|i: int| 0 <= i < a.len() ==> is_white(#[trigger] a[i]),
        t.len() > 0 ==> !is_white(t[0]),
    ensures
        trimmed_start(a + t) == t,
    decreases a.len(),
{
    if a.len() > 0 {
        let b = a.drop_first();
        assert((a + t).drop_first() =~= b + t);
        assert forall|i: int| 0 <= i < b.len() implies is_white(#[trigger] b[i]) by {
            assert(b[i] == a[i + 1]);
        }
        assert((a + t)[0] == a[0]);
        lemma_trimmed_start_is(b, t);
    } else {
        assert(a + t =~= t);
    }
}

proof fn lemma_trimmed_end_is(t: Seq<char>, a: Seq<char>)
    requires
        forall|i: int| 0 <= i < a.len() ==> is_white(#[trigger] a[i]),
        t.len() > 0 ==> !is_white(t.last()),
    ensures
        trimmed_end(t + a) == t,
    decreases a.len(),
{
    if a.len() > 0 {
        let b = a.drop_last();
        assert((t + a).drop_last() =~= t + b);
        assert forall|i: int| 0 <= i < b.len() implies is_white(#[trigger] b[i]) by {
            assert(b[i] == a[i]);
        }
        assert((t + a).last() == a[a.len() - 1]);
        lemma_trimmed_end_is(t, b);
    } else {
        assert(t + a =~= t);
    }
}

/// Trimming takes away the white space at the ends and nothing else.
pub proof fn law_trimming_takes_white_space_only(a: Seq<char>, s: Seq<char>, b: Seq<char>)
    requires
        forall|i: int| 0 <= i < a.len() ==> is_white(#[trigger] a[i]),
        forall|i: int| 0 <= i < b.len() ==> is_white(#[trigger] b[i]),
        s.len() > 0 ==> !is_white(s[0]) && !is_white(s.last()),
    ensures
        trimmed(a + s + b) == s,
        trimmed_start(a + s) == s,
        trimmed_end(s + b) == s,
{
    lemma_trimmed_start_is(a, s);
    lemma_trimmed_end_is(s, b);
    if s.len() == 0 {
        assert forall|i: int| 0 <= i < (a + b).len() implies is_white(#[trigger] (a + b)[i]) by {
            if i < a.len() {
                assert((a + b)[i] == a[i]);
            } else {
                assert((a + b)[i] == b[i - a.len()]);
            }
        }
        lemma_trimmed_start_is(a + b, s);
        assert(a + s + b =~= (a + b) + s);
    } else {
        lemma_trimmed_start_is(a, s + b);
        assert(a + s + b =~= a + (s + b));
    }
}

/// Trimming one character takes all of it from that end and nothing else.
pub proof fn law_trimming_one_character(s: Seq<char>, c: char, n: nat)
    requires
        s.len() > 0 ==> s[0] != c && s.last() != c,
    ensures
        trimmed_end_of(s + Seq::new(n, |i: int| c), c) == s,
        trimmed_start_of(Seq::new(n, |i: int| c) + s, c) == s,
    decreases n,
{
    let more = Seq::new(n, |i: int| c);
    if n > 0 {
        let less = Seq::new((n - 1) as nat, |i: int| c);
        law_trimming_one_character(s, c, (n - 1) as nat);
        assert((s + more).drop_last() =~= s + less);
        assert((more + s).drop_first() =~= less + s);
        assert((s + more).last() == c);
        assert((more + s)[0] == c);
    } else {
        assert(s + more =~= s);
        assert(more + s =~= s);
    }
}

/// Joining puts the separator between neighbours and nothing else.
pub proof fn law_joining_keeps_the_texts(a: Seq<Seq<char>>, b: Seq<Seq<char>>, sep: Seq<char>)
    ensures
        joined(Seq::empty(), sep) == Seq::<char>::empty(),
        a.len() == 1 ==> joined(a, sep) == a[0],
        a.len() > 0 && b.len() > 0 ==> joined(a + b, sep) == joined(a, sep) + sep + joined(b, sep),
    decreases b.len(),
{
    if a.len() > 0 && b.len() > 0 {
        let t = b.drop_last();
        assert((a + b).drop_last() =~= a + t);
        if b.len() == 1 {
            assert(a + t =~= a);
        } else {
            law_joining_keeps_the_texts(a, t, sep);
            assert(joined(a, sep) + sep + joined(t, sep) + sep + b.last() =~= joined(a, sep) + sep
                + (joined(t, sep) + sep + b.last()));
        }
    }
}

/// The pieces of a text do not hold the character between them, and put together with it they are
/// the text.
pub proof fn law_pieces_make_the_text(s: Seq<char>, c: char)
    ensures
        split(s, c).len() > 0,
        forall|k: int| 0 <= k < split(s, c).len() ==> !(#[trigger] split(s, c)[k]).contains(c),
        joined(split(s, c), seq![c]) == s,
    decreases s.len(),
{
    lemma_pos(s, c);
    let k = pos(s, c);
    if k < s.len() {
        let first = s.take(k);
        let rest = split(s.skip(k + 1), c);
        law_pieces_make_the_text(s.skip(k + 1), c);
        law_joining_keeps_the_texts(seq![first], rest, seq![c]);
        assert(s =~= first + seq![c] + s.skip(k + 1));
        assert forall|i: int| 0 <= i < split(s, c).len() implies !(#[trigger] split(s, c)[i]).contains(
            c,
        ) by {
            if i > 0 {
                assert(split(s, c)[i] == rest[i - 1]);
            }
        }
    }
}

/// A text is cut at the first occurrence of a character, which belongs to neither part.
pub proof fn law_texts_are_cut_at_the_first(a: Seq<char>, b: Seq<char>, c: char)
    requires
        !a.contains(c),
    ensures
        split_once(a + seq![c] + b, c) == Some((a, b)),
        split_once(a, c) is None,
        pos(a + seq![c] + b, c) == a.len(),
        pos(a, c) == a.len(),
{
    let s = a + seq![c] + b;
    assert forall|i: int| 0 <= i < a.len() implies s[i] != c by {
        assert(a.contains(a[i]));
    }
    lemma_pos_is(s, c, a.len() as int);
    lemma_pos(a, c);
    assert(s.take(a.len() as int) =~= a);
    assert(s.skip((a.len() + 1) as int) =~= b);
}

/// Each line feed ends a line, of which a carriage return before it is no part; what stands behind
/// the last line feed is a line of its own unless it is empty.
pub proof fn law_lines_end_with_line_feeds(a: Seq<char>, s: Seq<char>)
    requires
        !a.contains('\n'),
    ensures
        lines(Seq::empty()) == Seq::<Seq<char>>::empty(),
        a.len() > 0 ==> lines(a) == seq![a],
        a.len() > 0 && a.last() == '\r' ==> lines(a + seq!['\n'] + s) == seq![a.drop_last()] + lines(
            s,
        ),
        a.len() == 0 || a.last() != '\r' ==> lines(a + seq!['\n'] + s) == seq![a] + lines(s),
{
    law_texts_are_cut_at_the_first(a, s, '\n');
    let t = a + seq!['\n'] + s;
    assert(t.take(a.len() as int) =~= a);
    assert(t.skip((a.len() + 1) as int) =~= s);
}

proof fn lemma_lines_hold_none(s: Seq<char>)
    ensures
        forall|k: int| 0 <= k < lines(s).len() ==> !(#[trigger] lines(s)[k]).contains('\n'),
        lines(s).len() == 0 <==> s.len() == 0,
    decreases s.len(),
{
    lemma_pos(s, '\n');
    let k = pos(s, '\n');
    if k < s.len() {
        let rest = lines(s.skip(k + 1));
        lemma_lines_hold_none(s.skip(k + 1));
        let line = s.take(k);
        assert forall|i: int| 0 <= i < lines(s).len() implies !(#[trigger] lines(s)[i]).contains(
            '\n',
        ) by {
            if i > 0 {
                assert(lines(s)[i] == rest[i - 1]);
            } else if lines(s)[0].contains('\n') {
                let j = choose|j: int| 0 <= j < lines(s)[0].len() && lines(s)[0][j] == '\n';
                assert(line[j] == '\n');
            }
        }
    }
}

/// A line holds no line feed, and only the empty text has no lines.
pub proof fn law_lines_hold_no_line_feed(s: Seq<char>, k: int)
    requires
        0 <= k < lines(s).len(),
    ensures
        !lines(s)[k].contains('\n'),
        s.len() > 0,
{
    lemma_lines_hold_none(s);
}

/// A text without any line is empty.
pub proof fn law_only_the_empty_text_has_no_lines(s: Seq<char>)
    ensures
        lines(s).len() == 0 <==> s.len() == 0,
{
    lemma_lines_hold_none(s);
}

/// A text stands in another one where that is made of it and what is around it, and nowhere else.
pub proof fn law_held_texts_stand_inside(s: Seq<char>, a: Seq<char>, p: Seq<char>, b: Seq<char>)
    ensures
        holds(a + p + b, p),
        holds(s, p) ==> exists|x: Seq<char>, y: Seq<char>| s == #[trigger] (x + p + y),
{
    let t = a + p + b;
    assert(p =~= t.skip(a.len() as int).take(p.len() as int));
    assert(stands_at(t, p, a.len() as int));
    if holds(s, p) {
        let i = choose|i: int| 0 <= i <= s.len() && #[trigger] stands_at(s, p, i);
        let x = s.take(i);
        let y = s.skip(i + p.len());
        assert(s.skip(i).take(p.len() as int) =~= p);
        assert forall|j: int| 0 <= j < p.len() implies s[i + j] == p[j] by {
            assert(s.skip(i).take(p.len() as int)[j] == p[j]);
        }
        assert(s =~= x + p + y);
    }
}

/// Numbers are written in digits, without needless zeros in front.
pub proof fn law_numbers_are_written_in_digits(n: nat)
    ensures
        all_digits(decimal(n)),
        n > 0 ==> decimal(n)[0] != '0',
        n < 10 ==> decimal(n).len() == 1,
        n >= 10 ==> decimal(n).len() == decimal(n / 10).len() + 1,
    decreases n,
{
    if n >= 10 {
        law_numbers_are_written_in_digits(n / 10);
        let d = decimal(n);
        let e = decimal(n / 10);
        assert forall|i: int| 0 <= i < d.len() implies is_digit(#[trigger] d[i]) by {
            if i < e.len() {
                assert(d[i] == e[i]);
            }
        }
        assert(d[0] == e[0]);
    }
}

/// What is written of a number is read as that number, with or without a plus sign, unless it is
/// larger than allowed.
pub proof fn law_written_numbers_are_read(n: nat, max: nat)
    ensures
        parsed(decimal(n), max) == (if n <= max {
            Some(n)
        } else {
            None
        }),
        parsed(seq!['+'] + decimal(n), max) == parsed(decimal(n), max),
{
    lemma_decimal_value(n);
    law_numbers_are_written_in_digits(n);
    let d = decimal(n);
    assert(is_digit(d[0]));
    assert((seq!['+'] + d).drop_first() =~= d);
}

/// Nothing but digits is read as a number, and nothing at all is none.
pub proof fn law_only_digits_are_numbers(s: Seq<char>, max: nat, k: int)
    requires
        0 <= k < s.len(),
        !is_digit(s[k]),
        k > 0 || s[0] != '+',
    ensures
        parsed(s, max) is None,
        parsed(Seq::empty(), max) is None,
{
    let d = unsigned_digits(s);
    if s[0] == '+' {
        assert(d[k - 1] == s[k]);
    }
}

/// The order of texts is that of their first different characters; the beginning of a text comes
/// before it.
pub proof fn law_texts_are_ordered_by_their_first_difference(
    a: Seq<char>,
    x: char,
    y: char,
    b: Seq<char>,
    c: Seq<char>,
)
    requires
        x < y,
    ensures
        text_le(a, a + b),
        text_le(a + seq![x] + b, a + seq![y] + c),
        !text_le(a + seq![y] + c, a + seq![x] + b),
    decreases a.len(),
{
    let s = a + seq![x] + b;
    let t = a + seq![y] + c;
    if a.len() > 0 {
        let r = a.drop_first();
        law_texts_are_ordered_by_their_first_difference(r, x, y, b, c);
        assert(s.drop_first() =~= r + seq![x] + b);
        assert(t.drop_first() =~= r + seq![y] + c);
        assert((a + b).drop_first() =~= r + b);
        assert(s[0] == a[0] && t[0] == a[0]);
    } else {
        assert(s[0] == x && t[0] == y);
    }
}

/// Pieces that do not hold the character between them come back when what they were joined to is
/// split.
pub proof fn law_joined_pieces_are_split_again(v: Seq<Seq<char>>, c: char)
    requires
        v.len() > 0,
        forall|k: int| 0 <= k < v.len() ==> !(#[trigger] v[k]).contains(c),
    ensures
        split(joined(v, seq![c]), c) == v,
    decreases v.len(),
{
    assert(!v[0].contains(c));
    if v.len() == 1 {
        law_texts_are_cut_at_the_first(v[0], v[0], c);
        assert(v =~= seq![v[0]]);
    } else {
        let rest = v.drop_first();
        assert forall|k: int| 0 <= k < rest.len() implies !(#[trigger] rest[k]).contains(c) by {
            assert(rest[k] == v[k + 1]);
        }
        law_joined_pieces_are_split_again(rest, c);
        law_joining_keeps_the_texts(seq![v[0]], rest, seq![c]);
        assert(v =~= seq![v[0]] + rest);
        let s = v[0] + seq![c] + joined(rest, seq![c]);
        law_texts_are_cut_at_the_first(v[0], joined(rest, seq![c]), c);
        assert(s.take(v[0].len() as int) =~= v[0]);
        assert(s.skip((v[0].len() + 1) as int) =~= joined(rest, seq![c]));
    }
}

} // verus!
