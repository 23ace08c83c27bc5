//! Character-level building blocks shared by the other modules: conversion
//! between strings and character vectors, Unicode white space, trimming,
//! splitting on white space, joining, ASCII case folding and decimal numerals.

use vstd::prelude::*;

verus! {

/// `String::push` appends one character.
pub assume_specification[ String::push ](s: &mut String, ch: char)
    ensures
        final(s)@ == old(s)@.push(ch),
;

// ---------------------------------------------------------------------------
// Strings and character vectors
// ---------------------------------------------------------------------------

/// The characters of a string slice, in order.
pub fn chars_of(s: &str) -> (v: Vec<char>)
    ensures
        v@ == s@,
{
    let mut v: Vec<char> = Vec::new();
    for c in it: s.chars()
        invariant
            v@ == it.seq().take(it.index() as int),
            it.seq() == s@,
    {
        v.push(c);
    }
    v
}

/// A string made of the characters of `v[from..to]`.
pub fn string_of_range(v: &Vec<char>, from: usize, to: usize) -> (s: String)
    requires
        from <= to <= v.len(),
    ensures
        s@ == v@.subrange(from as int, to as int),
{
    let mut s = String::new();
    let mut i: usize = from;
    while i < to
        invariant
            from <= i <= to <= v.len(),
            s@ == v@.subrange(from as int, i as int),
        decreases to - i,
    {
        s.push(v[i]);
        assert(v@.subrange(from as int, i + 1) == v@.subrange(from as int, i as int).push(v@[i as int]));
        i = i + 1;
    }
    s
}

/// A string made of all the characters of `v`.
pub fn string_of(v: &Vec<char>) -> (s: String)
    ensures
        s@ == v@,
{
    let s = string_of_range(v, 0, v.len());
    assert(v@.subrange(0, v@.len() as int) == v@);
    s
}

/// Appends the characters of `t` to `s`.
pub fn push_str(s: &mut String, t: &str)
    ensures
        final(s)@ == old(s)@ + t@,
{
    let v = chars_of(t);
    let ghost s0 = s@;
    let mut i: usize = 0;
    while i < v.len()
        invariant
            i <= v.len(),
            v@ == t@,
            s@ == s0 + v@.take(i as int),
        decreases v.len() - i,
    {
        s.push(v[i]);
        assert(v@.take(i + 1) == v@.take(i as int).push(v@[i as int]));
        i = i + 1;
    }
    assert(v@.take(v.len() as int) == v@);
}

/// An owned copy of a string slice.
pub fn owned(t: &str) -> (s: String)
    ensures
        s@ == t@,
{
    let mut s = String::new();
    push_str(&mut s, t);
    s
}

/// Whether two strings hold the same characters.
pub fn str_eq(a: &str, b: &str) -> (r: bool)
    ensures
        r == (a@ == b@),
{
    let x = chars_of(a);
    let y = chars_of(b);
    if x.len() != y.len() {
        return false;
    }
    let mut i: usize = 0;
    while i < x.len()
        invariant
            x@ == a@,
            y@ == b@,
            x.len() == y.len(),
            i <= x.len(),
            forall|j: int| 0 <= j < i ==> x@[j] == y@[j],
        decreases x.len() - i,
    {
        if x[i] != y[i] {
            return false;
        }
        i = i + 1;
    }
    assert(x@ == y@);
    true
}

/// Whether `s` begins with the characters of `p`.
pub open spec fn starts_with(s: Seq<char>, p: Seq<char>) -> bool {
    p.len() <= s.len() && s.take(p.len() as int) == p
}

/// Whether `s` ends with the characters of `p`.
pub open spec fn ends_with(s: Seq<char>, p: Seq<char>) -> bool {
    p.len() <= s.len() && s.skip(s.len() - p.len()) == p
}

/// Executable [`starts_with`] on character vectors.
pub fn vec_starts_with(s: &Vec<char>, p: &Vec<char>) -> (r: bool)
    ensures
        r == starts_with(s@, p@),
{
    if p.len() > s.len() {
        return false;
    }
    let mut i: usize = 0;
    while i < p.len()
        invariant
            p.len() <= s.len(),
            i <= p.len(),
            forall|j: int| 0 <= j < i ==> s@[j] == p@[j],
        decreases p.len() - i,
    {
        if s[i] != p[i] {
            assert(s@.take(p.len() as int)[i as int] != p@[i as int]);
            return false;
        }
        i = i + 1;
    }
    assert(s@.take(p.len() as int) == p@);
    true
}

// ---------------------------------------------------------------------------
// White space and trimming
// ---------------------------------------------------------------------------

/// Unicode `White_Space`, the property that `char::is_whitespace` tests.
pub open spec fn is_white(c: char) -> bool {
    let u = c as u32;
    ||| 0x09 <= u <= 0x0D
    ||| u == 0x20
    ||| u == 0x85
    ||| u == 0xA0
    ||| u == 0x1680
    ||| 0x2000 <= u <= 0x200A
    ||| u == 0x2028
    ||| u == 0x2029
    ||| u == 0x202F
    ||| u == 0x205F
    ||| u == 0x3000
}

/// Executable [`is_white`].
pub fn is_white_char(c: char) -> (r: bool)
    ensures
        r == is_white(c),
{
    let u = c as u32;
    (0x09 <= u && u <= 0x0D) || u == 0x20 || u == 0x85 || u == 0xA0 || u == 0x1680 || (0x2000 <= u
        && u <= 0x200A) || u == 0x2028 || u == 0x2029 || u == 0x202F || u == 0x205F || u == 0x3000
}

/// `s` without its leading characters that satisfy `p`.
pub open spec fn trim_start_by(s: Seq<char>, p: spec_fn(char) -> bool) -> Seq<char>
    decreases s.len(),
{
    if s.len() > 0 && p(s[0]) {
        trim_start_by(s.drop_first(), p)
    } else {
        s
    }
}

/// `s` without its trailing characters that satisfy `p`.
pub open spec fn trim_end_by(s: Seq<char>, p: spec_fn(char) -> bool) -> Seq<char>
    decreases s.len(),
{
    if s.len() > 0 && p(s.last()) {
        trim_end_by(s.drop_last(), p)
    } else {
        s
    }
}

/// `s` without its leading and trailing characters that satisfy `p`.
pub open spec fn trim_by(s: Seq<char>, p: spec_fn(char) -> bool) -> Seq<char> {
    trim_end_by(trim_start_by(s, p), p)
}

/// `str::trim`: `s` without leading and trailing white space.
pub open spec fn trim(s: Seq<char>) -> Seq<char> {
    trim_by(s, |c: char| is_white(c))
}

/// Whether `c` is `'-'` or `'_'`.
pub open spec fn is_dash_or_underscore(c: char) -> bool {
    c == '-' || c == '_'
}

proof fn lemma_trim_start_step(s: Seq<char>, i: int, p: spec_fn(char) -> bool)
    requires
        0 <= i < s.len(),
        p(s[i]),
    ensures
        trim_start_by(s.subrange(i, s.len() as int), p) == trim_start_by(
            s.subrange(i + 1, s.len() as int),
            p,
        ),
{
    assert(s.subrange(i, s.len() as int).drop_first() == s.subrange(i + 1, s.len() as int));
}

proof fn lemma_trim_end_step(s: Seq<char>, j: int, p: spec_fn(char) -> bool)
    requires
        0 < j <= s.len(),
        p(s[j - 1]),
    ensures
        trim_end_by(s.take(j), p) == trim_end_by(s.take(j - 1), p),
{
    assert(s.take(j).drop_last() == s.take(j - 1));
}

/// Whether `c` is trimmed away by the rule `dash` selects: white space when
/// `dash` is false, `'-'` and `'_'` when it is true.
pub open spec fn trim_rule(dash: bool) -> spec_fn(char) -> bool {
    if dash {
        |c: char| is_dash_or_underscore(c)
    } else {
        |c: char| is_white(c)
    }
}

/// Executable [`trim_rule`].
fn trims(c: char, dash: bool) -> (r: bool)
    ensures
        r == trim_rule(dash)(c),
{
    if dash {
        c == '-' || c == '_'
    } else {
        is_white_char(c)
    }
}

/// The bounds of the trimmed part of `v` under the rule `dash` selects.
fn trim_bounds(v: &Vec<char>, dash: bool) -> (r: (usize, usize))
    ensures
        r.0 <= r.1 <= v.len(),
        v@.subrange(r.0 as int, r.1 as int) == trim_by(v@, trim_rule(dash)),
{
    let ghost p = trim_rule(dash);
    let mut a: usize = 0;
    assert(v@.subrange(0, v@.len() as int) == v@);
    while a < v.len() && trims(v[a], dash)
        invariant
            a <= v.len(),
            p == trim_rule(dash),
            trim_start_by(v@, p) == trim_start_by(v@.subrange(a as int, v@.len() as int), p),
        decreases v.len() - a,
    {
        proof {
            lemma_trim_start_step(v@, a as int, p);
        }
        a = a + 1;
    }
    let ghost rest = v@.subrange(a as int, v@.len() as int);
    assert(trim_start_by(v@, p) == rest) by {
        if rest.len() > 0 {
            assert(rest[0] == v@[a as int]);
        }
    }
    let mut b: usize = v.len();
    assert(rest.take(rest.len() as int) == rest);
    while b > a && trims(v[b - 1], dash)
        invariant
            a <= b <= v.len(),
            p == trim_rule(dash),
            rest == v@.subrange(a as int, v@.len() as int),
            trim_end_by(rest, p) == trim_end_by(rest.take(b - a), p),
        decreases b,
    {
        proof {
            assert(rest[b - a - 1] == v@[b - 1]);
            lemma_trim_end_step(rest, b - a, p);
        }
        b = b - 1;
    }
    assert(rest.take(b - a) == v@.subrange(a as int, b as int));
    assert(trim_end_by(rest.take(b - a), p) == rest.take(b - a)) by {
        if b > a {
            assert(rest.take(b - a).last() == v@[b - 1]);
        }
    }
    (a, b)
}

/// `str::trim` on a character vector, as a string.
pub fn trimmed(v: &Vec<char>) -> (s: String)
    ensures
        s@ == trim(v@),
{
    let (a, b) = trim_bounds(v, false);
    assert(trim_rule(false) == (|c: char| is_white(c)));
    string_of_range(v, a, b)
}

/// `str::trim` on a string slice, as a character vector.
pub fn trimmed_chars(s: &str) -> (r: Vec<char>)
    ensures
        r@ == trim(s@),
{
    let v = chars_of(s);
    let (a, b) = trim_bounds(&v, false);
    assert(trim_rule(false) == (|c: char| is_white(c)));
    let mut r: Vec<char> = Vec::new();
    let mut i: usize = a;
    while i < b
        invariant
            a <= i <= b <= v.len(),
            r@ == v@.subrange(a as int, i as int),
        decreases b - i,
    {
        r.push(v[i]);
        assert(v@.subrange(a as int, i + 1) == v@.subrange(a as int, i as int).push(v@[i as int]));
        i = i + 1;
    }
    r
}

/// Every character of a trimmed sequence comes from the original, and the
/// trimmed sequence neither starts nor ends with a trimmed character.
pub proof fn lemma_trim_by(s: Seq<char>, p: spec_fn(char) -> bool)
    ensures
        forall|i: int|
            0 <= i < trim_by(s, p).len() ==> exists|j: int|
                0 <= j < s.len() && s[j] == #[trigger] trim_by(s, p)[i],
        trim_by(s, p).len() > 0 ==> !p(trim_by(s, p)[0]) && !p(trim_by(s, p).last()),
{
    let a = trim_start_by(s, p);
    lemma_trim_start_suffix(s, p);
    lemma_trim_end_prefix(a, p);
    let b = trim_end_by(a, p);
    assert forall|i: int| 0 <= i < b.len() implies exists|j: int|
        0 <= j < s.len() && s[j] == #[trigger] b[i] by {
        assert(b[i] == a[i]);
        assert(a[i] == s[s.len() - a.len() + i]);
    }
    if b.len() > 0 {
        assert(b[0] == a[0]);
    }
}

/// `trim_start_by` keeps a suffix whose first character is not trimmed.
pub proof fn lemma_trim_start_suffix(s: Seq<char>, p: spec_fn(char) -> bool)
    ensures
        trim_start_by(s, p).len() <= s.len(),
        trim_start_by(s, p) == s.skip(s.len() - trim_start_by(s, p).len()),
        trim_start_by(s, p).len() > 0 ==> !p(trim_start_by(s, p)[0]),
    decreases s.len(),
{
    if s.len() > 0 && p(s[0]) {
        lemma_trim_start_suffix(s.drop_first(), p);
        assert(s.drop_first().skip(s.drop_first().len() - trim_start_by(s, p).len()) =~= s.skip(
            s.len() - trim_start_by(s, p).len(),
        ));
    } else {
        assert(s.skip(0) == s);
    }
}

/// `trim_end_by` keeps a prefix whose last character is not trimmed.
pub proof fn lemma_trim_end_prefix(s: Seq<char>, p: spec_fn(char) -> bool)
    ensures
        trim_end_by(s, p).len() <= s.len(),
        trim_end_by(s, p) == s.take(trim_end_by(s, p).len() as int),
        trim_end_by(s, p).len() > 0 ==> !p(trim_end_by(s, p).last()),
    decreases s.len(),
{
    if s.len() > 0 && p(s.last()) {
        lemma_trim_end_prefix(s.drop_last(), p);
        assert(s.drop_last().take(trim_end_by(s, p).len() as int) =~= s.take(
            trim_end_by(s, p).len() as int,
        ));
    } else {
        assert(s.take(s.len() as int) == s);
    }
}

/// `trim_matches(|c| c == '-' || c == '_')` on a character vector.
pub fn trimmed_dashes(v: &Vec<char>) -> (s: String)
    ensures
        s@ == trim_by(v@, |c: char| is_dash_or_underscore(c)),
{
    let (a, b) = trim_bounds(v, true);
    assert(trim_rule(true) == (|c: char| is_dash_or_underscore(c)));
    string_of_range(v, a, b)
}

// ---------------------------------------------------------------------------
// Splitting on white space and joining
// ---------------------------------------------------------------------------

/// The pieces completed so far and the piece in progress after reading `s`
/// from left to right, splitting at the characters that satisfy `p`.
pub open spec fn split_state(s: Seq<char>, p: spec_fn(char) -> bool) -> (Seq<Seq<char>>, Seq<char>)
    decreases s.len(),
{
    if s.len() == 0 {
        (Seq::empty(), Seq::empty())
    } else {
        let (done, cur) = split_state(s.drop_last(), p);
        let c = s.last();
        if p(c) {
            (if cur.len() > 0 {
                done.push(cur)
            } else {
                done
            }, Seq::empty())
        } else {
            (done, cur.push(c))
        }
    }
}

/// The maximal non-empty runs of characters of `s` that do not satisfy `p`.
pub open spec fn pieces(s: Seq<char>, p: spec_fn(char) -> bool) -> Seq<Seq<char>> {
    let (done, cur) = split_state(s, p);
    if cur.len() > 0 {
        done.push(cur)
    } else {
        done
    }
}

/// Every piece is non-empty and holds no character that satisfies `p`.
pub proof fn lemma_pieces(s: Seq<char>, p: spec_fn(char) -> bool)
    ensures
        forall|i: int|
            0 <= i < pieces(s, p).len() ==> (#[trigger] pieces(s, p)[i]).len() > 0 && forall|
                j: int,
            | 0 <= j < pieces(s, p)[i].len() ==> !p(#[trigger] pieces(s, p)[i][j]),
{
    lemma_split_state(s, p);
}

proof fn lemma_split_state(s: Seq<char>, p: spec_fn(char) -> bool)
    ensures
        forall|i: int|
            0 <= i < split_state(s, p).0.len() ==> (#[trigger] split_state(s, p).0[i]).len() > 0
                && forall|j: int|
                0 <= j < split_state(s, p).0[i].len() ==> !p(#[trigger] split_state(s, p).0[i][j]),
        forall|j: int| 0 <= j < split_state(s, p).1.len() ==> !p(#[trigger] split_state(s, p).1[j]),
    decreases s.len(),
{
    if s.len() > 0 {
        lemma_split_state(s.drop_last(), p);
        let (done, cur) = split_state(s.drop_last(), p);
        let c = s.last();
        if !p(c) {
            assert forall|j: int| 0 <= j < cur.push(c).len() implies !p(#[trigger] cur.push(c)[j]) by {
                if j < cur.len() {
                    assert(cur.push(c)[j] == cur[j]);
                }
            }
        } else if cur.len() > 0 {
            assert forall|i: int| 0 <= i < done.push(cur).len() implies (#[trigger] done.push(
                cur,
            )[i]).len() > 0 && forall|j: int|
                0 <= j < done.push(cur)[i].len() ==> !p(#[trigger] done.push(cur)[i][j]) by {
                if i < done.len() {
                    assert(done.push(cur)[i] == done[i]);
                }
            }
        }
    }
}

/// Reading a run of characters that are not separators extends the piece
/// in progress.
proof fn lemma_split_state_run(s: Seq<char>, w: Seq<char>, p: spec_fn(char) -> bool)
    requires
        forall|j: int| 0 <= j < w.len() ==> !p(#[trigger] w[j]),
    ensures
        split_state(s + w, p) == (split_state(s, p).0, split_state(s, p).1 + w),
    decreases w.len(),
{
    if w.len() == 0 {
        assert(s + w =~= s);
        assert(split_state(s, p).1 + w =~= split_state(s, p).1);
    } else {
        lemma_split_state_run(s, w.drop_last(), p);
        assert((s + w).drop_last() =~= s + w.drop_last());
        assert((s + w).last() == w.last());
        assert(split_state(s, p).1 + w.drop_last() + seq![w.last()] =~= split_state(s, p).1 + w);
        assert((split_state(s, p).1 + w.drop_last()).push(w.last()) =~= split_state(s, p).1 + w);
    }
}

/// Splitting what follows two texts that leave the splitter in the same
/// state gives the same result.
pub proof fn lemma_split_state_after(a: Seq<char>, b: Seq<char>, t: Seq<char>, p: spec_fn(char) -> bool)
    requires
        split_state(a, p) == split_state(b, p),
    ensures
        split_state(a + t, p) == split_state(b + t, p),
    decreases t.len(),
{
    if t.len() == 0 {
        assert(a + t =~= a);
        assert(b + t =~= b);
    } else {
        lemma_split_state_after(a, b, t.drop_last(), p);
        assert((a + t).drop_last() =~= a + t.drop_last());
        assert((b + t).drop_last() =~= b + t.drop_last());
        assert((a + t).last() == t.last());
        assert((b + t).last() == t.last());
    }
}

/// Words joined by one separator neither start nor end with it, nor hold it
/// twice in a row, when each word is non-empty and holds no separator.
pub proof fn lemma_join_shape(ws: Seq<Seq<char>>, c: char)
    requires
        ws.len() > 0,
        forall|i: int|
            0 <= i < ws.len() ==> (#[trigger] ws[i]).len() > 0 && forall|j: int|
                0 <= j < ws[i].len() ==> #[trigger] ws[i][j] != c,
    ensures
        join(ws, seq![c]).len() > 0,
        join(ws, seq![c])[0] != c,
        join(ws, seq![c]).last() != c,
        forall|i: int|
            0 <= i < join(ws, seq![c]).len() - 1 ==> !(#[trigger] join(ws, seq![c])[i] == c && join(
                ws,
                seq![c],
            )[i + 1] == c),
    decreases ws.len(),
{
    let last = ws.last();
    assert(ws[ws.len() - 1] == last);
    assert(last[last.len() - 1] != c);
    assert(last[0] != c);
    if ws.len() > 1 {
        let front = ws.drop_last();
        assert forall|i: int| 0 <= i < front.len() implies (#[trigger] front[i]).len() > 0 && forall|
            j: int,
        | 0 <= j < front[i].len() ==> #[trigger] front[i][j] != c by {
            assert(front[i] == ws[i]);
        }
        lemma_join_shape(front, c);
        let jf = join(front, seq![c]);
        let whole = join(ws, seq![c]);
        assert(whole == jf + seq![c] + last);
        assert(whole[0] == jf[0]);
        assert(whole.last() == last.last());
        assert forall|i: int| 0 <= i < whole.len() - 1 implies !(#[trigger] whole[i] == c && whole[i
            + 1] == c) by {
            if i < jf.len() - 1 {
                assert(whole[i] == jf[i] && whole[i + 1] == jf[i + 1]);
            } else if i == jf.len() - 1 {
                assert(whole[i] == jf.last());
            } else if i == jf.len() {
                assert(whole[i + 1] == last[0]);
            } else {
                let k = i - jf.len() - 1;
                assert(whole[i] == last[k]);
            }
        }
    } else {
        assert(join(ws, seq![c]) == ws[0]);
    }
}

/// Splitting words joined by one separator gives the words back, when each
/// word is non-empty and holds no separator.
pub proof fn lemma_pieces_of_join(ws: Seq<Seq<char>>, c: char, p: spec_fn(char) -> bool)
    requires
        p(c),
        forall|i: int|
            0 <= i < ws.len() ==> (#[trigger] ws[i]).len() > 0 && forall|j: int|
                0 <= j < ws[i].len() ==> !p(#[trigger] ws[i][j]),
    ensures
        pieces(join(ws, seq![c]), p) == ws,
{
    if ws.len() > 0 {
        lemma_split_state_of_join(ws, c, p);
        assert(ws.drop_last().push(ws.last()) =~= ws);
    } else {
        assert(join(ws, seq![c]) =~= Seq::<char>::empty());
    }
}

proof fn lemma_split_state_of_join(ws: Seq<Seq<char>>, c: char, p: spec_fn(char) -> bool)
    requires
        ws.len() > 0,
        p(c),
        forall|i: int|
            0 <= i < ws.len() ==> (#[trigger] ws[i]).len() > 0 && forall|j: int|
                0 <= j < ws[i].len() ==> !p(#[trigger] ws[i][j]),
    ensures
        split_state(join(ws, seq![c]), p) == (ws.drop_last(), ws.last()),
    decreases ws.len(),
{
    let last = ws.last();
    assert(ws[ws.len() - 1] == last);
    if ws.len() == 1 {
        let e = Seq::<char>::empty();
        lemma_split_state_run(e, last, p);
        assert(e + last =~= last);
        assert(join(ws, seq![c]) == ws[0]);
        assert(split_state(e, p) == (Seq::<Seq<char>>::empty(), e));
        assert(e + last =~= last);
        assert(ws.drop_last() =~= Seq::<Seq<char>>::empty());
    } else {
        let front = ws.drop_last();
        assert forall|i: int| 0 <= i < front.len() implies (#[trigger] front[i]).len() > 0 && forall|
            j: int,
        | 0 <= j < front[i].len() ==> !p(#[trigger] front[i][j]) by {
            assert(front[i] == ws[i]);
        }
        lemma_split_state_of_join(front, c, p);
        let jf = join(front, seq![c]);
        assert(front[front.len() - 1] == ws[ws.len() - 2]);
        let withc = jf + seq![c];
        assert(withc.drop_last() =~= jf);
        assert(withc.last() == c);
        assert(front.drop_last().push(front.last()) =~= front);
        assert(split_state(withc, p) == (front, Seq::<char>::empty()));
        lemma_split_state_run(withc, last, p);
        assert(Seq::<char>::empty() + last =~= last);
        assert(join(ws, seq![c]) == withc + last);
    }
}

/// `str::split_whitespace`: the maximal runs of non-white-space characters.
pub open spec fn words(s: Seq<char>) -> Seq<Seq<char>> {
    pieces(s, |c: char| is_white(c))
}

/// The non-empty `/`-separated segments of `s`.
pub open spec fn segments(s: Seq<char>) -> Seq<Seq<char>> {
    pieces(s, |c: char| c == '/')
}

/// The views of a vector of strings.
pub open spec fn views(v: Seq<String>) -> Seq<Seq<char>> {
    v.map_values(|s: String| s@)
}

/// The separator rule `slash` selects: `/` when true, white space otherwise.
pub open spec fn sep_rule(slash: bool) -> spec_fn(char) -> bool {
    if slash {
        |c: char| c == '/'
    } else {
        |c: char| is_white(c)
    }
}

/// Executable [`sep_rule`].
fn is_sep(c: char, slash: bool) -> (r: bool)
    ensures
        r == sep_rule(slash)(c),
{
    if slash {
        c == '/'
    } else {
        is_white_char(c)
    }
}

/// Executable [`pieces`] for the rule `slash` selects.
fn split_pieces(s: &Vec<char>, slash: bool) -> (r: Vec<String>)
    ensures
        views(r@) == pieces(s@, sep_rule(slash)),
{
    let ghost p = sep_rule(slash);
    let mut done: Vec<String> = Vec::new();
    let mut cur: Vec<char> = Vec::new();
    let mut i: usize = 0;
    while i < s.len()
        invariant
            i <= s.len(),
            p == sep_rule(slash),
            (views(done@), cur@) == split_state(s@.take(i as int), p),
        decreases s.len() - i,
    {
        let c = s[i];
        assert(s@.take(i + 1).drop_last() == s@.take(i as int));
        if is_sep(c, slash) {
            if cur.len() > 0 {
                let w = string_of(&cur);
                done.push(w);
                assert(views(done@) == views(done@.drop_last()).push(w@));
            }
            cur = Vec::new();
        } else {
            cur.push(c);
        }
        i = i + 1;
    }
    assert(s@.take(s.len() as int) == s@);
    if cur.len() > 0 {
        let w = string_of(&cur);
        done.push(w);
        assert(views(done@) == views(done@.drop_last()).push(w@));
    }
    done
}

/// Executable [`words`].
pub fn split_whitespace(s: &Vec<char>) -> (r: Vec<String>)
    ensures
        views(r@) == words(s@),
{
    let r = split_pieces(s, false);
    assert(sep_rule(false) == (|c: char| is_white(c)));
    r
}

/// Executable [`segments`].
pub fn split_segments(s: &Vec<char>) -> (r: Vec<String>)
    ensures
        views(r@) == segments(s@),
{
    let r = split_pieces(s, true);
    assert(sep_rule(true) == (|c: char| c == '/'));
    r
}

/// The words of `ws` joined with `sep` between them.
pub open spec fn join(ws: Seq<Seq<char>>, sep: Seq<char>) -> Seq<char>
    decreases ws.len(),
{
    if ws.len() == 0 {
        Seq::empty()
    } else if ws.len() == 1 {
        ws[0]
    } else {
        join(ws.drop_last(), sep) + sep + ws.last()
    }
}

/// Executable [`join`].
pub fn join_strings(ws: &Vec<String>, sep: &str) -> (r: String)
    ensures
        r@ == join(views(ws@), sep@),
{
    let mut r = String::new();
    let mut i: usize = 0;
    while i < ws.len()
        invariant
            i <= ws.len(),
            r@ == join(views(ws@.take(i as int)), sep@),
        decreases ws.len() - i,
    {
        assert(views(ws@.take(i + 1)).drop_last() == views(ws@.take(i as int)));
        if i > 0 {
            push_str(&mut r, sep);
        }
        push_str(&mut r, ws[i].as_str());
        i = i + 1;
    }
    assert(ws@.take(ws.len() as int) == ws@);
    r
}

// ---------------------------------------------------------------------------
// ASCII case
// ---------------------------------------------------------------------------

/// `char::to_ascii_lowercase`.
pub open spec fn ascii_lower(c: char) -> char {
    if 'A' <= c && c <= 'Z' {
        ((c as u32) + 32) as char
    } else {
        c
    }
}

/// Executable [`ascii_lower`].
pub fn ascii_lower_char(c: char) -> (r: char)
    ensures
        r == ascii_lower(c),
{
    if 'A' <= c && c <= 'Z' {
        ((c as u8) + 32) as char
    } else {
        c
    }
}

/// `str::to_ascii_lowercase`.
pub open spec fn ascii_lowercase(s: Seq<char>) -> Seq<char> {
    s.map_values(|c: char| ascii_lower(c))
}

/// `str::eq_ignore_ascii_case`.
pub open spec fn eq_ignore_ascii_case(a: Seq<char>, b: Seq<char>) -> bool {
    a.len() == b.len() && forall|i: int| 0 <= i < a.len() ==> ascii_lower(a[i]) == ascii_lower(b[i])
}

/// Executable [`eq_ignore_ascii_case`].
pub fn vec_eq_ignore_ascii_case(a: &Vec<char>, b: &Vec<char>) -> (r: bool)
    ensures
        r == eq_ignore_ascii_case(a@, b@),
{
    if a.len() != b.len() {
        return false;
    }
    let mut i: usize = 0;
    while i < a.len()
        invariant
            a.len() == b.len(),
            i <= a.len(),
            forall|j: int| 0 <= j < i ==> ascii_lower(a@[j]) == ascii_lower(b@[j]),
        decreases a.len() - i,
    {
        if ascii_lower_char(a[i]) != ascii_lower_char(b[i]) {
            return false;
        }
        i = i + 1;
    }
    true
}

/// Whether `c` is an ASCII letter or digit.
pub open spec fn is_ascii_alnum(c: char) -> bool {
    ('a' <= c && c <= 'z') || ('A' <= c && c <= 'Z') || ('0' <= c && c <= '9')
}

/// Executable [`is_ascii_alnum`].
pub fn is_ascii_alnum_char(c: char) -> (r: bool)
    ensures
        r == is_ascii_alnum(c),
{
    ('a' <= c && c <= 'z') || ('A' <= c && c <= 'Z') || ('0' <= c && c <= '9')
}

/// Whether `c` is an ASCII hexadecimal digit.
pub open spec fn is_ascii_hex(c: char) -> bool {
    ('a' <= c && c <= 'f') || ('A' <= c && c <= 'F') || ('0' <= c && c <= '9')
}

// ---------------------------------------------------------------------------
// Decimal numerals
// ---------------------------------------------------------------------------

/// The ASCII digit for `d < 10`.
pub open spec fn digit(d: nat) -> char {
    (('0' as u32) + d) as char
}

/// The decimal numeral of `n`, as `Display` writes an unsigned integer.
pub open spec fn decimal(n: nat) -> Seq<char>
    decreases n,
{
    if n < 10 {
        seq![digit(n)]
    } else {
        decimal(n / 10).push(digit(n % 10))
    }
}

/// Step `k` of peeling decimal digits: `ms[k]` has at least two digits,
/// `ms[k + 1]` drops its last one, and `rev[k]` is that digit.
pub open spec fn digit_step(ms: Seq<nat>, rev: Seq<char>, k: int) -> bool {
    ms[k] >= 10 && ms[k + 1] == ms[k] / 10 && rev[k] == digit(ms[k] % 10)
}

/// Every step recorded in `rev` is a [`digit_step`].
pub open spec fn digit_steps(ms: Seq<nat>, rev: Seq<char>) -> bool {
    forall|k: int| 0 <= k < rev.len() ==> #[trigger] digit_step(ms, rev, k)
}

/// The character of a digit `d < 10`.
fn digit_char(d: u64) -> (c: char)
    requires
        d < 10,
    ensures
        c == digit(d as nat),
{
    let b: u8 = 48u8 + d as u8;
    let c = b as char;
    assert(c as u32 == 48 + d);
    c
}

/// Executable [`decimal`].
pub fn decimal_string(n: u64) -> (s: String)
    ensures
        s@ == decimal(n as nat),
{
    // Digits, least significant first; ms[k] is the number left after k steps.
    let mut rev: Vec<char> = Vec::new();
    let mut m: u64 = n;
    let ghost mut ms: Seq<nat> = seq![n as nat];
    while m >= 10
        invariant
            rev.len() + 1 == ms.len(),
            ms[0] == n as nat,
            ms.last() == m as nat,
            digit_steps(ms, rev@),
        decreases m,
    {
        let d = digit_char(m % 10);
        let ghost old_ms = ms;
        let ghost old_rev = rev@;
        rev.push(d);
        proof {
            ms = ms.push((m / 10) as nat);
            assert forall|k: int| 0 <= k < rev@.len() implies digit_step(ms, rev@, k) by {
                if k < old_rev.len() {
                    assert(digit_step(old_ms, old_rev, k));
                }
            }
        }
        m = m / 10;
    }
    let mut s = String::new();
    s.push(digit_char(m));
    let mut i: usize = rev.len();
    while i > 0
        invariant
            i <= rev.len(),
            rev.len() + 1 == ms.len(),
            ms[0] == n as nat,
            ms.last() == m as nat,
            m < 10,
            digit_steps(ms, rev@),
            s@ == decimal(ms[i as int]),
        decreases i,
    {
        assert(digit_step(ms, rev@, i - 1));
        s.push(rev[i - 1]);
        i = i - 1;
    }
    s
}

// ---------------------------------------------------------------------------
// Ordering strings
// ---------------------------------------------------------------------------

/// `a < b` as `String`'s `Ord` orders them: lexicographically by character
/// (code point), a proper prefix coming first.
pub open spec fn seq_lt(a: Seq<char>, b: Seq<char>) -> bool
    decreases a.len(),
{
    if a.len() == 0 {
        b.len() > 0
    } else if b.len() == 0 {
        false
    } else if a[0] != b[0] {
        (a[0] as u32) < (b[0] as u32)
    } else {
        seq_lt(a.drop_first(), b.drop_first())
    }
}

/// [`seq_lt`] is transitive.
pub proof fn lemma_seq_lt_transitive(a: Seq<char>, b: Seq<char>, c: Seq<char>)
    requires
        seq_lt(a, b),
        seq_lt(b, c),
    ensures
        seq_lt(a, c),
    decreases a.len(),
{
    if a.len() > 0 && b.len() > 0 && c.len() > 0 && a[0] == b[0] && b[0] == c[0] {
        lemma_seq_lt_transitive(a.drop_first(), b.drop_first(), c.drop_first());
    }
}

/// [`seq_lt`] is irreflexive.
pub proof fn lemma_seq_lt_irreflexive(a: Seq<char>)
    ensures
        !seq_lt(a, a),
    decreases a.len(),
{
    if a.len() > 0 {
        lemma_seq_lt_irreflexive(a.drop_first());
    }
}

/// Executable [`seq_lt`].
pub fn str_lt(a: &str, b: &str) -> (r: bool)
    ensures
        r == seq_lt(a@, b@),
{
    let x = chars_of(a);
    let y = chars_of(b);
    let mut i: usize = 0;
    assert(x@.skip(0) == x@ && y@.skip(0) == y@);
    while i < x.len() && i < y.len() && x[i] == y[i]
        invariant
            i <= x.len(),
            i <= y.len(),
            x@ == a@,
            y@ == b@,
            seq_lt(a@, b@) == seq_lt(x@.skip(i as int), y@.skip(i as int)),
        decreases x.len() - i,
    {
        assert(x@.skip(i as int).drop_first() == x@.skip(i + 1));
        assert(y@.skip(i as int).drop_first() == y@.skip(i + 1));
        i = i + 1;
    }
    if i == x.len() {
        i < y.len()
    } else if i == y.len() {
        false
    } else {
        (x[i] as u32) < (y[i] as u32)
    }
}

/// No pair of elements is out of order.
pub open spec fn sorted_seqs(s: Seq<Seq<char>>) -> bool {
    forall|i: int, j: int| 0 <= i < j < s.len() ==> !seq_lt(#[trigger] s[j], #[trigger] s[i])
}

/// `v` sorted ascending, as `slice::sort` orders strings.
pub fn sort_strings(v: Vec<String>) -> (r: Vec<String>)
    ensures
        sorted_seqs(views(r@)),
        views(r@).to_multiset() == views(v@).to_multiset(),
{
    let mut v = v;
    let ghost orig = views(v@);
    let mut r: Vec<String> = Vec::new();
    let mut done: usize = 0;
    let n = v.len();
    assert(views(r@) =~= orig.take(0));
    assert(orig.skip(0) == orig);
    while v.len() > 0
        invariant
            done <= n,
            orig.len() == n,
            views(v@) == orig.skip(done as int),
            sorted_seqs(views(r@)),
            views(r@).to_multiset() == orig.take(done as int).to_multiset(),
        decreases v.len(),
    {
        let ghost vb = views(v@);
        assert(vb.len() == v@.len());
        assert(done < n);
        assert(orig.skip(done as int)[0] == orig[done as int]);
        assert(vb[0] == orig[done as int]);
        let x = v.remove(0);
        proof {
            assert(views(v@) =~= vb.drop_first());
            assert(orig.skip(done as int).drop_first() =~= orig.skip(done + 1));
            assert(vb[0] == x@);
            assert(x@ == orig[done as int]);
            assert(orig.take(done + 1) =~= orig.take(done as int).push(x@));
        }
        let mut p: usize = 0;
        while p < r.len() && !str_lt(x.as_str(), r[p].as_str())
            invariant
                p <= r.len(),
                forall|k: int| 0 <= k < p ==> !seq_lt(x@, #[trigger] views(r@)[k]),
            decreases r.len() - p,
        {
            p = p + 1;
        }
        let ghost before = views(r@);
        r.insert(p, x);
        proof {
            assert(views(r@) =~= before.insert(p as int, x@));
            vstd::seq_lib::to_multiset_insert(before, p as int, x@);
            vstd::seq_lib::to_multiset_build(orig.take(done as int), x@);
            assert forall|i: int, j: int| 0 <= i < j < views(r@).len() implies !seq_lt(
                #[trigger] views(r@)[j],
                #[trigger] views(r@)[i],
            ) by {
                let s = views(r@);
                if j < p {
                    assert(s[i] == before[i] && s[j] == before[j]);
                } else if j == p {
                    assert(s[i] == before[i]);
                } else if i == p {
                    assert(s[j] == before[j - 1]);
                    assert(seq_lt(x@, before[p as int]));
                    if seq_lt(before[j - 1], x@) {
                        lemma_seq_lt_transitive(before[j - 1], x@, before[p as int]);
                        if j - 1 > p {
                            assert(!seq_lt(before[j - 1], before[p as int]));
                        } else {
                            lemma_seq_lt_irreflexive(before[p as int]);
                        }
                    }
                } else if i < p {
                    assert(s[i] == before[i] && s[j] == before[j - 1]);
                } else {
                    assert(s[i] == before[i - 1] && s[j] == before[j - 1]);
                }
            }
        }
        done = done + 1;
    }
    proof {
        assert(orig.take(n as int) == orig);
        assert(views(v@) =~= orig.skip(done as int));
        assert(done == n);
    }
    r
}

// ---------------------------------------------------------------------------
// Lines of output
// ---------------------------------------------------------------------------

/// `b` without its trailing line-feed and carriage-return bytes.
pub open spec fn without_line_end(b: Seq<u8>) -> Seq<u8>
    decreases b.len(),
{
    if b.len() > 0 && (b.last() == 10 || b.last() == 13) {
        without_line_end(b.drop_last())
    } else {
        b
    }
}

/// Removes the trailing `\n` and `\r` bytes of a line of a child's
/// output, however many there are.
pub fn strip_line_end(bytes: &mut Vec<u8>)
    ensures
        final(bytes)@ == without_line_end(old(bytes)@),
{
    let ghost goal = without_line_end(bytes@);
    loop
        invariant
            without_line_end(bytes@) == goal,
        ensures
            bytes@ == goal,
        decreases bytes.len(),
    {
        let n = bytes.len();
        if n == 0 {
            break;
        }
        let last = bytes[n - 1];
        if last == 10u8 || last == 13u8 {
            bytes.pop();
        } else {
            break;
        }
    }
}

} // verus!
