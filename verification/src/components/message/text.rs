//! Character-level helpers: conversion between strings and character
//! vectors, trimming and substring replacement, with their specifications.
use vstd::prelude::*;
use vstd::std_specs::iter::IteratorSpec;

verus! {

broadcast use vstd::string::group_string_axioms;

/// Appends one character to a string.
///
/// Trusted: calls `String::push`, whose documentation says it appends the
/// character to the end of the string.
#[verifier::external_body]
pub(crate) fn push_char(s: &mut String, c: char)
    ensures
        final(s)@ == old(s)@.push(c),
{
    s.push(c)
}

/// The characters of a string slice, in order.
pub fn str_to_chars(s: &str) -> (v: Vec<char>)
    ensures
        v@ == s@,
{
    let mut v: Vec<char> = Vec::new();
    let mut it = s.chars();
    loop
        invariant
            v@ + it.remaining() == s@,
            it.obeys_prophetic_iter_laws(),
            it.decrease() is Some,
        decreases it.decrease()->0,
    {
        let ghost before = it.remaining();
        match it.next() {
            Some(c) => {
                v.push(c);
                assert(v@ + it.remaining() =~= s@);
            },
            None => {
                assert(v@ =~= s@);
                return v;
            },
        }
    }
}

/// A string holding the given characters.
pub fn chars_to_string(v: &Vec<char>) -> (s: String)
    ensures
        s@ == v@,
{
    let mut s = String::new();
    let mut i: usize = 0;
    while i < v.len()
        invariant
            i <= v.len(),
            s@ == v@.take(i as int),
        decreases v.len() - i,
    {
        push_char(&mut s, v[i]);
        i = i + 1;
        assert(s@ =~= v@.take(i as int));
    }
    assert(v@.take(v.len() as int) =~= v@);
    s
}


/// Appends the characters of `t` to `out`.
pub fn append_chars(out: &mut Vec<char>, t: &Vec<char>)
    ensures
        final(out)@ == old(out)@ + t@,
{
    let mut i: usize = 0;
    while i < t.len()
        invariant
            i <= t.len(),
            out@ == old(out)@ + t@.take(i as int),
        decreases t.len() - i,
    {
        out.push(t[i]);
        i = i + 1;
        assert(out@ =~= old(out)@ + t@.take(i as int));
    }
    assert(t@.take(t.len() as int) =~= t@);
}

/// Whether two character sequences are equal.
pub fn chars_equal(a: &Vec<char>, b: &Vec<char>) -> (r: bool)
    ensures
        r == (a@ == b@),
{
    if a.len() != b.len() {
        return false;
    }
    let mut i: usize = 0;
    while i < a.len()
        invariant
            a.len() == b.len(),
            i <= a.len(),
            a@.take(i as int) == b@.take(i as int),
        decreases a.len() - i,
    {
        if a[i] != b[i] {
            assert(a@[i as int] != b@[i as int]);
            return false;
        }
        i = i + 1;
        assert(a@.take(i as int) =~= b@.take(i as int));
    }
    assert(a@ =~= a@.take(a.len() as int));
    assert(b@ =~= b@.take(b.len() as int));
    true
}

/// Whether `pat` occurs in `s` starting at position `i`.
pub open spec fn occurs_at(s: Seq<char>, pat: Seq<char>, i: int) -> bool {
    0 <= i && i + pat.len() <= s.len() && s.subrange(i, i + pat.len()) == pat
}

/// `s` with every non-overlapping occurrence of `from`, scanned from the
/// left, replaced by `to` (the meaning of `str::replace`).
pub open spec fn replace_spec(s: Seq<char>, from: Seq<char>, to: Seq<char>) -> Seq<char>
    decreases s.len(),
{
    if from.len() == 0 || s.len() < from.len() {
        s
    } else if s.take(from.len() as int) == from {
        to + replace_spec(s.skip(from.len() as int), from, to)
    } else {
        seq![s[0]] + replace_spec(s.drop_first(), from, to)
    }
}

/// Whether `pat` occurs in `s` at position `i` (executable form of
/// [`occurs_at`]).
pub fn occurs_at_exec(s: &Vec<char>, pat: &Vec<char>, i: usize) -> (r: bool)
    ensures
        r == occurs_at(s@, pat@, i as int),
{
    if i > s.len() || pat.len() > s.len() - i {
        return false;
    }
    let mut k: usize = 0;
    while k < pat.len()
        invariant
            i + pat.len() <= s.len(),
            k <= pat.len(),
            forall|j: int| 0 <= j < k ==> s@[i + j] == pat@[j],
        decreases pat.len() - k,
    {
        if s[i + k] != pat[k] {
            assert(s@.subrange(i as int, i + pat.len())[k as int] != pat@[k as int]);
            return false;
        }
        k = k + 1;
    }
    assert(s@.subrange(i as int, i + pat.len()) =~= pat@);
    true
}

/// Replaces every non-overlapping occurrence of `from` in `s`, scanned from
/// the left, by `to`.
pub fn replace_chars(s: &Vec<char>, from: &Vec<char>, to: &Vec<char>) -> (r: Vec<char>)
    requires
        from@.len() > 0,
    ensures
        r@ == replace_spec(s@, from@, to@),
{
    let mut out: Vec<char> = Vec::new();
    let mut i: usize = 0;
    assert(s@.skip(0) =~= s@);
    while i < s.len()
        invariant
            from@.len() > 0,
            i <= s.len(),
            out@ + replace_spec(s@.skip(i as int), from@, to@) == replace_spec(s@, from@, to@),
        decreases s.len() - i,
    {
        let ghost rest = s@.skip(i as int);
        if occurs_at_exec(s, from, i) {
            assert(rest.take(from@.len() as int) =~= s@.subrange(i as int, i + from@.len()));
            assert(rest.skip(from@.len() as int) =~= s@.skip(i + from@.len()));
            append_chars(&mut out, to);
            i = i + from.len();
            assert(out@ + replace_spec(s@.skip(i as int), from@, to@) =~= replace_spec(s@, from@, to@));
        } else {
            proof {
                assert(rest.drop_first() =~= s@.skip(i + 1));
                if rest.len() >= from@.len() {
                    assert(rest.take(from@.len() as int) =~= s@.subrange(i as int, i + from@.len()));
                } else {
                    assert(replace_spec(rest.drop_first(), from@, to@) == rest.drop_first());
                    assert(rest =~= seq![rest[0]] + rest.drop_first());
                }
            }
            out.push(s[i]);
            i = i + 1;
            assert(out@ + replace_spec(s@.skip(i as int), from@, to@) =~= replace_spec(s@, from@, to@));
        }
    }
    assert(s@.skip(i as int) =~= Seq::<char>::empty());
    assert(out@ =~= out@ + replace_spec(s@.skip(i as int), from@, to@));
    out
}


/// Whether a character has the Unicode `White_Space` property: tab, line
/// feed, vertical tab, form feed, carriage return, space, next line,
/// no-break space, ogham space mark, the spaces U+2000 to U+200A, line and
/// paragraph separators, narrow no-break space, medium mathematical space
/// and ideographic space.
pub open spec fn white_space(c: char) -> bool {
    let u = c as u32;
    ||| 0x9 <= u <= 0xd
    ||| u == 0x20
    ||| u == 0x85
    ||| u == 0xa0
    ||| u == 0x1680
    ||| 0x2000 <= u <= 0x200a
    ||| u == 0x2028
    ||| u == 0x2029
    ||| u == 0x202f
    ||| u == 0x205f
    ||| u == 0x3000
}

/// Whether `c` has the Unicode `White_Space` property (what
/// `char::is_whitespace` tests).
pub(crate) fn char_is_whitespace(c: char) -> (r: bool)
    ensures
        r == white_space(c),
{
    let u = c as u32;
    (0x9 <= u && u <= 0xd) || u == 0x20 || u == 0x85 || u == 0xa0 || u == 0x1680
        || (0x2000 <= u && u <= 0x200a) || u == 0x2028 || u == 0x2029 || u == 0x202f
        || u == 0x205f || u == 0x3000
}

/// `s` without its leading white space.
pub open spec fn trim_start_spec(s: Seq<char>) -> Seq<char>
    decreases s.len(),
{
    if s.len() > 0 && white_space(s[0]) {
        trim_start_spec(s.drop_first())
    } else {
        s
    }
}

/// `s` without its trailing white space.
pub open spec fn trim_end_spec(s: Seq<char>) -> Seq<char>
    decreases s.len(),
{
    if s.len() > 0 && white_space(s.last()) {
        trim_end_spec(s.drop_last())
    } else {
        s
    }
}

/// `s` without leading and trailing white space (the meaning of `str::trim`).
pub open spec fn trim_spec(s: Seq<char>) -> Seq<char> {
    trim_end_spec(trim_start_spec(s))
}

/// Removes leading and trailing white space.
pub fn trim_chars(v: &Vec<char>) -> (r: Vec<char>)
    ensures
        r@ == trim_spec(v@),
{
    let mut a: usize = 0;
    assert(v@.skip(0) =~= v@);
    while a < v.len() && char_is_whitespace(v[a])
        invariant
            a <= v.len(),
            trim_start_spec(v@.skip(a as int)) == trim_start_spec(v@),
        decreases v.len() - a,
    {
        assert(v@.skip(a as int).drop_first() =~= v@.skip(a + 1));
        a = a + 1;
    }
    let ghost t = v@.skip(a as int);
    assert(trim_start_spec(t) == t);
    let mut b: usize = v.len();
    assert(v@.subrange(a as int, b as int) =~= t);
    while b > a && char_is_whitespace(v[b - 1])
        invariant
            a <= b <= v.len(),
            trim_end_spec(v@.subrange(a as int, b as int)) == trim_end_spec(t),
        decreases b - a,
    {
        assert(v@.subrange(a as int, b as int).drop_last() =~= v@.subrange(a as int, b - 1));
        b = b - 1;
    }
    let mut r: Vec<char> = Vec::new();
    let mut k: usize = a;
    while k < b
        invariant
            a <= k <= b <= v.len(),
            r@ == v@.subrange(a as int, k as int),
        decreases b - k,
    {
        r.push(v[k]);
        k = k + 1;
        assert(r@ =~= v@.subrange(a as int, k as int));
    }
    r
}

/// Whether two string slices hold the same characters.
pub(crate) fn str_eq(a: &str, b: &str) -> (r: bool)
    ensures
        r == (a@ == b@),
{
    chars_equal(&str_to_chars(a), &str_to_chars(b))
}


/// Appends the characters of a string slice to `out`.
pub fn append_str(out: &mut Vec<char>, s: &str)
    ensures
        final(out)@ == old(out)@ + s@,
{
    let v = str_to_chars(s);
    append_chars(out, &v);
}

/// Whether `s` begins with `p`.
pub open spec fn starts_with(s: Seq<char>, p: Seq<char>) -> bool {
    p.len() <= s.len() && s.take(p.len() as int) == p
}

/// Whether the characters of `s` begin with those of `p`.
pub fn starts_with_str(s: &Vec<char>, p: &str) -> (r: bool)
    ensures
        r == starts_with(s@, p@),
{
    let pv = str_to_chars(p);
    let r = occurs_at_exec(s, &pv, 0);
    proof {
        if r {
            assert(s@.subrange(0, p@.len() as int) =~= s@.take(p@.len() as int));
        } else if p@.len() <= s@.len() {
            assert(s@.subrange(0, p@.len() as int) =~= s@.take(p@.len() as int));
        }
    }
    r
}

/// The number of occurrences of `c` in `s`.
pub open spec fn count_char(s: Seq<char>, c: char) -> nat
    decreases s.len(),
{
    if s.len() == 0 {
        0
    } else {
        count_char(s.drop_last(), c) + if s.last() == c { 1nat } else { 0nat }
    }
}

/// Counts the occurrences of `c` in `s`.
pub fn count_char_exec(s: &Vec<char>, c: char) -> (n: usize)
    ensures
        n == count_char(s@, c),
{
    let mut n: usize = 0;
    let mut i: usize = 0;
    assert(s@.take(0) =~= Seq::<char>::empty());
    while i < s.len()
        invariant
            i <= s.len(),
            n == count_char(s@.take(i as int), c),
            n <= i,
        decreases s.len() - i,
    {
        assert(s@.take(i + 1).drop_last() =~= s@.take(i as int));
        if s[i] == c {
            n = n + 1;
        }
        i = i + 1;
    }
    assert(s@.take(i as int) =~= s@);
    n
}


/// `x` does not occur in `s`.
pub open spec fn lacks(s: Seq<char>, x: char) -> bool {
    forall|i: int| 0 <= i < s.len() ==> #[trigger] s[i] != x
}

/// A concatenation lacks `x` when both parts do.
pub proof fn lemma_lacks_concat(a: Seq<char>, b: Seq<char>, x: char)
    requires
        lacks(a, x),
        lacks(b, x),
    ensures
        lacks(a + b, x),
{
    assert forall|i: int| 0 <= i < (a + b).len() implies #[trigger] (a + b)[i] != x by {
        if i < a.len() {
            assert((a + b)[i] == a[i]);
        } else {
            assert((a + b)[i] == b[i - a.len()]);
        }
    }
}

/// Replacing never brings in a character that neither the text nor the
/// replacement holds, and replacing a one-character pattern by a text without
/// that character removes it.
pub proof fn lemma_replace_lacks(s: Seq<char>, from: Seq<char>, to: Seq<char>, x: char)
    requires
        from.len() > 0,
        lacks(to, x),
        from == seq![x] || lacks(s, x),
    ensures
        lacks(replace_spec(s, from, to), x),
    decreases s.len(),
{
    if s.len() < from.len() {
        if from == seq![x] {
            assert(s.len() == 0);
        }
    } else if s.take(from.len() as int) == from {
        let rest = s.skip(from.len() as int);
        if from != seq![x] {
            assert forall|i: int| 0 <= i < rest.len() implies #[trigger] rest[i] != x by {
                assert(rest[i] == s[i + from.len()]);
            }
        }
        lemma_replace_lacks(rest, from, to, x);
        lemma_lacks_concat(to, replace_spec(rest, from, to), x);
    } else {
        let rest = s.drop_first();
        if from == seq![x] {
            if s[0] == x {
                assert(s.take(1) =~= seq![x]);
            }
        } else {
            assert forall|i: int| 0 <= i < rest.len() implies #[trigger] rest[i] != x by {
                assert(rest[i] == s[i + 1]);
            }
        }
        assert(s[0] != x);
        lemma_replace_lacks(rest, from, to, x);
        lemma_lacks_concat(seq![s[0]], replace_spec(rest, from, to), x);
    }
}

/// A character that is no white space stays in the text when it is trimmed.
pub proof fn lemma_trim_keeps(s: Seq<char>, k: int)
    requires
        0 <= k < s.len(),
        !white_space(s[k]),
    ensures
        exists|j: int| 0 <= j < trim_spec(s).len() && trim_spec(s)[j] == s[k],
{
    let a = lemma_trim_start_keeps(s, k);
    lemma_trim_end_index(trim_start_spec(s), a);
    assert(trim_spec(s)[a] == s[k]);
}

proof fn lemma_trim_start_keeps(s: Seq<char>, k: int) -> (j: int)
    requires
        0 <= k < s.len(),
        !white_space(s[k]),
    ensures
        0 <= j < trim_start_spec(s).len(),
        trim_start_spec(s)[j] == s[k],
    decreases s.len(),
{
    if s.len() > 0 && white_space(s[0]) {
        let rest = s.drop_first();
        assert(rest[k - 1] == s[k]);
        lemma_trim_start_keeps(rest, k - 1)
    } else {
        k
    }
}

proof fn lemma_trim_end_index(s: Seq<char>, k: int)
    requires
        0 <= k < s.len(),
        !white_space(s[k]),
    ensures
        k < trim_end_spec(s).len(),
        trim_end_spec(s)[k] == s[k],
    decreases s.len(),
{
    if s.len() > 0 && white_space(s.last()) {
        let rest = s.drop_last();
        assert(k < rest.len());
        assert(rest[k] == s[k]);
        lemma_trim_end_index(rest, k);
    }
}

/// Trimming keeps only characters of the text.
pub proof fn lemma_trim_lacks(s: Seq<char>, x: char)
    requires
        lacks(s, x),
    ensures
        lacks(trim_spec(s), x),
{
    lemma_trim_start_lacks(s, x);
    lemma_trim_end_lacks(trim_start_spec(s), x);
}

proof fn lemma_trim_start_lacks(s: Seq<char>, x: char)
    requires
        lacks(s, x),
    ensures
        lacks(trim_start_spec(s), x),
    decreases s.len(),
{
    if s.len() > 0 && white_space(s[0]) {
        let rest = s.drop_first();
        assert forall|i: int| 0 <= i < rest.len() implies #[trigger] rest[i] != x by {
            assert(rest[i] == s[i + 1]);
        }
        lemma_trim_start_lacks(rest, x);
    }
}

proof fn lemma_trim_end_lacks(s: Seq<char>, x: char)
    requires
        lacks(s, x),
    ensures
        lacks(trim_end_spec(s), x),
    decreases s.len(),
{
    if s.len() > 0 && white_space(s.last()) {
        let rest = s.drop_last();
        assert forall|i: int| 0 <= i < rest.len() implies #[trigger] rest[i] != x by {
            assert(rest[i] == s[i]);
        }
        lemma_trim_end_lacks(rest, x);
    }
}

} // verus!
