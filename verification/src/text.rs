//! Characters and the cuts that every survey format is made of.
//!
//! A text is seen as its sequence of characters. The functions of this module
//! say where such a sequence is trimmed, cut into words or cut at a delimiter.

use vstd::prelude::*;
use vstd::slice::slice_subrange;

verus! {

/// `String::push` appends one character to the text.
pub assume_specification[ String::push ](s: &mut String, c: char)
    ensures
        final(s)@ == old(s)@.push(c),
;

/// White space: the characters with the Unicode property `White_Space`.
pub open spec fn is_space(c: char) -> bool {
    ||| '\u{9}' <= c <= '\u{d}'
    ||| c == ' '
    ||| c == '\u{85}'
    ||| c == '\u{a0}'
    ||| c == '\u{1680}'
    ||| '\u{2000}' <= c <= '\u{200a}'
    ||| c == '\u{2028}'
    ||| c == '\u{2029}'
    ||| c == '\u{202f}'
    ||| c == '\u{205f}'
    ||| c == '\u{3000}'
}

/// ASCII white space: space, tab, line feed, form feed and carriage return.
pub open spec fn is_ascii_space(c: char) -> bool {
    c == ' ' || c == '\t' || c == '\n' || c == '\u{c}' || c == '\r'
}

/// The predicate "is white space".
pub open spec fn space() -> spec_fn(char) -> bool {
    |c: char| is_space(c)
}

/// The predicate "is not white space".
pub open spec fn ink() -> spec_fn(char) -> bool {
    |c: char| !is_space(c)
}

/// The predicate "is ASCII white space".
pub open spec fn ascii_space() -> spec_fn(char) -> bool {
    |c: char| is_ascii_space(c)
}

/// The predicate "is not ASCII white space".
pub open spec fn ascii_ink() -> spec_fn(char) -> bool {
    |c: char| !is_ascii_space(c)
}

/// The predicate "is `d`".
pub open spec fn exactly(d: char) -> spec_fn(char) -> bool {
    |c: char| c == d
}

/// The index of the first character that `p` holds of; the length if there is none.
pub open spec fn first_where(s: Seq<char>, p: spec_fn(char) -> bool) -> int
    decreases s.len(),
{
    if s.len() == 0 || p(s[0]) {
        0
    } else {
        1 + first_where(s.skip(1), p)
    }
}

/// The index just past the last character that `p` holds of; 0 if there is none.
pub open spec fn past_last(s: Seq<char>, p: spec_fn(char) -> bool) -> int
    decreases s.len(),
{
    if s.len() == 0 || p(s.last()) {
        s.len() as int
    } else {
        past_last(s.drop_last(), p)
    }
}

/// What `first_where` finds: nothing before it, and the character itself.
pub proof fn lemma_first_where(s: Seq<char>, p: spec_fn(char) -> bool)
    ensures
        0 <= first_where(s, p) <= s.len(),
        forall|j: int| 0 <= j < first_where(s, p) ==> !p(#[trigger] s[j]),
        first_where(s, p) < s.len() ==> p(s[first_where(s, p)]),
    decreases s.len(),
{
    if s.len() != 0 && !p(s[0]) {
        let t = s.skip(1);
        lemma_first_where(t, p);
        assert forall|j: int| 0 <= j < first_where(s, p) implies !p(#[trigger] s[j]) by {
            if j > 0 {
                assert(t[j - 1] == s[j]);
            }
        }
        if first_where(t, p) < t.len() {
            assert(t[first_where(t, p)] == s[first_where(s, p)]);
        }
    }
}

/// `first_where` is the one index with nothing before it.
pub proof fn lemma_first_where_is(s: Seq<char>, p: spec_fn(char) -> bool, i: int)
    requires
        0 <= i <= s.len(),
        forall|j: int| 0 <= j < i ==> !p(#[trigger] s[j]),
        i < s.len() ==> p(s[i]),
    ensures
        first_where(s, p) == i,
{
    lemma_first_where(s, p);
    let k = first_where(s, p);
    if k < i {
        assert(!p(s[k]));
    } else if i < k {
        assert(!p(s[i]));
    }
}

/// What `past_last` finds: nothing after it, and the character just before it.
pub proof fn lemma_past_last(s: Seq<char>, p: spec_fn(char) -> bool)
    ensures
        0 <= past_last(s, p) <= s.len(),
        forall|j: int| past_last(s, p) <= j < s.len() ==> !p(#[trigger] s[j]),
        past_last(s, p) > 0 ==> p(s[past_last(s, p) - 1]),
    decreases s.len(),
{
    if s.len() != 0 && !p(s.last()) {
        let t = s.drop_last();
        lemma_past_last(t, p);
        assert forall|j: int| past_last(s, p) <= j < s.len() implies !p(#[trigger] s[j]) by {
            if j < t.len() {
                assert(t[j] == s[j]);
            }
        }
    }
}

/// `past_last` is the one index with nothing after it.
pub proof fn lemma_past_last_is(s: Seq<char>, p: spec_fn(char) -> bool, i: int)
    requires
        0 <= i <= s.len(),
        forall|j: int| i <= j < s.len() ==> !p(#[trigger] s[j]),
        i > 0 ==> p(s[i - 1]),
    ensures
        past_last(s, p) == i,
{
    lemma_past_last(s, p);
    let k = past_last(s, p);
    if k < i {
        assert(!p(s[i - 1]));
    } else if i < k {
        assert(!p(s[k - 1]));
    }
}

/// The text without its leading white space.
pub open spec fn trim_start(s: Seq<char>) -> Seq<char> {
    s.skip(first_where(s, ink()))
}

/// The text without its trailing white space.
pub open spec fn trim_end(s: Seq<char>) -> Seq<char> {
    s.take(past_last(s, ink()))
}

/// The text without white space at either end.
pub open spec fn trim(s: Seq<char>) -> Seq<char> {
    trim_end(trim_start(s))
}

/// The words of a text: its longest runs of characters that are not white space.
pub open spec fn words(s: Seq<char>) -> Seq<Seq<char>>
    decreases s.len(),
{
    let t = trim_start(s);
    if t.len() == 0 {
        Seq::empty()
    } else {
        let k = first_where(t, space());
        proof {
            lemma_first_where(s, ink());
            lemma_first_where(t, space());
        }
        seq![t.take(k)] + words(t.skip(k))
    }
}

/// The first word of a text, empty where there is none.
pub open spec fn first_word(s: Seq<char>) -> Seq<char> {
    let t = trim_start(s);
    t.take(first_where(t, space()))
}

/// The pieces of a text between the delimiters `d`, at most `n` of them; the
/// last piece of `n` keeps the delimiters that are left.
pub open spec fn split_at_most(s: Seq<char>, n: nat, d: char) -> Seq<Seq<char>>
    decreases n,
{
    let k = first_where(s, exactly(d));
    if n == 0 {
        Seq::empty()
    } else if n == 1 || k == s.len() {
        seq![s]
    } else {
        seq![s.take(k)] + split_at_most(s.skip(k + 1), (n - 1) as nat, d)
    }
}

/// All the pieces of a text between the delimiters `d`.
pub open spec fn split_all(s: Seq<char>, d: char) -> Seq<Seq<char>>
    decreases s.len(),
{
    let k = first_where(s, exactly(d));
    if k < 0 || k >= s.len() {
        seq![s]
    } else {
        seq![s.take(k)] + split_all(s.skip(k + 1), d)
    }
}

/// The texts that a list of strings holds.
pub open spec fn views(v: Seq<String>) -> Seq<Seq<char>> {
    v.map_values(|s: String| s@)
}

/// Tells white space from other characters.
pub fn is_white(c: char) -> (r: bool)
    ensures
        r == is_space(c),
{
    ('\u{9}' <= c && c <= '\u{d}') || c == ' ' || c == '\u{85}' || c == '\u{a0}' || c == '\u{1680}'
        || ('\u{2000}' <= c && c <= '\u{200a}') || c == '\u{2028}' || c == '\u{2029}'
        || c == '\u{202f}' || c == '\u{205f}' || c == '\u{3000}'
}

/// The characters of a text.
pub fn chars_of(s: &str) -> (v: Vec<char>)
    ensures
        v@ == s@,
{
    let mut v: Vec<char> = Vec::new();
    for c in it: s.chars()
        invariant
            v@ =~= it.seq().take(it.index()),
            it.seq() == s@,
    {
        v.push(c);
    }
    v
}

/// The text made of some characters.
pub fn string_of(v: &[char]) -> (s: String)
    ensures
        s@ == v@,
{
    let mut s = String::new();
    let mut i: usize = 0;
    while i < v.len()
        invariant
            i <= v.len(),
            s@ =~= v@.take(i as int),
        decreases v.len() - i,
    {
        s.push(v[i]);
        i += 1;
    }
    s
}

/// Finds the first character that a test holds of.
pub(crate) fn find_where(
    s: &[char],
    f: impl Fn(char) -> bool,
    Ghost(p): Ghost<spec_fn(char) -> bool>,
) -> (i: usize)
    requires
        forall|c: char| call_requires(f, (c,)),
        forall|c: char, b: bool| call_ensures(f, (c,), b) ==> b == p(c),
    ensures
        i == first_where(s@, p),
        i <= s@.len(),
{
    let mut i: usize = 0;
    while i < s.len()
        invariant
            i <= s.len(),
            forall|c: char| call_requires(f, (c,)),
            forall|c: char, b: bool| call_ensures(f, (c,), b) ==> b == p(c),
            forall|j: int| 0 <= j < i ==> !p(#[trigger] s@[j]),
        decreases s.len() - i,
    {
        if f(s[i]) {
            proof {
                lemma_first_where_is(s@, p, i as int);
            }
            return i;
        }
        i += 1;
    }
    proof {
        lemma_first_where_is(s@, p, i as int);
    }
    i
}

/// Finds the end of the last character that a test holds of.
pub(crate) fn past_last_where(
    s: &[char],
    f: impl Fn(char) -> bool,
    Ghost(p): Ghost<spec_fn(char) -> bool>,
) -> (i: usize)
    requires
        forall|c: char| call_requires(f, (c,)),
        forall|c: char, b: bool| call_ensures(f, (c,), b) ==> b == p(c),
    ensures
        i == past_last(s@, p),
        i <= s@.len(),
{
    let mut i: usize = s.len();
    while i > 0
        invariant
            i <= s.len(),
            forall|c: char| call_requires(f, (c,)),
            forall|c: char, b: bool| call_ensures(f, (c,), b) ==> b == p(c),
            forall|j: int| i <= j < s.len() ==> !p(#[trigger] s@[j]),
        decreases i,
    {
        if f(s[i - 1]) {
            proof {
                lemma_past_last_is(s@, p, i as int);
            }
            return i;
        }
        i -= 1;
    }
    proof {
        lemma_past_last_is(s@, p, i as int);
    }
    i
}

/// Cuts the white space off the start of a text.
pub(crate) fn trimmed_start(s: &[char]) -> (r: &[char])
    ensures
        r@ == trim_start(s@),
{
    let i = find_where(s, |c: char| -> (b: bool) ensures b == !is_space(c) { !is_white(c) }, Ghost(ink()));
    slice_subrange(s, i, s.len())
}

/// Cuts the white space off the end of a text.
pub(crate) fn trimmed_end(s: &[char]) -> (r: &[char])
    ensures
        r@ == trim_end(s@),
{
    let i = past_last_where(s, |c: char| -> (b: bool) ensures b == !is_space(c) { !is_white(c) }, Ghost(ink()));
    slice_subrange(s, 0, i)
}

/// Cuts the white space off both ends of a text.
pub(crate) fn trimmed(s: &[char]) -> (r: &[char])
    ensures
        r@ == trim(s@),
{
    trimmed_end(trimmed_start(s))
}

/// Finds the first white space of a text.
pub(crate) fn find_space(s: &[char]) -> (i: usize)
    ensures
        i == first_where(s@, space()),
        i <= s@.len(),
{
    find_where(s, |c: char| -> (b: bool) ensures b == is_space(c) { is_white(c) }, Ghost(space()))
}

/// Tells ASCII white space from other characters.
pub fn is_ascii_white(c: char) -> (r: bool)
    ensures
        r == is_ascii_space(c),
{
    c == ' ' || c == '\t' || c == '\n' || c == '\u{c}' || c == '\r'
}

/// Finds the first ASCII white space of a text.
pub(crate) fn find_ascii_space(s: &[char]) -> (i: usize)
    ensures
        i == first_where(s@, ascii_space()),
        i <= s@.len(),
{
    find_where(s, |c: char| -> (b: bool) ensures b == is_ascii_space(c) { is_ascii_white(c) }, Ghost(ascii_space()))
}

/// Finds the first character of a text that is not ASCII white space.
pub(crate) fn find_ascii_ink(s: &[char]) -> (i: usize)
    ensures
        i == first_where(s@, ascii_ink()),
        i <= s@.len(),
{
    find_where(s, |c: char| -> (b: bool) ensures b == !is_ascii_space(c) { !is_ascii_white(c) }, Ghost(ascii_ink()))
}

/// Finds the first `d` of a text.
pub(crate) fn find_char(s: &[char], d: char) -> (i: usize)
    ensures
        i == first_where(s@, exactly(d)),
        i <= s@.len(),
{
    find_where(s, |c: char| -> (b: bool) ensures b == (c == d) { c == d }, Ghost(exactly(d)))
}

/// Adding a string to a list adds its text to the list of texts.
pub proof fn lemma_views_push(v: Seq<String>, s: String)
    ensures
        views(v.push(s)) == views(v).push(s@),
{
    assert(views(v.push(s)) =~= views(v).push(s@));
}

/// Cuts a text into its words.
pub(crate) fn split_words(s: &[char]) -> (out: Vec<String>)
    ensures
        views(out@) == words(s@),
{
    let mut out: Vec<String> = Vec::new();
    let mut rest = trimmed_start(s);
    proof {
        assert(views(out@) + words(s@) =~= words(s@));
        assert(first_where(rest@, ink()) == 0) by {
            lemma_first_where(s@, ink());
            lemma_first_where_is(rest@, ink(), 0);
        }
        assert(trim_start(rest@) =~= rest@);
    }
    while rest.len() > 0
        invariant
            first_where(rest@, ink()) == 0,
            views(out@) + words(rest@) == words(s@),
        decreases rest@.len(),
    {
        let k = find_space(rest);
        proof {
            assert(trim_start(rest@) =~= rest@);
            lemma_first_where(rest@, space());
            lemma_first_where(rest@, ink());
        }
        let word = string_of(slice_subrange(rest, 0, k));
        let next = trimmed_start(slice_subrange(rest, k, rest.len()));
        proof {
            let tail = rest@.skip(k as int);
            lemma_first_where(tail, ink());
            lemma_first_where_is(next@, ink(), 0);
            assert(trim_start(next@) =~= next@);
            lemma_views_push(out@, word);
            assert(word@ =~= rest@.take(k as int));
            assert(views(out@).push(word@) + words(next@) =~= views(out@) + (seq![word@] + words(
                tail,
            )));
        }
        out.push(word);
        rest = next;
    }
    proof {
        assert(words(rest@) =~= Seq::<Seq<char>>::empty());
        assert(views(out@) =~= words(s@));
    }
    out
}

/// Cuts a text at the first delimiters `d` into at most `n` pieces.
pub(crate) fn split_up_to(s: &[char], n: usize, d: char) -> (out: Vec<String>)
    ensures
        views(out@) == split_at_most(s@, n as nat, d),
{
    let mut out: Vec<String> = Vec::new();
    let mut rest = s;
    let mut left = n;
    proof {
        assert(views(out@) + split_at_most(s@, n as nat, d) =~= split_at_most(s@, n as nat, d));
    }
    while left > 1
        invariant
            views(out@) + split_at_most(rest@, left as nat, d) == split_at_most(s@, n as nat, d),
        decreases left,
    {
        let k = find_char(rest, d);
        if k == rest.len() {
            let last = string_of(rest);
            proof {
                lemma_views_push(out@, last);
                assert(views(out@).push(last@) =~= views(out@) + seq![rest@]);
            }
            out.push(last);
            return out;
        }
        let piece = string_of(slice_subrange(rest, 0, k));
        let next = slice_subrange(rest, k + 1, rest.len());
        proof {
            lemma_views_push(out@, piece);
            assert(piece@ =~= rest@.take(k as int));
            assert(next@ =~= rest@.skip(k + 1));
            assert(views(out@).push(piece@) + split_at_most(next@, (left - 1) as nat, d)
                =~= views(out@) + (seq![piece@] + split_at_most(next@, (left - 1) as nat, d)));
        }
        out.push(piece);
        rest = next;
        left -= 1;
    }
    if left == 1 {
        let last = string_of(rest);
        proof {
            lemma_views_push(out@, last);
            assert(views(out@).push(last@) =~= views(out@) + seq![rest@]);
        }
        out.push(last);
    } else {
        proof {
            assert(views(out@) =~= split_at_most(s@, n as nat, d));
        }
    }
    out
}

/// Compares two texts.
pub fn same(a: &str, b: &str) -> (r: bool)
    ensures
        r == (a@ == b@),
{
    let x = chars_of(a);
    let y = chars_of(b);
    same_chars(x.as_slice(), y.as_slice())
}

/// Compares two runs of characters.
pub(crate) fn same_chars(x: &[char], y: &[char]) -> (r: bool)
    ensures
        r == (x@ == y@),
{
    if x.len() != y.len() {
        return false;
    }
    let mut i: usize = 0;
    while i < x.len()
        invariant
            i <= x.len(),
            x.len() == y.len(),
            forall|j: int| 0 <= j < i ==> x@[j] == y@[j],
        decreases x.len() - i,
    {
        if x[i] != y[i] {
            return false;
        }
        i += 1;
    }
    assert(x@ =~= y@);
    true
}

/// A character with an ASCII capital made small.
pub open spec fn lower(c: char) -> char {
    if 'A' <= c <= 'Z' {
        (c as u8 + 32) as u8 as char
    } else {
        c
    }
}

/// A character with a small ASCII letter made a capital.
pub open spec fn upper(c: char) -> char {
    if 'a' <= c <= 'z' {
        (c as u8 - 32) as u8 as char
    } else {
        c
    }
}

/// A text with its ASCII capitals made small.
pub open spec fn lower_text(s: Seq<char>) -> Seq<char> {
    s.map_values(|c: char| lower(c))
}

/// A text with its small ASCII letters made capitals.
pub open spec fn upper_text(s: Seq<char>) -> Seq<char> {
    s.map_values(|c: char| upper(c))
}

/// Two texts that differ in the case of ASCII letters at most.
pub open spec fn same_but_case(a: Seq<char>, b: Seq<char>) -> bool {
    lower_text(a) == lower_text(b)
}

/// Makes an ASCII capital small.
pub fn to_lower(c: char) -> (r: char)
    ensures
        r == lower(c),
{
    if 'A' <= c && c <= 'Z' {
        (c as u8 + 32) as char
    } else {
        c
    }
}

/// Makes a small ASCII letter a capital.
pub fn to_upper(c: char) -> (r: char)
    ensures
        r == upper(c),
{
    if 'a' <= c && c <= 'z' {
        (c as u8 - 32) as char
    } else {
        c
    }
}

/// Makes the ASCII capitals of a text small.
pub(crate) fn lowered(s: &[char]) -> (out: Vec<char>)
    ensures
        out@ == lower_text(s@),
{
    let mut out: Vec<char> = Vec::new();
    let mut i: usize = 0;
    while i < s.len()
        invariant
            i <= s.len(),
            out@ =~= lower_text(s@.take(i as int)),
        decreases s.len() - i,
    {
        out.push(to_lower(s[i]));
        i += 1;
    }
    assert(s@.take(i as int) =~= s@);
    out
}

/// Makes the small ASCII letters of a text capitals.
pub(crate) fn uppered(s: &[char]) -> (out: Vec<char>)
    ensures
        out@ == upper_text(s@),
{
    let mut out: Vec<char> = Vec::new();
    let mut i: usize = 0;
    while i < s.len()
        invariant
            i <= s.len(),
            out@ =~= upper_text(s@.take(i as int)),
        decreases s.len() - i,
    {
        out.push(to_upper(s[i]));
        i += 1;
    }
    assert(s@.take(i as int) =~= s@);
    out
}

/// Compares two texts without regard to the case of ASCII letters.
pub fn same_ignoring_case(a: &str, b: &str) -> (r: bool)
    ensures
        r == same_but_case(a@, b@),
{
    let x = chars_of(a);
    let y = chars_of(b);
    let u = lowered(x.as_slice());
    let v = lowered(y.as_slice());
    same_chars(u.as_slice(), v.as_slice())
}

/// The decimal digits of a number.
pub open spec fn decimal(n: nat) -> Seq<char>
    decreases n,
{
    let d = ('0' as u8 + n % 10) as u8 as char;
    if n < 10 {
        seq![d]
    } else {
        decimal(n / 10).push(d)
    }
}

/// Writes a number in decimal.
pub fn decimal_text(n: usize) -> (s: String)
    ensures
        s@ == decimal(n as nat),
    decreases n,
{
    let d = (48 + (n % 10) as u8) as char;
    if n < 10 {
        let mut s = String::new();
        s.push(d);
        assert(s@ =~= seq![d]);
        s
    } else {
        let mut s = decimal_text(n / 10);
        s.push(d);
        s
    }
}

} // verus!
