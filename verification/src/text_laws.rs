//! What holds of every text that is cut, trimmed or written.

use vstd::prelude::*;

use crate::adjust::aligned;
use crate::command_laws::is_word;
use crate::dispatch::argument;
use crate::import::padded;
use crate::number::{all_digits, digits, is_digit, number};
use crate::requests::arguments;
use crate::text::{
    decimal, exactly, first_where, first_word, ink, is_space, lemma_first_where,
    lemma_first_where_is, lemma_past_last_is, lower_text, same_but_case, space, split_all, trim,
    trim_start, upper_text, words,
};

verus! {

/// A text of white space alone.
pub open spec fn is_gap(s: Seq<char>) -> bool {
    forall|i: int| 0 <= i < s.len() ==> is_space(#[trigger] s[i])
}

/// A text that neither begins nor ends with white space.
pub open spec fn is_trim(s: Seq<char>) -> bool {
    s.len() > 0 ==> !is_space(s[0]) && !is_space(s.last())
}

/// White space before a text is skipped.
proof fn lemma_gap_first(gap: Seq<char>, s: Seq<char>)
    requires
        is_gap(gap),
        s.len() > 0 ==> !is_space(s[0]),
    ensures
        trim_start(gap + s) == s,
{
    let all = gap + s;
    assert forall|j: int| 0 <= j < gap.len() implies !ink()(#[trigger] all[j]) by {
        assert(all[j] == gap[j]);
    }
    if s.len() > 0 {
        assert(all[gap.len() as int] == s[0]);
    }
    lemma_first_where_is(all, ink(), gap.len() as int);
    assert(all.skip(gap.len() as int) =~= s);
}

/// Trimming takes the white space off both ends of a text, and nothing else.
pub proof fn law_trimming_takes_the_ends(before: Seq<char>, s: Seq<char>, behind: Seq<char>)
    requires
        is_gap(before),
        is_gap(behind),
        is_trim(s),
    ensures
        trim(before + s + behind) == s,
{
    if s.len() == 0 {
        let gap = before + behind;
        assert(is_gap(gap)) by {
            assert forall|i: int| 0 <= i < gap.len() implies is_space(#[trigger] gap[i]) by {
                if i < before.len() {
                    assert(gap[i] == before[i]);
                } else {
                    assert(gap[i] == behind[i - before.len()]);
                }
            }
        }
        lemma_gap_first(gap, s);
        assert(before + s + behind =~= gap + s);
        lemma_past_last_is(s, ink(), 0);
        assert(trim(before + s + behind) =~= s);
    } else {
        let t = s + behind;
        assert(t[0] == s[0]);
        lemma_gap_first(before, t);
        assert(before + s + behind =~= before + t);
        assert forall|j: int| s.len() <= j < t.len() implies !ink()(#[trigger] t[j]) by {
            assert(t[j] == behind[j - s.len()]);
        }
        assert(t[s.len() - 1] == s.last());
        lemma_past_last_is(t, ink(), s.len() as int);
        assert(t.take(s.len() as int) =~= s);
    }
}

/// The words of a text depend on what follows its leading white space alone.
proof fn lemma_words_by_start(a: Seq<char>, b: Seq<char>)
    requires
        trim_start(a) == trim_start(b),
    ensures
        words(a) == words(b),
        first_word(a) == first_word(b),
{
}

/// White space before a text does not matter to its words.
proof fn lemma_words_behind(gap: Seq<char>, b: Seq<char>)
    requires
        is_gap(gap),
    ensures
        words(gap + b) == words(b),
        first_word(gap + b) == first_word(b),
        trim_start(gap + b) == trim_start(b),
{
    lemma_first_where(b, ink());
    let k = first_where(b, ink());
    let lead = b.take(k);
    let rest = b.skip(k);
    assert(is_gap(gap + lead)) by {
        assert forall|i: int| 0 <= i < (gap + lead).len() implies is_space(#[trigger] (gap + lead)[i]) by {
            if i < gap.len() {
                assert((gap + lead)[i] == gap[i]);
            } else {
                assert(!ink()(b[i - gap.len()]));
            }
        }
    }
    if rest.len() > 0 {
        assert(rest[0] == b[k]);
    }
    lemma_gap_first(gap + lead, rest);
    assert(gap + b =~= (gap + lead) + rest);
    lemma_words_by_start(gap + b, b);
}

/// The words of a text: none in an empty one, a word is its own only word, and where
/// white space cuts a text, its words are those before and then those behind.
pub proof fn law_words(a: Seq<char>, c: char, b: Seq<char>)
    ensures
        words(Seq::empty()).len() == 0,
        is_word(a) ==> words(a) == seq![a],
        is_space(c) ==> words(a + seq![c] + b) == words(a) + words(b),
{
    let none: Seq<char> = Seq::empty();
    assert(trim_start(none) =~= none);
    if is_word(a) {
        lemma_first_where_is(a, ink(), 0);
        assert(trim_start(a) =~= a);
        lemma_first_where_is(a, space(), a.len() as int);
        assert(a.take(a.len() as int) =~= a);
        assert(a.skip(a.len() as int) =~= none);
        assert(words(none) =~= Seq::empty());
        assert(words(a.skip(a.len() as int)) == words(none));
        assert(words(a) =~= seq![a.take(a.len() as int)]);
    }
    if is_space(c) {
        lemma_words_cut(a, c, b);
    }
}

proof fn lemma_words_cut(a: Seq<char>, c: char, b: Seq<char>)
    requires
        is_space(c),
    ensures
        words(a + seq![c] + b) == words(a) + words(b),
    decreases a.len(),
{
    let s = a + seq![c] + b;
    let ka = first_where(a, ink());
    lemma_first_where(a, ink());
    let t = trim_start(a);
    if t.len() == 0 {
        let gap = a + seq![c];
        assert(is_gap(gap)) by {
            assert forall|i: int| 0 <= i < gap.len() implies is_space(#[trigger] gap[i]) by {
                if i < a.len() {
                    assert(!ink()(a[i]));
                }
            }
        }
        lemma_words_behind(gap, b);
        assert(words(a) + words(b) =~= words(b));
    } else {
        let tail = seq![c] + b;
        assert(t[0] == a[ka]);
        let gap = a.take(ka);
        assert(is_gap(gap)) by {
            assert forall|i: int| 0 <= i < gap.len() implies is_space(#[trigger] gap[i]) by {
                assert(!ink()(a[i]));
            }
        }
        let u = t + tail;
        assert(u[0] == t[0]);
        lemma_gap_first(gap, u);
        assert(s =~= gap + u);
        assert(trim_start(s) == u);
        let k = first_where(t, space());
        lemma_first_where(t, space());
        assert(k > 0);
        assert forall|j: int| 0 <= j < k implies !space()(#[trigger] u[j]) by {
            assert(u[j] == t[j]);
        }
        if k == t.len() {
            assert(u[k] == c);
        } else {
            assert(u[k] == t[k]);
        }
        lemma_first_where_is(u, space(), k);
        assert(u.take(k) =~= t.take(k));
        let rest = t.skip(k);
        assert(u.skip(k) =~= rest + seq![c] + b);
        lemma_words_cut(rest, c, b);
        assert(words(s) =~= words(a) + words(b));
    }
}

/// The first word of a text is the first of its words; it is empty where there is
/// none.
pub proof fn law_first_word(s: Seq<char>)
    ensures
        words(s).len() > 0 ==> first_word(s) == words(s)[0],
        words(s).len() == 0 ==> first_word(s).len() == 0,
{
    lemma_first_where(s, ink());
    lemma_first_where(trim_start(s), space());
}

/// A command is its verb and what stands behind it, trimmed; the words behind the
/// verb are the words of that.
pub proof fn law_a_command_is_verb_and_argument(
    gap: Seq<char>,
    verb: Seq<char>,
    c: char,
    rest: Seq<char>,
)
    requires
        is_gap(gap),
        is_word(verb),
        is_space(c),
    ensures
        first_word(gap + verb + seq![c] + rest) == verb,
        argument(gap + verb + seq![c] + rest) == trim(rest),
        arguments(gap + verb + seq![c] + rest) == words(rest),
        first_word(gap + verb) == verb,
        argument(gap + verb).len() == 0,
        arguments(gap + verb).len() == 0,
{
    let none: Seq<char> = Seq::empty();
    let bare = verb + seq![c] + rest;
    let cmd = gap + verb + seq![c] + rest;
    assert(cmd =~= gap + bare);
    lemma_words_behind(gap, bare);
    lemma_words_behind(gap, verb);
    law_words(verb, c, rest);
    assert((seq![verb] + words(rest)).skip(1) =~= words(rest));
    assert(arguments(cmd) =~= words(rest));
    lemma_first_where_is(bare, ink(), 0);
    assert(trim_start(bare) =~= bare);
    assert forall|j: int| 0 <= j < verb.len() implies !space()(#[trigger] bare[j]) by {
        assert(bare[j] == verb[j]);
    }
    assert(bare[verb.len() as int] == c);
    lemma_first_where_is(bare, space(), verb.len() as int);
    assert(bare.take(verb.len() as int) =~= verb);
    let tail = bare.skip(verb.len() as int);
    assert(tail =~= seq![c] + rest);
    assert(is_gap(seq![c]));
    lemma_words_behind(seq![c], rest);
    assert(trim(tail) == trim(rest));
    lemma_first_where_is(verb, ink(), 0);
    assert(trim_start(verb) =~= verb);
    lemma_first_where_is(verb, space(), verb.len() as int);
    assert(verb.take(verb.len() as int) =~= verb);
    assert(verb.skip(verb.len() as int) =~= none);
    law_trimming_takes_the_ends(none, none, none);
    assert(none + none + none =~= none);
}

/// The lines of a text: one where no delimiter is in it, and where one is, those
/// before and then those behind it.
pub proof fn law_pieces(a: Seq<char>, d: char, b: Seq<char>)
    ensures
        !a.contains(d) ==> split_all(a, d) == seq![a],
        split_all(a + seq![d] + b, d) == split_all(a, d) + split_all(b, d),
{
    crate::point_laws::lemma_split_append(a, b, d);
    if !a.contains(d) {
        lemma_first_where_is(a, exactly(d), a.len() as int);
    }
}

/// A number in decimal is made of digits that stand for it, without zeros before
/// them.
pub proof fn law_decimal_stands_for_the_number(n: nat)
    ensures
        decimal(n).len() > 0,
        all_digits(decimal(n)),
        number(digits(decimal(n))) == n,
        decimal(n)[0] == '0' ==> n == 0,
        n == 0 ==> decimal(n) == seq!['0'],
    decreases n,
{
    let d = ('0' as u8 + n % 10) as u8 as char;
    assert(is_digit(d));
    assert((d as u8 - '0' as u8) as u8 == n % 10);
    if n < 10 {
        assert(digits(decimal(n)) =~= seq![(n % 10) as u8]);
        assert(seq![(n % 10) as u8].drop_last() =~= Seq::<u8>::empty());
        assert(number(Seq::<u8>::empty()) == 0);
    } else {
        law_decimal_stands_for_the_number(n / 10);
        let before = decimal(n / 10);
        assert(digits(decimal(n)).drop_last() =~= digits(before));
        assert(digits(decimal(n)).last() == n % 10);
        assert forall|i: int| 0 <= i < decimal(n).len() implies is_digit(#[trigger] decimal(n)[i]) by {
            if i < before.len() {
                assert(decimal(n)[i] == before[i]);
                assert(is_digit(before[i]));
            }
        }
        assert(decimal(n)[0] == before[0]);
    }
}

/// A text in a column: the text itself, then spaces up to the width of the column.
pub proof fn law_padding_is_spaces(s: Seq<char>, width: nat)
    ensures
        padded(s, width).len() == (if s.len() >= width {
            s.len()
        } else {
            width
        }),
        padded(s, width).take(s.len() as int) == s,
        forall|i: int| s.len() <= i < padded(s, width).len() ==> #[trigger] padded(s, width)[i] == ' ',
    decreases width - s.len(),
{
    if s.len() < width {
        let t = s.push(' ');
        law_padding_is_spaces(t, width);
        let p = padded(s, width);
        assert(p == padded(t, width));
        assert(p.take(s.len() as int) =~= p.take(t.len() as int).take(s.len() as int));
        assert(t.take(s.len() as int) =~= s);
        assert(p.take(t.len() as int)[s.len() as int] == ' ');
    } else {
        assert(s.take(s.len() as int) =~= s);
    }
}

/// A text at the right of a column: spaces up to the width of the column, then the
/// text itself.
pub proof fn law_alignment_is_spaces(s: Seq<char>, width: nat)
    ensures
        ({
            let r = aligned(s, width);
            &&& r.len() == (if s.len() >= width {
                s.len()
            } else {
                width
            })
            &&& r.skip(r.len() - s.len()) == s
            &&& forall|i: int| 0 <= i < r.len() - s.len() ==> #[trigger] r[i] == ' '
        }),
    decreases width - s.len(),
{
    if s.len() < width {
        let t = seq![' '] + s;
        law_alignment_is_spaces(t, width);
        let r = aligned(s, width);
        assert(r == aligned(t, width));
        let k = r.len() - t.len();
        assert(r.skip(k + 1) =~= r.skip(k).skip(1));
        assert(t.skip(1) =~= s);
        assert(r[k] == r.skip(k)[0]);
    } else {
        assert(s.skip(0) =~= s);
    }
}

/// Two letters are the same but for their case: small and capital of each other.
pub open spec fn is_pair_of_cases(small: char, capital: char) -> bool {
    'a' <= small <= 'z' && 'A' <= capital <= 'Z' && small as int - 'a' as int == capital as int - 'A' as int
}

/// Texts that differ in case alone are as long as each other, and differ nowhere
/// but between a small ASCII letter and its capital.
pub proof fn law_what_differs_in_case_alone(a: Seq<char>, b: Seq<char>)
    ensures
        same_but_case(a, b) <==> a.len() == b.len() && forall|i: int|
            0 <= i < a.len() ==> (#[trigger] a[i] == b[i] || is_pair_of_cases(a[i], b[i])
                || is_pair_of_cases(b[i], a[i])),
        same_but_case(upper_text(a), a),
        same_but_case(lower_text(a), a),
{
    assert(lower_text(a).len() == a.len() && lower_text(b).len() == b.len());
    if same_but_case(a, b) {
        assert forall|i: int| 0 <= i < a.len() implies (#[trigger] a[i] == b[i] || is_pair_of_cases(
            a[i],
            b[i],
        ) || is_pair_of_cases(b[i], a[i])) by {
            assert(lower_text(a)[i] == lower_text(b)[i]);
            assert(lower_text(a)[i] == crate::text::lower(a[i]));
            assert(lower_text(b)[i] == crate::text::lower(b[i]));
        }
    }
    if a.len() == b.len() && forall|i: int|
        0 <= i < a.len() ==> (#[trigger] a[i] == b[i] || is_pair_of_cases(a[i], b[i])
            || is_pair_of_cases(b[i], a[i])) {
        assert forall|i: int| 0 <= i < a.len() implies #[trigger] lower_text(a)[i] == lower_text(b)[i] by {
            assert(a[i] == b[i] || is_pair_of_cases(a[i], b[i]) || is_pair_of_cases(b[i], a[i]));
        }
        assert(lower_text(a) =~= lower_text(b));
    }
    assert(lower_text(upper_text(a)) =~= lower_text(a));
    assert(lower_text(lower_text(a)) =~= lower_text(a));
}

/// No word of a text is empty, and none has white space in it.
pub proof fn law_no_word_is_empty(s: Seq<char>, i: int)
    requires
        0 <= i < words(s).len(),
    ensures
        is_word(words(s)[i]),
    decreases s.len(),
{
    lemma_first_where(s, ink());
    let t = trim_start(s);
    let k = first_where(t, space());
    lemma_first_where(t, space());
    assert(t[0] == s[first_where(s, ink())]);
    if i == 0 {
        assert forall|j: int| 0 <= j < t.take(k).len() implies !is_space(#[trigger] t.take(k)[j]) by {
            assert(!space()(t[j]));
        }
    } else {
        law_no_word_is_empty(t.skip(k), i - 1);
    }
}

/// A text without white space at its ends is its own trim.
pub(crate) proof fn lemma_own_trim(s: Seq<char>)
    requires
        is_trim(s),
    ensures
        trim(s) == s,
{
    let none: Seq<char> = Seq::empty();
    law_trimming_takes_the_ends(none, s, none);
    assert(none + s + none =~= s);
}

} // verus!
