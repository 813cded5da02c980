//! Which texts are numbers.

use vstd::arithmetic::power::{lemma_pow0, lemma_pow_positive, pow};
use vstd::arithmetic::power2::pow2;
use vstd::prelude::*;

use crate::number::{
    all_digits, decimal_of, digits, digits_ok, double_of, exponent_mark, exponent_of,
    fraction_part, is_digit, is_finite, is_negative, is_positive, lemma_large, lemma_not_tiny,
    lemma_number_above, lemma_number_append, lemma_number_below, lemma_number_zero, lemma_small,
    number, read_double, rounds_to_finite, rounds_to_zero, significand, unsigned, whole_part,
    Double, Sign,
};
use crate::text::{exactly, first_where, lemma_first_where, lemma_first_where_is, lower, lower_text};

verus! {

/// A number with its sign turned.
pub open spec fn negated(d: Double) -> Double {
    match d {
        Double::Infinite { negative } => Double::Infinite { negative: !negative },
        Double::Finite { sign: Sign::Positive } => Double::Finite { sign: Sign::Negative },
        Double::Finite { sign: Sign::Negative } => Double::Finite { sign: Sign::Positive },
        _ => d,
    }
}

/// A plus before a text without a sign changes nothing, and a minus turns the sign of
/// the number and nothing else. So no text with a minus is above zero.
pub proof fn law_signs(s: Seq<char>)
    requires
        s.len() > 0 ==> s[0] != '-' && s[0] != '+',
    ensures
        double_of(seq!['+'] + s) == double_of(s),
        double_of(seq!['-'] + s) == negated(double_of(s)),
        !is_positive(seq!['-'] + s),
{
    let plus = seq!['+'] + s;
    let minus = seq!['-'] + s;
    assert(unsigned(plus) =~= s);
    assert(unsigned(minus) =~= s);
    assert(unsigned(s) =~= s);
    assert(is_negative(minus) && !is_negative(plus) && !is_negative(s));
}

/// Digits are no word.
proof fn lemma_no_word(s: Seq<char>)
    requires
        s.len() > 0,
        is_digit(s[0]) || s[0] == '.',
    ensures
        lower_text(s) != "inf"@,
        lower_text(s) != "infinity"@,
        lower_text(s) != "nan"@,
        unsigned(s) == s,
        !is_negative(s),
{
    reveal_strlit("inf");
    reveal_strlit("infinity");
    reveal_strlit("nan");
    assert(lower_text(s)[0] == lower(s[0]));
    assert(lower(s[0]) == s[0]);
    assert("inf"@[0] == 'i' && "infinity"@[0] == 'i' && "nan"@[0] == 'n');
}

proof fn lemma_digits_ok(a: Seq<char>)
    requires
        all_digits(a),
    ensures
        digits_ok(digits(a)),
        digits(a).len() == a.len(),
{
    assert forall|i: int| 0 <= i < digits(a).len() implies #[trigger] digits(a)[i] <= 9 by {
        assert(is_digit(a[i]));
    }
}

/// What digits with a point among them stand for.
proof fn lemma_pointed(a: Seq<char>, b: Seq<char>)
    requires
        all_digits(a),
        all_digits(b),
        a.len() + b.len() > 0,
    ensures
        decimal_of(a + seq!['.'] + b) == Some((number(digits(a + b)), -(b.len() as int))),
        all_digits(a + b),
{
    let s = a + seq!['.'] + b;
    assert forall|i: int| 0 <= i < s.len() implies !exponent_mark()(#[trigger] s[i]) by {
        if i < a.len() {
            assert(is_digit(a[i]));
            assert(s[i] == a[i]);
        } else if i > a.len() {
            assert(is_digit(b[i - a.len() - 1]));
            assert(s[i] == b[i - a.len() - 1]);
        }
    }
    lemma_first_where_is(s, exponent_mark(), s.len() as int);
    assert(significand(s) =~= s);
    assert forall|i: int| 0 <= i < a.len() implies !exactly('.')(#[trigger] s[i]) by {
        assert(is_digit(a[i]));
        assert(s[i] == a[i]);
    }
    assert(s[a.len() as int] == '.');
    lemma_first_where_is(s, exactly('.'), a.len() as int);
    assert(whole_part(s) =~= a);
    assert(fraction_part(s) =~= b);
    lemma_both_digits(a, b);
}

proof fn lemma_both_digits(a: Seq<char>, b: Seq<char>)
    requires
        all_digits(a),
        all_digits(b),
    ensures
        all_digits(a + b),
{
    assert forall|i: int| 0 <= i < (a + b).len() implies is_digit(#[trigger] (a + b)[i]) by {
        if i < a.len() {
            assert(is_digit(a[i]));
        } else {
            assert(is_digit(b[i - a.len()]));
        }
    }
}

/// What digits alone stand for.
proof fn lemma_whole(a: Seq<char>)
    requires
        all_digits(a),
        a.len() > 0,
    ensures
        decimal_of(a) == Some((number(digits(a)), 0int)),
{
    assert forall|i: int| 0 <= i < a.len() implies !exponent_mark()(#[trigger] a[i]) by {
        assert(is_digit(a[i]));
    }
    lemma_first_where_is(a, exponent_mark(), a.len() as int);
    assert(significand(a) =~= a);
    assert forall|i: int| 0 <= i < a.len() implies !exactly('.')(#[trigger] a[i]) by {
        assert(is_digit(a[i]));
    }
    lemma_first_where_is(a, exactly('.'), a.len() as int);
    assert(whole_part(a) =~= a);
    assert(fraction_part(a) =~= Seq::empty());
    assert(whole_part(a) + fraction_part(a) =~= a);
}

/// Digits are a number: zero if they are all zeros, and else above zero. It is finite
/// with up to 308 digits, and out of range with 310 or more of them and no zero
/// first.
pub proof fn law_digits_are_a_number(a: Seq<char>)
    requires
        all_digits(a),
        a.len() > 0,
    ensures
        a.len() <= 308 ==> is_finite(a),
        a.len() >= 310 && a[0] != '0' ==> double_of(a) == (Double::Infinite { negative: false }),
        (forall|i: int| 0 <= i < a.len() ==> #[trigger] a[i] == '0') && a.len() <= 308 ==> double_of(a)
            == (Double::Finite { sign: Sign::Zero }),
        (exists|i: int| 0 <= i < a.len() && #[trigger] a[i] != '0') ==> is_positive(a),
{
    assert(is_digit(a[0]));
    lemma_no_word(a);
    lemma_whole(a);
    lemma_digits_ok(a);
    let d = digits(a);
    let m = number(d);
    lemma_number_below(d);
    if a.len() <= 308 {
        lemma_small(m, a.len(), 0);
    }
    if a.len() >= 310 && a[0] != '0' {
        assert(d[0] != 0);
        lemma_number_above(d);
        lemma_large(m, a.len(), 0);
    }
    lemma_number_zero(d);
    if forall|i: int| 0 <= i < a.len() ==> #[trigger] a[i] == '0' {
        assert forall|i: int| 0 <= i < d.len() implies #[trigger] d[i] == 0 by {
            assert(a[i] == '0');
        }
    }
    if exists|i: int| 0 <= i < a.len() && #[trigger] a[i] != '0' {
        let i = choose|i: int| 0 <= i < a.len() && #[trigger] a[i] != '0';
        assert(is_digit(a[i]));
        assert(d[i] != 0);
    }
}

/// Digits with a point before, among or behind them are a number, finite with up to
/// 308 digits before the point.
pub proof fn law_digits_with_a_point_are_a_number(a: Seq<char>, b: Seq<char>)
    requires
        all_digits(a),
        all_digits(b),
        a.len() + b.len() > 0,
    ensures
        double_of(a + seq!['.'] + b) != Double::Malformed,
        double_of(a + seq!['.'] + b) != Double::NotANumber,
        a.len() <= 308 ==> is_finite(a + seq!['.'] + b),
{
    let s = a + seq!['.'] + b;
    if a.len() > 0 {
        assert(is_digit(a[0]));
        assert(s[0] == a[0]);
    }
    lemma_no_word(s);
    lemma_pointed(a, b);
    lemma_digits_ok(a + b);
    lemma_number_below(digits(a + b));
    if a.len() <= 308 {
        lemma_small(number(digits(a + b)), (a + b).len(), -(b.len() as int));
    }
}

/// A number may have an exponent, behind either mark: digits, with a sign before them
/// or not. A mark without digits behind it makes a text no number.
pub proof fn law_exponents(a: Seq<char>, mark: char, x: Seq<char>)
    requires
        all_digits(a),
        a.len() > 0,
        mark == 'e' || mark == 'E',
        all_digits(x),
    ensures
        x.len() > 0 ==> double_of(a + seq![mark] + x) != Double::Malformed,
        x.len() > 0 ==> double_of(a + seq![mark] + (seq!['-'] + x)) != Double::Malformed,
        x.len() > 0 ==> double_of(a + seq![mark] + (seq!['+'] + x)) == double_of(a + seq![mark] + x),
        double_of(a + seq![mark]) == Double::Malformed,
        double_of(a + seq!['e'] + x) == double_of(a + seq!['E'] + x),
{
    let minus = seq!['-'] + x;
    let plus = seq!['+'] + x;
    let none: Seq<char> = Seq::empty();
    if x.len() > 0 {
        assert(is_digit(x[0]));
    }
    assert(unsigned(minus) =~= x);
    assert(unsigned(plus) =~= x);
    assert(unsigned(x) =~= x);
    assert(!is_negative(plus) && !is_negative(x));
    lemma_marked_number(a, mark, x);
    lemma_marked_number(a, mark, minus);
    lemma_marked_number(a, mark, plus);
    lemma_marked_number(a, mark, none);
    lemma_marked_number(a, 'e', x);
    lemma_marked_number(a, 'E', x);
    assert(a + seq![mark] + none =~= a + seq![mark]);
}

/// What digits with an exponent stand for.
proof fn lemma_marked_number(a: Seq<char>, mark: char, x: Seq<char>)
    requires
        all_digits(a),
        a.len() > 0,
        mark == 'e' || mark == 'E',
    ensures
        ({
            let s = a + seq![mark] + x;
            double_of(s) == (match exponent_of(x) {
                None => Double::Malformed,
                Some(e) => {
                    let m = number(digits(a));
                    if !rounds_to_finite(m, e) {
                        Double::Infinite { negative: false }
                    } else if rounds_to_zero(m, e) {
                        Double::Finite { sign: Sign::Zero }
                    } else {
                        Double::Finite { sign: Sign::Positive }
                    }
                },
            })
        }),
{
    let s = a + seq![mark] + x;
    assert(is_digit(a[0]));
    assert(s[0] == a[0]);
    lemma_no_word(s);
    assert forall|i: int| 0 <= i < a.len() implies !exponent_mark()(#[trigger] s[i]) by {
        assert(is_digit(a[i]));
        assert(s[i] == a[i]);
    }
    assert(s[a.len() as int] == mark);
    lemma_first_where_is(s, exponent_mark(), a.len() as int);
    assert(significand(s) =~= a);
    assert(s.skip(a.len() as int + 1) =~= x);
    assert forall|i: int| 0 <= i < a.len() implies !exactly('.')(#[trigger] a[i]) by {
        assert(is_digit(a[i]));
    }
    lemma_first_where_is(a, exactly('.'), a.len() as int);
    assert(whole_part(a) =~= a);
    assert(fraction_part(a) =~= Seq::empty());
    assert(whole_part(a) + fraction_part(a) =~= a);
}

/// A character that a number in digits may hold.
pub open spec fn is_number_char(c: char) -> bool {
    is_digit(c) || c == '.' || c == 'e' || c == 'E' || c == '+' || c == '-'
}

/// A text with any other character in it is no number, unless it is one of the words
/// for an infinity or for what is no number, with a sign or not.
pub proof fn law_other_characters_are_no_number(s: Seq<char>, i: int)
    requires
        0 <= i < s.len(),
        !is_number_char(s[i]),
        lower_text(unsigned(s)) != "inf"@,
        lower_text(unsigned(s)) != "infinity"@,
        lower_text(unsigned(s)) != "nan"@,
    ensures
        double_of(s) == Double::Malformed,
{
    let b = unsigned(s);
    let k = if b.len() < s.len() {
        i - 1
    } else {
        i
    };
    assert(b[k] == s[i]);
    let p = first_where(b, exponent_mark());
    lemma_first_where(b, exponent_mark());
    let m = significand(b);
    let q = first_where(m, exactly('.'));
    lemma_first_where(m, exactly('.'));
    let d = whole_part(m) + fraction_part(m);
    if k < p {
        assert(m[k] == b[k]);
        if k < q {
            assert(d[k] == b[k]);
            assert(!is_digit(d[k]));
        } else {
            assert(k > q);
            assert(d[k - 1] == b[k]);
            assert(!is_digit(d[k - 1]));
        }
        assert(!all_digits(d));
    } else {
        assert(k > p);
        let x = b.skip(p + 1);
        let y = unsigned(x);
        let j = k - p - 1;
        assert(x[j] == b[k]);
        if y.len() < x.len() {
            assert(j > 0);
            assert(y[j - 1] == x[j]);
            assert(!is_digit(y[j - 1]));
        } else {
            assert(y[j] == x[j]);
            assert(!is_digit(y[j]));
        }
        assert(exponent_of(x) is None);
    }
}

/// An exponent moves the point: a positive one is as many zeros behind the digits, and
/// a negative one is a point as many digits before the end.
pub proof fn law_an_exponent_moves_the_point(
    a: Seq<char>,
    b: Seq<char>,
    mark: char,
    x: Seq<char>,
    zeros: Seq<char>,
)
    requires
        all_digits(a),
        all_digits(b),
        a.len() > 0,
        mark == 'e' || mark == 'E',
        all_digits(x),
        x.len() > 0,
        forall|i: int| 0 <= i < zeros.len() ==> #[trigger] zeros[i] == '0',
    ensures
        number(digits(x)) == zeros.len() ==> double_of(a + seq![mark] + x) == double_of(a + zeros),
        number(digits(x)) == b.len() ==> double_of((a + b) + seq![mark] + (seq!['-'] + x)) == double_of(
            a + seq!['.'] + b,
        ),
{
    let minus = seq!['-'] + x;
    assert(is_digit(x[0]));
    assert(unsigned(minus) =~= x);
    assert(unsigned(x) =~= x);
    assert(is_digit(a[0]));
    if number(digits(x)) == zeros.len() {
        assert(all_digits(zeros));
        lemma_both_digits(a, zeros);
        lemma_marked_number(a, mark, x);
        let s = a + zeros;
        assert(s[0] == a[0]);
        lemma_no_word(s);
        lemma_whole(s);
        assert(digits(s) =~= digits(a) + digits(zeros));
        lemma_number_append(digits(a), digits(zeros));
        lemma_number_zero(digits(zeros));
        let m = number(digits(a));
        let k = zeros.len();
        let p = pow(10, k);
        lemma_pow_positive(10, k);
        lemma_pow0(10);
        let n = number(digits(s));
        assert(n == m * p);
        assert(n * pow(10, 0) == n) by (nonlinear_arith)
            requires
                pow(10, 0) == 1,
        ;
        assert(m * p == 0 <==> m == 0) by (nonlinear_arith)
            requires
                p > 0,
        ;
    }
    if number(digits(x)) == b.len() {
        lemma_both_digits(a, b);
        lemma_marked_number(a + b, mark, minus);
        let s = a + seq!['.'] + b;
        assert(s[0] == a[0]);
        lemma_no_word(s);
        lemma_pointed(a, b);
    }
}

/// Digits with a point among them are zero if they are all zeros, and else, with up
/// to 308 of them before the point and 300 behind it, a finite number above zero.
pub proof fn law_zero_and_above(a: Seq<char>, b: Seq<char>)
    requires
        all_digits(a),
        all_digits(b),
        a.len() + b.len() > 0,
        a.len() <= 308,
        b.len() <= 300,
    ensures
        double_of(a + seq!['.'] + b) == (Double::Finite {
            sign: if forall|i: int| 0 <= i < (a + b).len() ==> #[trigger] (a + b)[i] == '0' {
                Sign::Zero
            } else {
                Sign::Positive
            },
        }),
{
    let s = a + seq!['.'] + b;
    let c = a + b;
    if a.len() > 0 {
        assert(is_digit(a[0]));
        assert(s[0] == a[0]);
    }
    lemma_no_word(s);
    lemma_pointed(a, b);
    lemma_digits_ok(c);
    let d = digits(c);
    let m = number(d);
    let e = -(b.len() as int);
    lemma_number_below(d);
    lemma_small(m, c.len(), e);
    lemma_number_zero(d);
    lemma_pow0(10);
    if forall|i: int| 0 <= i < c.len() ==> #[trigger] c[i] == '0' {
        assert forall|i: int| 0 <= i < d.len() implies #[trigger] d[i] == 0 by {
            assert(c[i] == '0');
        }
        lemma_pow_positive(10, b.len());
        assert(m * pow2(1075) == 0) by (nonlinear_arith)
            requires
                m == 0,
        ;
    } else {
        let i = choose|i: int| 0 <= i < c.len() && #[trigger] c[i] != '0';
        assert(is_digit(c[i]));
        assert(d[i] != 0);
        lemma_not_tiny(m, 1, e);
    }
}

/// The words for an infinity and for what is no number, in whatever case.
pub proof fn law_words_for_numbers(s: Seq<char>)
    ensures
        lower_text(s) == "inf"@ || lower_text(s) == "infinity"@ ==> double_of(s) == (Double::Infinite {
            negative: false,
        }),
        lower_text(s) == "nan"@ ==> double_of(s) == Double::NotANumber,
        s.len() == 0 ==> double_of(s) == Double::Malformed,
{
    reveal_strlit("inf");
    reveal_strlit("infinity");
    reveal_strlit("nan");
    assert("inf"@.len() == 3 && "infinity"@.len() == 8 && "nan"@.len() == 3);
    assert("inf"@[0] == 'i' && "infinity"@[0] == 'i' && "nan"@[0] == 'n');
    assert(lower_text(s).len() == s.len());
    if s.len() > 0 {
        assert(lower_text(s)[0] == lower(s[0]));
        if s[0] == '-' || s[0] == '+' {
            assert(lower(s[0]) == s[0]);
        } else {
            assert(unsigned(s) =~= s);
        }
    } else {
        assert(unsigned(s) =~= s);
        lemma_first_where(s, exponent_mark());
        assert(significand(s) =~= s);
        lemma_first_where(s, exactly('.'));
        assert(whole_part(s) =~= s);
        assert(whole_part(s) + fraction_part(s) =~= s);
    }
}

/// Up to 308 digits are read as zero if they are all zeros, and else as a number above
/// zero, or below it behind a minus.
pub proof fn law_reading_digits(text: &str, r: Double, minus: &str, q: Double)
    requires
        call_ensures(read_double, (text,), r),
        call_ensures(read_double, (minus,), q),
        minus@ == seq!['-'] + text@,
        all_digits(text@),
        0 < text@.len() <= 308,
    ensures
        (forall|i: int| 0 <= i < text@.len() ==> #[trigger] text@[i] == '0') ==> r == (Double::Finite {
            sign: Sign::Zero,
        }) && q == r,
        !(forall|i: int| 0 <= i < text@.len() ==> #[trigger] text@[i] == '0') ==> r == (Double::Finite {
            sign: Sign::Positive,
        }) && q == (Double::Finite { sign: Sign::Negative }),
{
    assert(is_digit(text@[0]));
    law_signs(text@);
    law_digits_are_a_number(text@);
}

} // verus!
