//! What holds of every point file.

use vstd::prelude::*;

use crate::number::{
    all_digits, decimal_of, double_of, exponent_mark, exponent_of, fraction_part, is_digit,
    is_finite, significand, unsigned, whole_part, Double,
};
use crate::pnezd::{
    column, comma_to_point, delimiter_char, fits, is_data, line_fields, line_record, normalized, number_of, occurrences,
    other_than, read_lines, read_text, resolved, split_runs, without, Delimiter, Format, Record,
};
use crate::text::{
    ascii_ink, ascii_space, exactly, first_where, first_word, ink, is_ascii_space, is_space, lemma_first_where, lemma_first_where_is,
    lemma_past_last, lemma_past_last_is, lower_text, past_last, space, split_all, split_at_most,
    trim, trim_start,
};

verus! {

/// The lines of a file that are neither blank nor comments.
pub open spec fn data_lines(lines: Seq<Seq<char>>) -> Seq<Seq<char>> {
    lines.filter(|line: Seq<char>| is_data(trim(line)))
}

/// Every line with data is a point or counted as skipped.
pub proof fn law_every_line_counts(text: Seq<char>, fmt: Format)
    ensures
        read_text(text, fmt).0.len() + read_text(text, fmt).1 == data_lines(
            split_all(text, '\n'),
        ).len(),
{
    lemma_lines_count(split_all(text, '\n'), fmt);
}

proof fn lemma_lines_count(lines: Seq<Seq<char>>, fmt: Format)
    ensures
        read_lines(lines, fmt).0.len() + read_lines(lines, fmt).1 == data_lines(lines).len(),
    decreases lines.len(),
{
    reveal(Seq::filter);
    if lines.len() > 0 {
        lemma_lines_count(lines.drop_last(), fmt);
    }
}

proof fn lemma_lines_append(a: Seq<Seq<char>>, b: Seq<Seq<char>>, fmt: Format)
    ensures
        read_lines(a + b, fmt).0 == read_lines(a, fmt).0 + read_lines(b, fmt).0,
        read_lines(a + b, fmt).1 == read_lines(a, fmt).1 + read_lines(b, fmt).1,
    decreases b.len(),
{
    if b.len() == 0 {
        assert(a + b =~= a);
        assert(read_lines(a, fmt).0 + read_lines(b, fmt).0 =~= read_lines(a, fmt).0);
    } else {
        let c = b.drop_last();
        lemma_lines_append(a, c, fmt);
        assert((a + b).drop_last() =~= a + c);
        assert((a + b).last() == b.last());
        assert(read_lines(a + b, fmt).0 =~= read_lines(a, fmt).0 + read_lines(b, fmt).0);
    }
}

pub(crate) proof fn lemma_split_append(a: Seq<char>, b: Seq<char>, d: char)
    ensures
        split_all(a + seq![d] + b, d) == split_all(a, d) + split_all(b, d),
    decreases a.len(),
{
    let s = a + seq![d] + b;
    let k = first_where(a, exactly(d));
    lemma_first_where(a, exactly(d));
    assert forall|j: int| 0 <= j < k implies !exactly(d)(#[trigger] s[j]) by {
        assert(s[j] == a[j]);
    }
    lemma_first_where_is(s, exactly(d), k);
    if k < a.len() {
        lemma_split_append(a.skip(k + 1), b, d);
        assert(s.skip(k + 1) =~= a.skip(k + 1) + seq![d] + b);
        assert(s.take(k) =~= a.take(k));
        assert(split_all(s, d) =~= split_all(a, d) + split_all(b, d));
    } else {
        assert(s.take(k) =~= a);
        assert(s.skip(k + 1) =~= b);
    }
}

/// A file that continues another one after a line end holds the points of the
/// one, then those of the other.
pub proof fn law_files_concatenate(a: Seq<char>, b: Seq<char>, fmt: Format)
    ensures
        read_text(a + seq!['\n'] + b, fmt).0 == read_text(a, fmt).0 + read_text(b, fmt).0,
        read_text(a + seq!['\n'] + b, fmt).1 == read_text(a, fmt).1 + read_text(b, fmt).1,
{
    lemma_split_append(a, b, '\n');
    lemma_lines_append(split_all(a, '\n'), split_all(b, '\n'), fmt);
}

/// A line that is blank or a comment changes nothing, wherever it stands.
pub proof fn law_blanks_and_comments_are_ignored(
    before: Seq<Seq<char>>,
    line: Seq<char>,
    after: Seq<Seq<char>>,
    fmt: Format,
)
    requires
        trim(line).len() == 0 || trim(line)[0] == '#',
    ensures
        read_lines(before.push(line) + after, fmt) == read_lines(before + after, fmt),
{
    lemma_lines_append(before.push(line), after, fmt);
    lemma_lines_append(before, after, fmt);
    assert(before.push(line).drop_last() =~= before);
}

/// A format with the columns of northing and easting exchanged.
pub open spec fn mirrored(fmt: Format) -> Format {
    Format { northing: fmt.easting, easting: fmt.northing, ..fmt }
}

/// A record with northing and easting exchanged.
pub open spec fn mirrored_record(r: Record) -> Record {
    Record { northing: r.easting, easting: r.northing, ..r }
}

proof fn lemma_mirrored_line(line: Seq<char>, fmt: Format)
    ensures
        line_record(line, mirrored(fmt)) == match line_record(line, fmt) {
            Some(r) => Some(mirrored_record(r)),
            None => None,
        },
{
    assert(mirrored(fmt).last_column() == fmt.last_column());
    assert(line_fields(line, mirrored(fmt)) == line_fields(line, fmt));
}

proof fn lemma_mirrored_lines(lines: Seq<Seq<char>>, fmt: Format)
    ensures
        read_lines(lines, mirrored(fmt)).0 == read_lines(lines, fmt).0.map_values(
            |r: Record| mirrored_record(r),
        ),
        read_lines(lines, mirrored(fmt)).1 == read_lines(lines, fmt).1,
    decreases lines.len(),
{
    if lines.len() > 0 {
        lemma_mirrored_lines(lines.drop_last(), fmt);
        lemma_mirrored_line(trim(lines.last()), fmt);
    }
    assert(read_lines(lines, mirrored(fmt)).0 =~= read_lines(lines, fmt).0.map_values(
        |r: Record| mirrored_record(r),
    ));
}

/// Reading a file with the columns of northing and easting exchanged, as PENZD
/// does against PNEZD, gives the same points with northing and easting exchanged.
pub proof fn law_exchanged_columns_exchange_coordinates(text: Seq<char>, fmt: Format)
    ensures
        read_text(text, mirrored(fmt)).0 == read_text(text, fmt).0.map_values(
            |r: Record| mirrored_record(r),
        ),
        read_text(text, mirrored(fmt)).1 == read_text(text, fmt).1,
{
    lemma_mirrored_lines(split_all(text, '\n'), fmt);
}

/// Texts put together with a delimiter between them.
pub open spec fn joined(pieces: Seq<Seq<char>>, d: char) -> Seq<char>
    decreases pieces.len(),
{
    if pieces.len() == 0 {
        Seq::empty()
    } else if pieces.len() == 1 {
        pieces[0]
    } else {
        pieces[0] + seq![d] + joined(pieces.skip(1), d)
    }
}

/// Cutting a line loses nothing: its pieces with the delimiter between them are
/// the line again. There are at most `n`, and none but the `n`-th has a delimiter
/// in it, so the `n`-th is the whole remainder of the line.
pub proof fn law_last_piece_is_the_remainder(s: Seq<char>, n: nat, d: char)
    requires
        n >= 1,
    ensures
        joined(split_at_most(s, n, d), d) == s,
        1 <= split_at_most(s, n, d).len() <= n,
        forall|i: int, j: int|
            #![trigger split_at_most(s, n, d)[i][j]]
            0 <= i < split_at_most(s, n, d).len() && i + 1 < n && 0 <= j < split_at_most(
                s,
                n,
                d,
            )[i].len() ==> split_at_most(s, n, d)[i][j] != d,
    decreases n,
{
    let k = first_where(s, exactly(d));
    lemma_first_where(s, exactly(d));
    let p = split_at_most(s, n, d);
    if n == 1 || k == s.len() {
        assert(p =~= seq![s]);
        assert forall|i: int, j: int|
            #![trigger p[i][j]]
            0 <= i < p.len() && i + 1 < n && 0 <= j < p[i].len() implies p[i][j] != d by {
            assert(!exactly(d)(s[j]));
        }
    } else {
        let rest = split_at_most(s.skip(k + 1), (n - 1) as nat, d);
        law_last_piece_is_the_remainder(s.skip(k + 1), (n - 1) as nat, d);
        assert(p.skip(1) =~= rest);
        assert(s =~= s.take(k) + seq![d] + s.skip(k + 1));
        assert forall|i: int, j: int|
            #![trigger p[i][j]]
            0 <= i < p.len() && i + 1 < n && 0 <= j < p[i].len() implies p[i][j] != d by {
            if i == 0 {
                assert(p[i][j] == s[j]);
                assert(!exactly(d)(s[j]));
            } else {
                assert(p[i] == rest[i - 1]);
                assert(rest[i - 1][j] != d);
            }
        }
    }
}

/// Trimming a text puts no character into it.
proof fn lemma_trim_keeps(s: Seq<char>, c: char)
    requires
        !s.contains(c),
    ensures
        !trim(s).contains(c),
{
    let t = trim_start(s);
    lemma_first_where(s, ink());
    lemma_past_last(t, ink());
    if trim(s).contains(c) {
        let j = choose|j: int| 0 <= j < trim(s).len() && trim(s)[j] == c;
        assert(s[first_where(s, ink()) + j] == c);
    }
}

/// Cutting at runs of white space leaves none in any piece but the `n`-th.
proof fn lemma_runs(s: Seq<char>, n: nat)
    requires
        n >= 1,
    ensures
        forall|i: int, j: int|
            #![trigger split_runs(s, n)[i][j]]
            0 <= i < split_runs(s, n).len() && i + 1 < n && 0 <= j < split_runs(s, n)[i].len()
                ==> !is_ascii_space(split_runs(s, n)[i][j]),
    decreases n,
{
    let t = s.skip(first_where(s, ascii_ink()));
    let k = first_where(t, ascii_space());
    let p = split_runs(s, n);
    lemma_first_where(s, ascii_ink());
    lemma_first_where(t, ascii_space());
    if t.len() > 0 && n > 1 {
        if k < t.len() {
            let rest = split_runs(t.skip(k), (n - 1) as nat);
            lemma_runs(t.skip(k), (n - 1) as nat);
            assert(p =~= seq![t.take(k)] + rest);
        } else {
            assert(p =~= seq![t]);
        }
        assert forall|i: int, j: int|
            #![trigger p[i][j]]
            0 <= i < p.len() && i + 1 < n && 0 <= j < p[i].len() implies !is_ascii_space(p[i][j]) by {
            if i == 0 {
                assert(p[i][j] == t[j]);
                assert(!ascii_space()(t[j]));
            } else {
                let rest = split_runs(t.skip(k), (n - 1) as nat);
                assert(p[i] == rest[i - 1]);
                assert(!is_ascii_space(rest[i - 1][j]));
            }
        }
    }
}

/// A delimiter cuts at a character.
pub open spec fn cuts_at(d: Delimiter, c: char) -> bool {
    if d == Delimiter::Whitespace {
        is_ascii_space(c)
    } else {
        c == delimiter_char(d)
    }
}

/// Only a description in the last mapped column takes the remainder of a line: any
/// other mapped column is one field, without the line's delimiter in it.
pub proof fn law_a_mapped_column_is_one_field(line: Seq<char>, fmt: Format, i: nat, c: char)
    requires
        i <= fmt.last_column(),
        fmt.last_column() + 2 <= usize::MAX,
        !(fmt.description matches Some(k) && k == i && i == fmt.last_column()),
        cuts_at(
            resolved(
                line,
                fmt.delimiter,
                fmt.pieces(),
                fmt.northing as nat,
                fmt.easting as nat,
            ),
            c,
        ),
    ensures
        !column(line_fields(line, fmt), i).contains(c),
{
    let n = fmt.pieces();
    let d = resolved(line, fmt.delimiter, n, fmt.northing as nat, fmt.easting as nat);
    let p = if d == Delimiter::Whitespace {
        lemma_runs(line, n);
        split_runs(line, n)
    } else {
        law_last_piece_is_the_remainder(line, n, delimiter_char(d));
        split_at_most(line, n, delimiter_char(d))
    };
    if i < p.len() {
        assert forall|j: int| 0 <= j < p[i as int].len() implies p[i as int][j] != c by {}
        lemma_trim_keeps(p[i as int], c);
        assert(column(line_fields(line, fmt), i) == trim(p[i as int]));
    }
}

/// A blank field is no number.
pub(crate) proof fn lemma_blank_is_no_number()
    ensures
        number_of(Seq::empty()) is None,
{
    let e: Seq<char> = Seq::empty();
    reveal(Seq::filter);
    assert(e.filter(ink()) =~= e);
    assert(e.filter(exactly(',')) =~= e);
    assert(e.filter(exactly('.')) =~= e);
    assert(normalized(e) =~= e);
    reveal_strlit("inf");
    reveal_strlit("infinity");
    reveal_strlit("nan");
    assert(unsigned(e) =~= e);
    assert(significand(e).len() == 0);
    assert(whole_part(significand(e)).len() == 0);
    assert(lower_text(e).len() == 0);
    assert(lower_text(e) != "inf"@ && lower_text(e) != "infinity"@ && lower_text(e) != "nan"@);
    assert(double_of(e) == Double::Malformed);
}

/// With the delimiter left open, a line holds a point if and only if it does with
/// some delimiter.
pub proof fn law_auto_finds_what_any_delimiter_finds(line: Seq<char>, fmt: Format)
    requires
        fmt.delimiter == Delimiter::Auto,
    ensures
        line_record(line, fmt) is Some <==> exists|d: Delimiter|
            d != Delimiter::Auto && #[trigger] line_record(line, Format { delimiter: d, ..fmt }) is Some,
{
    lemma_blank_is_no_number();
    let upto = fmt.pieces();
    let (n, e) = (fmt.northing as nat, fmt.easting as nat);
    assert forall|d: Delimiter| d != Delimiter::Auto implies (#[trigger] line_record(
        line,
        Format { delimiter: d, ..fmt },
    ) is Some) == fits(line, d, upto, n, e) by {
        assert((Format { delimiter: d, ..fmt }).pieces() == upto);
    }
    let r = resolved(line, fmt.delimiter, upto, n, e);
    assert((line_record(line, fmt) is Some) == fits(line, r, upto, n, e));
    if line_record(line, fmt) is Some {
        assert(line_record(line, Format { delimiter: r, ..fmt }) is Some);
    }
    if exists|d: Delimiter|
        d != Delimiter::Auto && #[trigger] line_record(line, Format { delimiter: d, ..fmt }) is Some {
        let d = choose|d: Delimiter|
            d != Delimiter::Auto && #[trigger] line_record(line, Format { delimiter: d, ..fmt }) is Some;
        assert(fits(line, d, upto, n, e));
    }
}

/// The feature code is one word; it is empty if and only if the description is
/// blank.
pub proof fn law_code_is_a_word(description: Seq<char>)
    ensures
        forall|i: int|
            0 <= i < first_word(description).len() ==> !is_space(#[trigger] first_word(description)[i]),
        first_word(description).len() == 0 <==> (forall|i: int|
            0 <= i < description.len() ==> is_space(#[trigger] description[i])),
{
    let s = description;
    let t = trim_start(s);
    lemma_first_where(s, ink());
    lemma_first_where(t, space());
    let w = first_word(s);
    assert forall|i: int| 0 <= i < w.len() implies !is_space(#[trigger] w[i]) by {
        assert(!space()(t[i]));
    }
    let k = first_where(s, ink());
    if k < s.len() {
        assert(t[0] == s[k]);
        assert(!is_space(s[k]));
    } else {
        assert forall|i: int| 0 <= i < s.len() implies is_space(#[trigger] s[i]) by {
            assert(!ink()(s[i]));
        }
    }
}

proof fn lemma_filter_all(s: Seq<char>, p: spec_fn(char) -> bool)
    requires
        forall|i: int| 0 <= i < s.len() ==> p(#[trigger] s[i]),
    ensures
        s.filter(p) == s,
    decreases s.len(),
{
    reveal(Seq::filter);
    if s.len() > 0 {
        let t = s.drop_last();
        assert forall|i: int| 0 <= i < t.len() implies p(#[trigger] t[i]) by {
            assert(p(s[i]));
        }
        lemma_filter_all(t, p);
        assert(p(s[s.len() - 1]));
        assert(t.push(s.last()) =~= s);
    }
}

proof fn lemma_filter_none(s: Seq<char>, p: spec_fn(char) -> bool)
    requires
        forall|i: int| 0 <= i < s.len() ==> !p(#[trigger] s[i]),
    ensures
        s.filter(p) == Seq::<char>::empty(),
    decreases s.len(),
{
    reveal(Seq::filter);
    if s.len() > 0 {
        let t = s.drop_last();
        assert forall|i: int| 0 <= i < t.len() implies !p(#[trigger] t[i]) by {
            assert(!p(s[i]));
        }
        lemma_filter_none(t, p);
        assert(!p(s[s.len() - 1]));
    }
}

proof fn lemma_filter_from(s: Seq<char>, p: spec_fn(char) -> bool, i: int)
    requires
        0 <= i < s.filter(p).len(),
    ensures
        s.contains(s.filter(p)[i]),
        p(s.filter(p)[i]),
    decreases s.len(),
{
    reveal(Seq::filter);
    s.lemma_filter_pred(p, i);
    let t = s.drop_last();
    let x = s.filter(p)[i];
    if i < t.filter(p).len() {
        lemma_filter_from(t, p, i);
        let k = choose|k: int| 0 <= k < t.len() && t[k] == x;
        assert(s[k] == x);
    } else {
        assert(s[s.len() - 1] == x);
    }
}

/// The text of a normalized number has no white space and no comma.
pub(crate) proof fn lemma_normalized_is_plain(raw: Seq<char>)
    ensures
        forall|i: int|
            #![trigger normalized(raw)[i]]
            0 <= i < normalized(raw).len() ==> ink()(normalized(raw)[i]) && normalized(raw)[i] != ',',
{
    let s = raw.filter(ink());
    let t = normalized(raw);
    assert forall|i: int| 0 <= i < s.len() implies ink()(#[trigger] s[i]) by {
        raw.lemma_filter_pred(ink(), i);
    }
    let w = without(s, '.');
    assert forall|i: int| 0 <= i < w.len() implies ink()(#[trigger] w[i]) && w[i] != '.' by {
        lemma_filter_from(s, other_than('.'), i);
        let k = choose|k: int| 0 <= k < s.len() && s[k] == w[i];
        assert(ink()(s[k]));
    }
    let v = without(s, ',');
    assert forall|i: int| 0 <= i < v.len() implies ink()(#[trigger] v[i]) && v[i] != ',' by {
        lemma_filter_from(s, other_than(','), i);
        let k = choose|k: int| 0 <= k < s.len() && s[k] == v[i];
        assert(ink()(s[k]));
    }
    let commas = occurrences(s, ',');
    if commas == 0 {
        assert forall|i: int| 0 <= i < s.len() implies #[trigger] s[i] != ',' by {
            if s[i] == ',' {
                s.lemma_filter_contains(exactly(','), i);
                let f = s.filter(exactly(','));
                let k = choose|k: int| 0 <= k < f.len() && f[k] == s[i];
                assert(0 <= k < f.len());
            }
        }
        if t != s {
            assert(t == w);
            assert forall|i: int| 0 <= i < w.len() implies #[trigger] w[i] != ',' by {
                lemma_filter_from(s, other_than('.'), i);
                let k = choose|k: int| 0 <= k < s.len() && s[k] == w[i];
                assert(s[k] != ',');
            }
        }
    }
    assert forall|i: int| #![trigger t[i]] 0 <= i < t.len() implies ink()(t[i]) && t[i] != ',' by {
        if t == comma_to_point(s) {
            assert(ink()(s[i]));
        } else if t == comma_to_point(w) {
            assert(ink()(w[i]));
        } else if t == v {
            assert(ink()(v[i]));
        } else if t == w {
            assert(ink()(w[i]));
        } else {
            assert(ink()(s[i]));
        }
    }
}

/// A finite number has at most one point.
proof fn lemma_finite_has_one_point(t: Seq<char>)
    requires
        is_finite(t),
    ensures
        occurrences(t, '.') <= 1,
{
    let p = exactly('.');
    let b = unsigned(t);
    assert(decimal_of(b) is Some);
    let k = first_where(b, exponent_mark());
    lemma_first_where(b, exponent_mark());
    let m = significand(b);
    let q = first_where(m, p);
    lemma_first_where(m, p);
    let d = whole_part(m) + fraction_part(m);
    let whole = m.take(q);
    assert forall|i: int| 0 <= i < whole.len() implies !p(#[trigger] whole[i]) by {
        assert(!p(m[i]));
    }
    lemma_filter_none(whole, p);
    let frac = fraction_part(m);
    assert forall|i: int| 0 <= i < frac.len() implies !p(#[trigger] frac[i]) by {
        assert(d[whole_part(m).len() + i] == frac[i]);
        assert(is_digit(d[whole_part(m).len() + i]));
    }
    lemma_filter_none(frac, p);
    let mid = m.subrange(q, if q < m.len() { q + 1 } else { q });
    assert(m =~= whole + mid + frac);
    Seq::filter_distributes_over_add(whole + mid, frac, p);
    Seq::filter_distributes_over_add(whole, mid, p);
    mid.lemma_filter_len(p);
    assert(m.filter(p).len() <= 1);
    // Neither the exponent nor the sign holds a point.
    let tail = b.skip(k);
    assert forall|i: int| 0 <= i < tail.len() implies !p(#[trigger] tail[i]) by {
        if i == 0 {
            assert(exponent_mark()(b[k]));
        } else {
            let x = b.skip(k + 1);
            let y = unsigned(x);
            assert(exponent_of(x) is Some);
            assert(x[i - 1] == tail[i]);
            if y.len() == x.len() {
                assert(y[i - 1] == tail[i]);
                assert(is_digit(y[i - 1]));
            } else if i > 1 {
                assert(y[i - 2] == tail[i]);
                assert(is_digit(y[i - 2]));
            }
        }
    }
    lemma_filter_none(tail, p);
    assert(b =~= m + tail);
    Seq::filter_distributes_over_add(m, tail, p);
    if b.len() < t.len() {
        let sign = t.take(1);
        assert(t =~= sign + b);
        assert forall|i: int| 0 <= i < sign.len() implies !p(#[trigger] sign[i]) by {}
        lemma_filter_none(sign, p);
        Seq::filter_distributes_over_add(sign, b, p);
    } else {
        assert(t =~= b);
    }
}

/// A number that was read reads as itself again.
pub proof fn law_a_read_number_is_settled(raw: Seq<char>)
    requires
        number_of(raw) is Some,
    ensures
        number_of(number_of(raw)->0) == number_of(raw),
{
    let t = normalized(raw);
    lemma_normalized_is_plain(raw);
    lemma_finite_has_one_point(t);
    assert forall|i: int| 0 <= i < t.len() implies ink()(#[trigger] t[i]) by {}
    lemma_filter_all(t, ink());
    assert forall|i: int| 0 <= i < t.len() implies !exactly(',')(#[trigger] t[i]) by {}
    lemma_filter_none(t, exactly(','));
}

/// White space in a number means nothing, wherever it stands.
pub proof fn law_white_space_in_numbers_is_nothing(raw: Seq<char>)
    ensures
        number_of(raw.filter(ink())) == number_of(raw),
{
    let s = raw.filter(ink());
    assert forall|i: int| 0 <= i < s.len() implies ink()(#[trigger] s[i]) by {
        raw.lemma_filter_pred(ink(), i);
    }
    lemma_filter_all(s, ink());
}

/// A character of a number that is neither white space nor a separator: a digit, a
/// sign or the mark of an exponent.
pub open spec fn is_plain(c: char) -> bool {
    !is_space(c) && c != ',' && c != '.'
}

/// A text without white space and without separators.
pub open spec fn all_plain(s: Seq<char>) -> bool {
    forall|i: int| 0 <= i < s.len() ==> is_plain(#[trigger] s[i])
}

proof fn lemma_digits_are_plain(s: Seq<char>)
    requires
        all_digits(s),
    ensures
        all_plain(s),
{
    assert forall|i: int| 0 <= i < s.len() implies is_plain(#[trigger] s[i]) by {
        assert(is_digit(s[i]));
    }
}

/// A plain text, filtered.
proof fn lemma_digit_parts(a: Seq<char>, p: spec_fn(char) -> bool)
    requires
        all_plain(a),
        forall|c: char| is_plain(c) ==> !#[trigger] p(c),
    ensures
        a.filter(p) == Seq::<char>::empty(),
{
    lemma_filter_none(a, p);
}

/// A decimal comma is a decimal point.
pub proof fn law_decimal_comma(a: Seq<char>, b: Seq<char>)
    requires
        all_digits(a),
        all_digits(b),
    ensures
        number_of(a + seq![','] + b) == number_of(a + seq!['.'] + b),
{
    lemma_digits_are_plain(a);
    lemma_digits_are_plain(b);
    law_any_decimal_comma(a, b);
}

/// A single comma is a decimal point, whatever sign stands before it and whatever
/// exponent behind it, and a number with at most one point and no comma stays as it
/// is, if it is one.
pub proof fn law_any_decimal_comma(a: Seq<char>, b: Seq<char>)
    requires
        all_plain(a),
        all_plain(b),
    ensures
        number_of(a + seq![','] + b) == number_of(a + seq!['.'] + b),
        number_of(a + seq!['.'] + b) == (if is_finite(a + seq!['.'] + b) {
            Some(a + seq!['.'] + b)
        } else {
            None
        }),
        number_of(a) == (if is_finite(a) {
            Some(a)
        } else {
            None
        }),
{
    lemma_filter_all(a, ink());
    lemma_filter_none(a, exactly(','));
    lemma_filter_none(a, exactly('.'));
    let s = a + seq![','] + b;
    let t = a + seq!['.'] + b;
    lemma_marked(a, ',', b);
    lemma_marked(a, '.', b);
    lemma_point_for_comma(a, b);
    lemma_same_number(s, t);
}

proof fn lemma_same_number(x: Seq<char>, y: Seq<char>)
    requires
        normalized(x) == normalized(y),
    ensures
        number_of(x) == number_of(y),
{
}

proof fn lemma_point_for_comma(a: Seq<char>, b: Seq<char>)
    requires
        all_plain(a),
        all_plain(b),
    ensures
        comma_to_point(a + seq![','] + b) == a + seq!['.'] + b,
{
    let s = a + seq![','] + b;
    let t = a + seq!['.'] + b;
    assert forall|i: int| 0 <= i < s.len() implies comma_to_point(s)[i] == t[i] by {
        if i < a.len() {
            assert(is_plain(a[i]));
            assert(s[i] == a[i]);
        } else if i > a.len() {
            assert(is_plain(b[i - a.len() - 1]));
            assert(s[i] == b[i - a.len() - 1]);
        }
    }
    assert(comma_to_point(s) =~= t);
}

/// What a single separator among digits counts as.
proof fn lemma_marked(a: Seq<char>, mark: char, b: Seq<char>)
    requires
        all_plain(a),
        all_plain(b),
        mark == ',' || mark == '.',
    ensures
        ({
            let s = a + seq![mark] + b;
            &&& s.filter(ink()) == s
            &&& occurrences(s, ',') == if mark == ',' { 1nat } else { 0nat }
            &&& occurrences(s, '.') == if mark == '.' { 1nat } else { 0nat }
        }),
{
    let s = a + seq![mark] + b;
    assert forall|i: int| 0 <= i < s.len() implies ink()(#[trigger] s[i]) by {
        if i < a.len() {
            assert(is_plain(a[i]));
        } else if i > a.len() {
            assert(s[i] == b[i - a.len() - 1]);
            assert(is_plain(b[i - a.len() - 1]));
        }
    }
    lemma_filter_all(s, ink());
    lemma_mark_count(a, mark, b, ',');
    lemma_mark_count(a, mark, b, '.');
}

proof fn lemma_mark_count(a: Seq<char>, mark: char, b: Seq<char>, d: char)
    requires
        all_plain(a),
        all_plain(b),
        !is_plain(d),
    ensures
        occurrences(a + seq![mark] + b, d) == if mark == d { 1nat } else { 0nat },
{
    let p = exactly(d);
    let one = seq![mark];
    Seq::filter_distributes_over_add(a + one, b, p);
    Seq::filter_distributes_over_add(a, one, p);
    lemma_digit_parts(a, p);
    lemma_digit_parts(b, p);
    if mark == d {
        assert forall|i: int| 0 <= i < one.len() implies p(#[trigger] one[i]) by {}
        lemma_filter_all(one, p);
    } else {
        assert forall|i: int| 0 <= i < one.len() implies !p(#[trigger] one[i]) by {}
        lemma_filter_none(one, p);
    }
}

/// Groups of digits.
pub open spec fn are_digits(groups: Seq<Seq<char>>) -> bool {
    forall|i: int| 0 <= i < groups.len() ==> all_digits(#[trigger] groups[i])
}

/// Groups without white space and without separators.
pub open spec fn are_plain(groups: Seq<Seq<char>>) -> bool {
    forall|i: int| 0 <= i < groups.len() ==> all_plain(#[trigger] groups[i])
}

/// Texts put together with nothing between them.
pub open spec fn run_together(groups: Seq<Seq<char>>) -> Seq<char>
    decreases groups.len(),
{
    if groups.len() == 0 {
        Seq::empty()
    } else {
        groups[0] + run_together(groups.skip(1))
    }
}

/// The last separator is the decimal one, and those before it separate thousands,
/// however many groups there are: "1.234.567,89" and "1,234,567.89" are both
/// 1234567.89.
pub proof fn law_last_separator_is_decimal(groups: Seq<Seq<char>>, c: Seq<char>)
    requires
        groups.len() >= 1,
        are_digits(groups),
        all_digits(c),
    ensures
        number_of(joined(groups, '.') + seq![','] + c) == number_of(
            run_together(groups) + seq!['.'] + c,
        ),
        number_of(joined(groups, ',') + seq!['.'] + c) == number_of(
            run_together(groups) + seq!['.'] + c,
        ),
{
    lemma_digits_are_plain(c);
    assert forall|i: int| 0 <= i < groups.len() implies all_plain(#[trigger] groups[i]) by {
        lemma_digits_are_plain(groups[i]);
    }
    law_the_last_of_two_separators(groups, c);
}

/// The last separator is the decimal one whatever sign stands before the groups and
/// whatever exponent behind the fraction.
pub proof fn law_the_last_of_two_separators(groups: Seq<Seq<char>>, c: Seq<char>)
    requires
        groups.len() >= 1,
        are_plain(groups),
        all_plain(c),
    ensures
        number_of(joined(groups, '.') + seq![','] + c) == number_of(
            run_together(groups) + seq!['.'] + c,
        ),
        number_of(joined(groups, ',') + seq!['.'] + c) == number_of(
            run_together(groups) + seq!['.'] + c,
        ),
{
    let flat = run_together(groups);
    let plain = flat + seq!['.'] + c;
    let s = joined(groups, '.') + seq![','] + c;
    let t = joined(groups, ',') + seq!['.'] + c;
    assert(all_plain(flat)) by {
        lemma_groups(groups, '.');
    }
    assert(normalized(plain) == plain) by {
        lemma_marked(flat, '.', c);
    }
    assert(normalized(s) == plain) by {
        lemma_grouped(groups, '.', ',', c);
        lemma_point_for_comma(flat, c);
        lemma_comma_last(s, (groups.len() - 1) as nat);
    }
    assert(normalized(t) == plain) by {
        lemma_grouped(groups, ',', '.', c);
        lemma_point_last(t, (groups.len() - 1) as nat);
    }
    lemma_same_number(s, plain);
    lemma_same_number(t, plain);
}

/// Several separators of one kind alone separate thousands: "1.234.567" and
/// "1,234,567" are both 1234567.
pub proof fn law_several_separators_are_thousands(groups: Seq<Seq<char>>)
    requires
        groups.len() >= 3,
        are_plain(groups),
    ensures
        number_of(joined(groups, '.')) == number_of(run_together(groups)),
        number_of(joined(groups, ',')) == number_of(run_together(groups)),
{
    let flat = run_together(groups);
    lemma_several(groups, '.', ',');
    lemma_several(groups, ',', '.');
    lemma_groups(groups, '.');
    lemma_filter_all(flat, ink());
    lemma_filter_none(flat, exactly(','));
    lemma_filter_none(flat, exactly('.'));
    assert(normalized(flat) == flat);
    lemma_same_number(joined(groups, '.'), flat);
    lemma_same_number(joined(groups, ','), flat);
}

proof fn lemma_several(groups: Seq<Seq<char>>, x: char, y: char)
    requires
        groups.len() >= 3,
        are_plain(groups),
        (x == '.' && y == ',') || (x == ',' && y == '.'),
    ensures
        normalized(joined(groups, x)) == run_together(groups),
{
    let u = joined(groups, x);
    lemma_groups(groups, x);
    lemma_one_kind(u, x, y);
    lemma_thousands(u, x, y);
}

/// Separators of one kind alone.
proof fn lemma_one_kind(u: Seq<char>, x: char, y: char)
    requires
        is_grouped(u, x),
        (x == '.' && y == ',') || (x == ',' && y == '.'),
    ensures
        u.filter(ink()) == u,
        occurrences(u, y) == 0,
{
    assert forall|i: int| 0 <= i < u.len() implies ink()(#[trigger] u[i]) by {
        assert(is_plain(u[i]) || u[i] == x);
    }
    lemma_filter_all(u, ink());
    assert forall|i: int| 0 <= i < u.len() implies !exactly(y)(#[trigger] u[i]) by {
        assert(is_plain(u[i]) || u[i] == x);
    }
    lemma_filter_none(u, exactly(y));
}

proof fn lemma_thousands(u: Seq<char>, x: char, y: char)
    requires
        u.filter(ink()) == u,
        occurrences(u, x) >= 2,
        occurrences(u, y) == 0,
        (x == '.' && y == ',') || (x == ',' && y == '.'),
    ensures
        normalized(u) == without(u, x),
{
}

proof fn lemma_comma_last(s: Seq<char>, n: nat)
    requires
        s.filter(ink()) == s,
        occurrences(s, ',') == 1,
        occurrences(s, '.') == n,
        past_last(s, exactly(',')) > past_last(s, exactly('.')),
        n == 0 ==> without(s, '.') == s,
    ensures
        normalized(s) == comma_to_point(without(s, '.')),
{
}

proof fn lemma_point_last(s: Seq<char>, n: nat)
    requires
        s.filter(ink()) == s,
        occurrences(s, ',') == n,
        occurrences(s, '.') == 1,
        past_last(s, exactly('.')) > past_last(s, exactly(',')),
        n == 0 ==> without(s, ',') == s,
    ensures
        normalized(s) == without(s, ','),
{
}

/// What groups with a separator between them hold: digits and the separator, one
/// less of it than there are groups.
proof fn lemma_groups(groups: Seq<Seq<char>>, x: char)
    requires
        groups.len() >= 1,
        are_plain(groups),
        !is_plain(x),
    ensures
        forall|i: int|
            0 <= i < joined(groups, x).len() ==> is_plain(#[trigger] joined(groups, x)[i]) || joined(
                groups,
                x,
            )[i] == x,
        occurrences(joined(groups, x), x) == groups.len() - 1,
        without(joined(groups, x), x) == run_together(groups),
        all_plain(run_together(groups)),
    decreases groups.len(),
{
    let a = groups[0];
    let u = joined(groups, x);
    let p = other_than(x);
    assert(all_plain(groups[0]));
    assert forall|i: int| 0 <= i < a.len() implies p(#[trigger] a[i]) by {
        assert(is_plain(a[i]));
    }
    lemma_filter_all(a, p);
    lemma_digit_parts(a, exactly(x));
    if groups.len() == 1 {
        assert(run_together(groups.skip(1)) =~= Seq::empty());
        assert(run_together(groups) =~= a);
    } else {
        let rest = groups.skip(1);
        assert forall|i: int| 0 <= i < rest.len() implies all_plain(#[trigger] rest[i]) by {
            assert(rest[i] == groups[i + 1]);
        }
        lemma_groups(rest, x);
        let v = joined(rest, x);
        let one = seq![x];
        assert(u == a + one + v);
        Seq::filter_distributes_over_add(a + one, v, p);
        Seq::filter_distributes_over_add(a, one, p);
        Seq::filter_distributes_over_add(a + one, v, exactly(x));
        Seq::filter_distributes_over_add(a, one, exactly(x));
        assert forall|i: int| 0 <= i < one.len() implies !p(#[trigger] one[i]) by {}
        lemma_filter_none(one, p);
        assert forall|i: int| 0 <= i < one.len() implies exactly(x)(#[trigger] one[i]) by {}
        lemma_filter_all(one, exactly(x));
        assert(a + Seq::<char>::empty() =~= a);
        assert forall|i: int| 0 <= i < u.len() implies is_plain(#[trigger] u[i]) || u[i] == x by {
            if i < a.len() {
                assert(u[i] == a[i]);
                assert(is_plain(a[i]));
            } else if i > a.len() {
                assert(u[i] == v[i - a.len() - 1]);
            }
        }
        let flat = run_together(rest);
        assert forall|i: int| 0 <= i < (a + flat).len() implies is_plain(#[trigger] (a + flat)[i]) by {
            if i < a.len() {
                assert(is_plain(a[i]));
            } else {
                assert(is_plain(flat[i - a.len()]));
            }
        }
    }
}

/// What groups with a separator between them and another one behind them count as.
proof fn lemma_grouped(groups: Seq<Seq<char>>, x: char, y: char, c: Seq<char>)
    requires
        groups.len() >= 1,
        are_plain(groups),
        all_plain(c),
        (x == '.' && y == ',') || (x == ',' && y == '.'),
    ensures
        ({
            let s = joined(groups, x) + seq![y] + c;
            &&& s.filter(ink()) == s
            &&& occurrences(s, x) == groups.len() - 1
            &&& occurrences(s, y) == 1
            &&& past_last(s, exactly(y)) > past_last(s, exactly(x))
            &&& without(s, x) == run_together(groups) + seq![y] + c
            &&& groups.len() == 1 ==> without(s, x) == s
        }),
{
    let u = joined(groups, x);
    lemma_groups(groups, x);
    lemma_inked(u, x, y, c);
    lemma_counted(u, x, y, c);
    lemma_dropped(u, x, y, c);
    lemma_ordered(u, x, y, c);
    if groups.len() == 1 {
        assert(run_together(groups.skip(1)) =~= Seq::empty());
        assert(run_together(groups) =~= groups[0]);
    }
}

/// Digits with some of a separator between them.
spec fn is_grouped(u: Seq<char>, x: char) -> bool {
    forall|i: int| 0 <= i < u.len() ==> is_plain(#[trigger] u[i]) || u[i] == x
}

proof fn lemma_inked(u: Seq<char>, x: char, y: char, c: Seq<char>)
    requires
        is_grouped(u, x),
        all_plain(c),
        (x == '.' && y == ',') || (x == ',' && y == '.'),
    ensures
        (u + seq![y] + c).filter(ink()) == u + seq![y] + c,
{
    let s = u + seq![y] + c;
    assert forall|i: int| 0 <= i < s.len() implies ink()(#[trigger] s[i]) by {
        if i < u.len() {
            assert(s[i] == u[i]);
        } else if i > u.len() {
            assert(s[i] == c[i - u.len() - 1]);
            assert(is_plain(c[i - u.len() - 1]));
        }
    }
    lemma_filter_all(s, ink());
}

proof fn lemma_counted(u: Seq<char>, x: char, y: char, c: Seq<char>)
    requires
        is_grouped(u, x),
        all_plain(c),
        (x == '.' && y == ',') || (x == ',' && y == '.'),
    ensures
        occurrences(u + seq![y] + c, x) == occurrences(u, x),
        occurrences(u + seq![y] + c, y) == 1,
{
    let one = seq![y];
    Seq::filter_distributes_over_add(u + one, c, exactly(x));
    Seq::filter_distributes_over_add(u, one, exactly(x));
    Seq::filter_distributes_over_add(u + one, c, exactly(y));
    Seq::filter_distributes_over_add(u, one, exactly(y));
    lemma_digit_parts(c, exactly(x));
    lemma_digit_parts(c, exactly(y));
    lemma_filter_none(one, exactly(x));
    lemma_filter_all(one, exactly(y));
    lemma_filter_none(u, exactly(y));
}

proof fn lemma_dropped(u: Seq<char>, x: char, y: char, c: Seq<char>)
    requires
        all_plain(c),
        !is_plain(x),
        x != y,
    ensures
        without(u + seq![y] + c, x) == without(u, x) + seq![y] + c,
{
    let one = seq![y];
    Seq::filter_distributes_over_add(u + one, c, other_than(x));
    Seq::filter_distributes_over_add(u, one, other_than(x));
    assert forall|i: int| 0 <= i < c.len() implies other_than(x)(#[trigger] c[i]) by {
        assert(is_plain(c[i]));
    }
    lemma_filter_all(c, other_than(x));
    lemma_filter_all(one, other_than(x));
}

proof fn lemma_ordered(u: Seq<char>, x: char, y: char, c: Seq<char>)
    requires
        all_plain(c),
        !is_plain(x),
        !is_plain(y),
        x != y,
    ensures
        past_last(u + seq![y] + c, exactly(y)) > past_last(u + seq![y] + c, exactly(x)),
{
    let s = u + seq![y] + c;
    let n = u.len() as int;
    assert(s[n] == y);
    assert forall|j: int| n + 1 <= j < s.len() implies !exactly(y)(#[trigger] s[j]) by {
        assert(s[j] == c[j - n - 1]);
        assert(is_plain(c[j - n - 1]));
    }
    lemma_past_last_is(s, exactly(y), n + 1);
    lemma_past_last(s, exactly(x));
    let k = past_last(s, exactly(x));
    if k > n + 1 {
        assert(s[k - 1] == c[k - 1 - n - 1]);
        assert(is_plain(c[k - 1 - n - 1]));
    }
}

} // verus!
