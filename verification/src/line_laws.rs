//! What a line of a point file holds, cell by cell.

use vstd::prelude::*;

use crate::pnezd::{
    column, delimiter_char, elevation_of, fields, fits, is_data, line_fields, line_record,
    number_of, optional_column, normalized, pnezd_format, read_lines, read_text, split_runs, trimmed_all, Delimiter, Format,
    Record,
};
use crate::point_laws::{
    joined, law_files_concatenate, lemma_blank_is_no_number, lemma_normalized_is_plain,
};
use crate::text::{
    ascii_ink, ascii_space, exactly, first_where, ink, is_ascii_space, lemma_first_where,
    lemma_first_where_is, split_all, split_at_most, trim,
};
use crate::text_laws::{is_trim, law_trimming_takes_the_ends};

verus! {

/// With the delimiter left open, a line holds the point that it holds under the first
/// of comma, semicolon, tab and white space that gives it one.
pub proof fn law_the_first_delimiter_that_gives_a_point(line: Seq<char>, fmt: Format)
    requires
        fmt.delimiter == Delimiter::Auto,
    ensures
        ({
            let comma = line_record(line, Format { delimiter: Delimiter::Comma, ..fmt });
            let semicolon = line_record(line, Format { delimiter: Delimiter::Semicolon, ..fmt });
            let tab = line_record(line, Format { delimiter: Delimiter::Tab, ..fmt });
            let space = line_record(line, Format { delimiter: Delimiter::Whitespace, ..fmt });
            line_record(line, fmt) == (if comma is Some {
                comma
            } else if semicolon is Some {
                semicolon
            } else if tab is Some {
                tab
            } else {
                space
            })
        }),
{
    lemma_blank_is_no_number();
    let upto = fmt.pieces();
    let (n, e) = (fmt.northing as nat, fmt.easting as nat);
    assert forall|d: Delimiter| d != Delimiter::Auto implies (#[trigger] line_record(
        line,
        Format { delimiter: d, ..fmt },
    ) is Some) == fits(line, d, upto, n, e) && line_fields(line, Format { delimiter: d, ..fmt }) == fields(
        line,
        d,
        upto,
    ) by {
        assert((Format { delimiter: d, ..fmt }).pieces() == upto);
    }
}

/// A text without a character.
pub open spec fn is_free_of(s: Seq<char>, d: char) -> bool {
    forall|i: int| 0 <= i < s.len() ==> #[trigger] s[i] != d
}

/// The delimiters that cut at one character.
pub open spec fn cuts_with(delimiter: Delimiter, d: char) -> bool {
    ||| delimiter == Delimiter::Comma && d == ','
    ||| delimiter == Delimiter::Semicolon && d == ';'
    ||| delimiter == Delimiter::Tab && d == '\t'
}

/// A column takes the rest of a line: it is that of the description, and no column
/// that is mapped stands behind it.
pub open spec fn takes_the_rest(fmt: Format, i: int) -> bool {
    &&& fmt.description == Some(i as usize)
    &&& fmt.northing <= i
    &&& fmt.easting <= i
    &&& fmt.number matches Some(k) ==> k <= i
    &&& fmt.elevation matches Some(k) ==> k <= i
}

/// The columns of a format can be counted, with one behind them.
pub open spec fn is_countable(fmt: Format) -> bool {
    &&& fmt.northing < usize::MAX - 1
    &&& fmt.easting < usize::MAX - 1
    &&& fmt.number matches Some(k) ==> k < usize::MAX - 1
    &&& fmt.elevation matches Some(k) ==> k < usize::MAX - 1
    &&& fmt.description matches Some(k) ==> k < usize::MAX - 1
}

/// What a format makes of the cells of a line and of the rest of the line from each
/// of them on: the cell in a column, trimmed, or the rest from there on in a column
/// that takes it; nothing where the line has no such column.
pub open spec fn cell(cells: Seq<Seq<char>>, rests: Seq<Seq<char>>, fmt: Format, i: int) -> Seq<char> {
    if i >= cells.len() {
        Seq::empty()
    } else if takes_the_rest(fmt, i) {
        trim(rests[i])
    } else {
        trim(cells[i])
    }
}

/// A record is what the cells of a line say: its northing and its easting are the
/// numbers in their columns; its elevation is the number in its column, and zero
/// where that is blank, no number or not mapped; its number and its description are
/// the texts in their columns, and empty where they are not mapped.
pub open spec fn is_record_of(
    r: Option<Record>,
    cells: Seq<Seq<char>>,
    rests: Seq<Seq<char>>,
    fmt: Format,
) -> bool {
    let north = number_of(cell(cells, rests, fmt, fmt.northing as int));
    let east = number_of(cell(cells, rests, fmt, fmt.easting as int));
    &&& r is Some <==> north is Some && east is Some
    &&& r matches Some(p) ==> {
        &&& Some(p.northing) == north
        &&& Some(p.easting) == east
        &&& match fmt.elevation {
            Some(i) => match number_of(cell(cells, rests, fmt, i as int)) {
                Some(z) => p.elevation == z,
                None => p.elevation == "0"@,
            },
            None => p.elevation == "0"@,
        }
        &&& match fmt.number {
            Some(i) => p.number == cell(cells, rests, fmt, i as int),
            None => p.number.len() == 0,
        }
        &&& match fmt.description {
            Some(i) => p.description == cell(cells, rests, fmt, i as int),
            None => p.description.len() == 0,
        }
    }
}

/// The rests of a row from each cell on.
pub open spec fn rests_of(cells: Seq<Seq<char>>, d: char) -> Seq<Seq<char>> {
    Seq::new(cells.len(), |i: int| joined(cells.skip(i), d))
}

proof fn lemma_split_cells(cells: Seq<Seq<char>>, n: nat, d: char)
    requires
        cells.len() >= 1,
        n >= 1,
        forall|i: int| 0 <= i < cells.len() ==> is_free_of(#[trigger] cells[i], d),
    ensures
        ({
            let p = split_at_most(joined(cells, d), n, d);
            &&& p.len() == (if cells.len() <= n {
                cells.len()
            } else {
                n
            })
            &&& forall|i: int|
                0 <= i < p.len() ==> #[trigger] p[i] == (if i == n - 1 {
                    joined(cells.skip(i), d)
                } else {
                    cells[i]
                })
        }),
    decreases n,
{
    let s = joined(cells, d);
    let a = cells[0];
    assert(is_free_of(cells[0], d));
    let p = split_at_most(s, n, d);
    assert(cells.skip(0) =~= cells);
    if cells.len() == 1 {
        assert forall|j: int| 0 <= j < s.len() implies !exactly(d)(#[trigger] s[j]) by {}
        lemma_first_where_is(s, exactly(d), s.len() as int);
        assert(p =~= seq![s]);
    } else {
        let rest = cells.skip(1);
        assert(s == a + seq![d] + joined(rest, d));
        assert forall|j: int| 0 <= j < a.len() implies !exactly(d)(#[trigger] s[j]) by {
            assert(s[j] == a[j]);
        }
        assert(s[a.len() as int] == d);
        lemma_first_where_is(s, exactly(d), a.len() as int);
        if n == 1 {
            assert(p =~= seq![s]);
        } else {
            assert forall|i: int| 0 <= i < rest.len() implies is_free_of(#[trigger] rest[i], d) by {
                assert(rest[i] == cells[i + 1]);
            }
            lemma_split_cells(rest, (n - 1) as nat, d);
            assert(s.take(a.len() as int) =~= a);
            assert(s.skip(a.len() as int + 1) =~= joined(rest, d));
            let q = split_at_most(joined(rest, d), (n - 1) as nat, d);
            assert(p =~= seq![a] + q);
            assert forall|i: int| 0 <= i < p.len() implies #[trigger] p[i] == (if i == n - 1 {
                joined(cells.skip(i), d)
            } else {
                cells[i]
            }) by {
                if i > 0 {
                    assert(p[i] == q[i - 1]);
                    assert(rest.skip(i - 1) =~= cells.skip(i));
                    assert(rest[i - 1] == cells[i]);
                }
            }
        }
    }
}

/// The columns of a line that is cut into as many pieces as a format has columns.
proof fn lemma_columns(p: Seq<Seq<char>>, cells: Seq<Seq<char>>, rests: Seq<Seq<char>>, fmt: Format, i: int)
    requires
        is_countable(fmt),
        rests.len() == cells.len(),
        p.len() == (if cells.len() <= fmt.pieces() {
            cells.len()
        } else {
            fmt.pieces()
        }),
        forall|k: int|
            0 <= k < p.len() ==> #[trigger] p[k] == (if k == fmt.pieces() - 1 {
                rests[k]
            } else {
                cells[k]
            }),
        i == fmt.northing || i == fmt.easting || fmt.number == Some(i as usize) || fmt.elevation
            == Some(i as usize) || fmt.description == Some(i as usize),
        0 <= i <= usize::MAX,
    ensures
        column(trimmed_all(p), i as nat) == cell(cells, rests, fmt, i),
{
    let last = fmt.last_column();
    assert(i <= last);
    assert(last < usize::MAX - 1);
    assert(takes_the_rest(fmt, i) <==> (fmt.description == Some(i as usize) && i == last));
    assert(fmt.pieces() == last + 1 || fmt.pieces() == last + 2);
    if i < p.len() {
        assert(trimmed_all(p)[i] == trim(p[i]));
    }
}

/// A record by columns is a record by cells.
proof fn lemma_record(f: Seq<Seq<char>>, line: Seq<char>, cells: Seq<Seq<char>>, rests: Seq<Seq<char>>, fmt: Format)
    requires
        line_fields(line, fmt) == f,
        column(f, fmt.northing as nat) == cell(cells, rests, fmt, fmt.northing as int),
        column(f, fmt.easting as nat) == cell(cells, rests, fmt, fmt.easting as int),
        fmt.number matches Some(i) ==> column(f, i as nat) == cell(cells, rests, fmt, i as int),
        fmt.elevation matches Some(i) ==> column(f, i as nat) == cell(cells, rests, fmt, i as int),
        fmt.description matches Some(i) ==> column(f, i as nat) == cell(cells, rests, fmt, i as int),
    ensures
        is_record_of(line_record(line, fmt), cells, rests, fmt),
{
    assert(elevation_of(f, fmt.elevation) == match fmt.elevation {
        Some(i) => match number_of(cell(cells, rests, fmt, i as int)) {
            Some(z) => z,
            None => "0"@,
        },
        None => "0"@,
    });
    assert(optional_column(f, None).len() == 0);
}

proof fn lemma_line(line: Seq<char>, p: Seq<Seq<char>>, cells: Seq<Seq<char>>, rests: Seq<Seq<char>>, fmt: Format)
    requires
        is_countable(fmt),
        line_fields(line, fmt) == trimmed_all(p),
        rests.len() == cells.len(),
        p.len() == (if cells.len() <= fmt.pieces() {
            cells.len()
        } else {
            fmt.pieces()
        }),
        forall|k: int|
            0 <= k < p.len() ==> #[trigger] p[k] == (if k == fmt.pieces() - 1 {
                rests[k]
            } else {
                cells[k]
            }),
    ensures
        is_record_of(line_record(line, fmt), cells, rests, fmt),
{
    lemma_columns(p, cells, rests, fmt, fmt.northing as int);
    lemma_columns(p, cells, rests, fmt, fmt.easting as int);
    if let Some(i) = fmt.number {
        lemma_columns(p, cells, rests, fmt, i as int);
    }
    if let Some(i) = fmt.elevation {
        lemma_columns(p, cells, rests, fmt, i as int);
    }
    if let Some(i) = fmt.description {
        lemma_columns(p, cells, rests, fmt, i as int);
    }
    lemma_record(trimmed_all(p), line, cells, rests, fmt);
}

/// A line of cells with commas, semicolons or tabs between them holds the point that
/// its cells say: each field is the cell in its column, a blank cell keeps its
/// column, and a description in the last column is the rest of the line, delimiters
/// and all.
pub proof fn law_cells_are_columns(cells: Seq<Seq<char>>, d: char, fmt: Format)
    requires
        cells.len() >= 1,
        cuts_with(fmt.delimiter, d),
        is_countable(fmt),
        forall|i: int| 0 <= i < cells.len() ==> is_free_of(#[trigger] cells[i], d),
    ensures
        is_record_of(line_record(joined(cells, d), fmt), cells, rests_of(cells, d), fmt),
{
    let line = joined(cells, d);
    let n = fmt.pieces();
    lemma_split_cells(cells, n, d);
    let p = split_at_most(line, n, d);
    assert(delimiter_char(fmt.delimiter) == d);
    assert(line_fields(line, fmt) == trimmed_all(p));
    lemma_line(line, p, cells, rests_of(cells, d), fmt);
}

/// ASCII white space alone, and some of it.
pub open spec fn is_run(s: Seq<char>) -> bool {
    s.len() > 0 && forall|i: int| 0 <= i < s.len() ==> is_ascii_space(#[trigger] s[i])
}

/// A cell of a line that is cut at white space.
pub open spec fn is_solid(s: Seq<char>) -> bool {
    s.len() > 0 && forall|i: int| 0 <= i < s.len() ==> !is_ascii_space(#[trigger] s[i])
}

/// Cells with runs of white space between them.
pub open spec fn laid_out(cells: Seq<Seq<char>>, runs: Seq<Seq<char>>) -> Seq<char>
    decreases cells.len(),
{
    if cells.len() == 0 {
        Seq::empty()
    } else if cells.len() == 1 {
        cells[0]
    } else {
        cells[0] + runs[0] + laid_out(cells.skip(1), runs.skip(1))
    }
}

/// The rests of such a line from each cell on.
pub open spec fn rests_laid_out(cells: Seq<Seq<char>>, runs: Seq<Seq<char>>) -> Seq<Seq<char>> {
    Seq::new(cells.len(), |i: int| laid_out(cells.skip(i), runs.skip(i)))
}

/// White space before a line does not matter to its cuts at white space.
proof fn lemma_runs_behind(gap: Seq<char>, s: Seq<char>, n: nat)
    requires
        forall|i: int| 0 <= i < gap.len() ==> is_ascii_space(#[trigger] gap[i]),
        s.len() > 0,
        !is_ascii_space(s[0]),
    ensures
        split_runs(gap + s, n) == split_runs(s, n),
{
    let all = gap + s;
    assert forall|j: int| 0 <= j < gap.len() implies !ascii_ink()(#[trigger] all[j]) by {
        assert(all[j] == gap[j]);
    }
    assert(all[gap.len() as int] == s[0]);
    lemma_first_where_is(all, ascii_ink(), gap.len() as int);
    lemma_first_where_is(s, ascii_ink(), 0);
    assert(all.skip(gap.len() as int) =~= s);
    assert(s.skip(0) =~= s);
}

proof fn lemma_split_laid_out(cells: Seq<Seq<char>>, runs: Seq<Seq<char>>, n: nat)
    requires
        cells.len() >= 1,
        n >= 1,
        runs.len() >= cells.len() - 1,
        forall|i: int| 0 <= i < cells.len() ==> is_solid(#[trigger] cells[i]),
        forall|i: int| 0 <= i < runs.len() ==> is_run(#[trigger] runs[i]),
    ensures
        ({
            let p = split_runs(laid_out(cells, runs), n);
            &&& p.len() == (if cells.len() <= n {
                cells.len()
            } else {
                n
            })
            &&& forall|i: int|
                0 <= i < p.len() ==> #[trigger] p[i] == (if i == n - 1 {
                    laid_out(cells.skip(i), runs.skip(i))
                } else {
                    cells[i]
                })
        }),
    decreases n,
{
    let s = laid_out(cells, runs);
    let a = cells[0];
    assert(is_solid(cells[0]));
    let p = split_runs(s, n);
    assert(cells.skip(0) =~= cells && runs.skip(0) =~= runs);
    if cells.len() == 1 {
        lemma_first_where_is(s, ascii_ink(), 0);
        assert(s.skip(0) =~= s);
        assert forall|j: int| 0 <= j < s.len() implies !ascii_space()(#[trigger] s[j]) by {}
        lemma_first_where_is(s, ascii_space(), s.len() as int);
        assert(p =~= seq![s]);
    } else {
        let rest = cells.skip(1);
        let more = runs.skip(1);
        let run = runs[0];
        assert(is_run(runs[0]));
        let tail = laid_out(rest, more);
        assert(s == a + run + tail);
        assert(s[0] == a[0]);
        lemma_first_where_is(s, ascii_ink(), 0);
        assert(s.skip(0) =~= s);
        assert forall|j: int| 0 <= j < a.len() implies !ascii_space()(#[trigger] s[j]) by {
            assert(s[j] == a[j]);
        }
        assert(s[a.len() as int] == run[0]);
        lemma_first_where_is(s, ascii_space(), a.len() as int);
        if n == 1 {
            assert(p =~= seq![s]);
        } else {
            assert forall|i: int| 0 <= i < rest.len() implies is_solid(#[trigger] rest[i]) by {
                assert(rest[i] == cells[i + 1]);
            }
            assert forall|i: int| 0 <= i < more.len() implies is_run(#[trigger] more[i]) by {
                assert(more[i] == runs[i + 1]);
            }
            lemma_split_laid_out(rest, more, (n - 1) as nat);
            assert(is_solid(rest[0]));
            assert(tail[0] == rest[0][0]);
            assert(s.take(a.len() as int) =~= a);
            assert(s.skip(a.len() as int) =~= run + tail);
            lemma_runs_behind(run, tail, (n - 1) as nat);
            let q = split_runs(tail, (n - 1) as nat);
            assert(p =~= seq![a] + q);
            assert forall|i: int| 0 <= i < p.len() implies #[trigger] p[i] == (if i == n - 1 {
                laid_out(cells.skip(i), runs.skip(i))
            } else {
                cells[i]
            }) by {
                if i > 0 {
                    assert(p[i] == q[i - 1]);
                    assert(rest.skip(i - 1) =~= cells.skip(i));
                    assert(more.skip(i - 1) =~= runs.skip(i));
                    assert(rest[i - 1] == cells[i]);
                }
            }
        }
    }
}

/// A line of cells with white space between them, however much of it, holds the point
/// that its cells say; a description in the last column is the rest of the line, with
/// the white space that is in it.
pub proof fn law_aligned_cells_are_columns(cells: Seq<Seq<char>>, runs: Seq<Seq<char>>, fmt: Format)
    requires
        cells.len() >= 1,
        runs.len() >= cells.len() - 1,
        fmt.delimiter == Delimiter::Whitespace,
        is_countable(fmt),
        forall|i: int| 0 <= i < cells.len() ==> is_solid(#[trigger] cells[i]),
        forall|i: int| 0 <= i < runs.len() ==> is_run(#[trigger] runs[i]),
    ensures
        is_record_of(
            line_record(laid_out(cells, runs), fmt),
            cells,
            rests_laid_out(cells, runs),
            fmt,
        ),
{
    let line = laid_out(cells, runs);
    let n = fmt.pieces();
    lemma_split_laid_out(cells, runs, n);
    let p = split_runs(line, n);
    assert(line_fields(line, fmt) == trimmed_all(p));
    lemma_line(line, p, cells, rests_laid_out(cells, runs), fmt);
}

/// A line of a file gives its point, or is counted as skipped, or is neither where it
/// is blank or a comment. White space at its ends, such as a carriage return, does
/// not matter.
pub proof fn law_one_line(line: Seq<char>, fmt: Format)
    requires
        is_free_of(line, '\n'),
    ensures
        trim(line).len() == 0 || trim(line)[0] == '#' ==> read_text(line, fmt) == (
            Seq::<Record>::empty(),
            0nat,
        ),
        trim(line).len() > 0 && trim(line)[0] != '#' ==> read_text(line, fmt) == (match line_record(
            trim(line),
            fmt,
        ) {
            Some(r) => (seq![r], 0nat),
            None => (Seq::<Record>::empty(), 1nat),
        }),
{
    lemma_first_where_is(line, exactly('\n'), line.len() as int);
    let lines = split_all(line, '\n');
    assert(lines =~= seq![line]);
    assert(lines.drop_last() =~= Seq::empty());
    assert(read_lines(lines.drop_last(), fmt).0 =~= Seq::empty());
    assert(read_lines(lines.drop_last(), fmt).1 == 0);
    assert(is_data(trim(line)) <==> trim(line).len() > 0 && trim(line)[0] != '#');
    if let Some(r) = line_record(trim(line), fmt) {
        assert(Seq::empty().push(r) =~= seq![r]);
    }
}

/// The pieces of a text, put together again.
proof fn lemma_pieces_joined(s: Seq<char>, d: char)
    ensures
        split_all(s, d).len() >= 1,
        joined(split_all(s, d), d) == s,
        forall|i: int| 0 <= i < split_all(s, d).len() ==> is_free_of(#[trigger] split_all(s, d)[i], d),
    decreases s.len(),
{
    let k = first_where(s, exactly(d));
    lemma_first_where(s, exactly(d));
    let p = split_all(s, d);
    if k < s.len() {
        let rest = s.skip(k + 1);
        lemma_pieces_joined(rest, d);
        let q = split_all(rest, d);
        assert(p.skip(1) =~= q);
        assert(s =~= s.take(k) + seq![d] + rest);
        assert forall|i: int| 0 <= i < p.len() implies is_free_of(#[trigger] p[i], d) by {
            if i == 0 {
                assert forall|j: int| 0 <= j < p[0].len() implies #[trigger] p[0][j] != d by {
                    assert(!exactly(d)(s[j]));
                }
            } else {
                assert(p[i] == q[i - 1]);
            }
        }
    } else {
        assert(p =~= seq![s]);
        assert forall|j: int| 0 <= j < s.len() implies #[trigger] s[j] != d by {
            assert(!exactly(d)(s[j]));
        }
    }
}

/// A number that reads as itself has no white space and no comma.
proof fn lemma_settled_number(x: Seq<char>)
    requires
        number_of(x) == Some(x),
    ensures
        is_trim(x),
        x.len() > 0,
        is_free_of(x, ','),
        is_free_of(x, '\n'),
{
    lemma_normalized_is_plain(x);
    assert(normalized(x) == x);
    if x.len() == 0 {
        lemma_blank_is_no_number();
        assert(x =~= Seq::empty());
    } else {
        assert(ink()(normalized(x)[0]) && ink()(normalized(x)[x.len() - 1]));
    }
    assert forall|i: int| 0 <= i < x.len() implies #[trigger] x[i] != ',' && x[i] != '\n' by {
        assert(ink()(normalized(x)[i]));
    }
}

/// Five cells in a row.
proof fn lemma_row_of_five(
    a: Seq<char>,
    b: Seq<char>,
    c: Seq<char>,
    e: Seq<char>,
    more: Seq<Seq<char>>,
    d: char,
)
    requires
        more.len() >= 1,
    ensures
        joined(seq![a, b, c, e] + more, d) == a + seq![d] + b + seq![d] + c + seq![d] + e + seq![d] + joined(
            more,
            d,
        ),
        (seq![a, b, c, e] + more).skip(4) == more,
{
    let all = seq![a, b, c, e] + more;
    let one = all.skip(1);
    let two = one.skip(1);
    let three = two.skip(1);
    assert(all.skip(4) =~= more);
    assert(three.skip(1) =~= more);
    assert(all[0] == a && one[0] == b && two[0] == c && three[0] == e);
    let tail = joined(more, d);
    assert(joined(three, d) == e + seq![d] + tail);
    assert(joined(two, d) == c + seq![d] + joined(three, d));
    assert(joined(one, d) == b + seq![d] + joined(two, d));
    assert(joined(all, d) == a + seq![d] + joined(one, d));
    assert(joined(all, d) =~= a + seq![d] + b + seq![d] + c + seq![d] + e + seq![d] + tail);
}

/// A point that was written as a line of a file, number, northing, easting, elevation
/// and description with commas between them, is read back as it was. The description
/// may hold commas too.
pub proof fn law_a_written_point_is_read_back(
    number: Seq<char>,
    north: Seq<char>,
    east: Seq<char>,
    elevation: Seq<char>,
    description: Seq<char>,
)
    requires
        is_trim(number),
        is_free_of(number, ','),
        is_free_of(number, '\n'),
        number.len() > 0 ==> number[0] != '#',
        number_of(north) == Some(north),
        number_of(east) == Some(east),
        number_of(elevation) == Some(elevation),
        is_trim(description),
        is_free_of(description, '\n'),
    ensures
        read_text(
            number + ","@ + north + ","@ + east + ","@ + elevation + ","@ + description + "\n"@,
            pnezd_format(),
        ) == (seq![Record { number, northing: north, easting: east, elevation, description }], 0nat),
{
    reveal_strlit(",");
    reveal_strlit("\n");
    assert(","@ =~= seq![',']);
    assert("\n"@ =~= seq!['\n']);
    lemma_settled_number(north);
    lemma_settled_number(east);
    lemma_settled_number(elevation);
    let more = split_all(description, ',');
    lemma_pieces_joined(description, ',');
    let cells = seq![number, north, east, elevation] + more;
    let line = joined(cells, ',');
    lemma_row_of_five(number, north, east, elevation, more, ',');
    lemma_written_line(number, north, east, elevation, description);
    let fmt = Format { delimiter: Delimiter::Comma, ..pnezd_format() };
    assert forall|i: int| 0 <= i < cells.len() implies is_free_of(#[trigger] cells[i], ',') by {
        if i >= 4 {
            assert(cells[i] == more[i - 4]);
        }
    }
    law_cells_are_columns(cells, ',', fmt);
    let rests = rests_of(cells, ',');
    assert(rests[4] == description);
    assert(takes_the_rest(fmt, 4) && !takes_the_rest(fmt, 0) && !takes_the_rest(fmt, 1)
        && !takes_the_rest(fmt, 2) && !takes_the_rest(fmt, 3));
    let none: Seq<char> = Seq::empty();
    lemma_trims_to_itself(number);
    lemma_trims_to_itself(north);
    lemma_trims_to_itself(east);
    lemma_trims_to_itself(elevation);
    lemma_trims_to_itself(description);
    lemma_trims_to_itself(line);
    let r = Record { number, northing: north, easting: east, elevation, description };
    assert(line_record(line, fmt) == Some(r)) by {
        let got = line_record(line, fmt);
        assert(cell(cells, rests, fmt, 1) == north);
        assert(cell(cells, rests, fmt, 2) == east);
        assert(cell(cells, rests, fmt, 3) == elevation);
        assert(cell(cells, rests, fmt, 0) == number);
        assert(cell(cells, rests, fmt, 4) == description);
        assert(got is Some);
        assert(got->0 =~= r);
    }
    law_the_first_delimiter_that_gives_a_point(line, pnezd_format());
    assert(line_record(line, pnezd_format()) == Some(r));
    law_one_line(line, pnezd_format());
    law_one_line(none, pnezd_format());
    lemma_trims_to_itself(none);
    law_files_concatenate(line, none, pnezd_format());
    let text = number + ","@ + north + ","@ + east + ","@ + elevation + ","@ + description + "\n"@;
    assert(text =~= line + seq!['\n'] + none);
    assert(seq![r] + Seq::<Record>::empty() =~= seq![r]);
}

proof fn lemma_trims_to_itself(s: Seq<char>)
    requires
        is_trim(s),
    ensures
        trim(s) == s,
{
    let none: Seq<char> = Seq::empty();
    law_trimming_takes_the_ends(none, s, none);
    assert(none + s + none =~= s);
}

/// A written line is one line, begins with data and needs no trimming.
proof fn lemma_written_line(
    a: Seq<char>,
    b: Seq<char>,
    c: Seq<char>,
    e: Seq<char>,
    f: Seq<char>,
)
    requires
        is_trim(a),
        is_trim(f),
        a.len() > 0 ==> a[0] != '#',
        is_free_of(a, '\n'),
        is_free_of(b, '\n'),
        is_free_of(c, '\n'),
        is_free_of(e, '\n'),
        is_free_of(f, '\n'),
    ensures
        ({
            let s = a + seq![','] + b + seq![','] + c + seq![','] + e + seq![','] + f;
            &&& is_trim(s)
            &&& s.len() > 0
            &&& s[0] != '#'
            &&& is_free_of(s, '\n')
        }),
{
    let s1 = a + seq![','] + b;
    let s2 = s1 + seq![','] + c;
    let s3 = s2 + seq![','] + e;
    let s = s3 + seq![','] + f;
    lemma_free_joined(a, b, '\n');
    lemma_free_joined(s1, c, '\n');
    lemma_free_joined(s2, e, '\n');
    lemma_free_joined(s3, f, '\n');
    assert(s =~= a + seq![','] + b + seq![','] + c + seq![','] + e + seq![','] + f);
    if a.len() > 0 {
        assert(s[0] == a[0]);
    } else {
        assert(s[0] == ',');
    }
    if f.len() > 0 {
        assert(s.last() == f.last());
    } else {
        assert(s.last() == ',');
    }
}

proof fn lemma_free_joined(a: Seq<char>, b: Seq<char>, d: char)
    requires
        is_free_of(a, d),
        is_free_of(b, d),
        d != ',',
    ensures
        is_free_of(a + seq![','] + b, d),
{
    let s = a + seq![','] + b;
    assert forall|i: int| 0 <= i < s.len() implies #[trigger] s[i] != d by {
        if i < a.len() {
            assert(s[i] == a[i]);
        } else if i > a.len() {
            assert(s[i] == b[i - a.len() - 1]);
        }
    }
}

} // verus!
