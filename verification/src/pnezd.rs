//! PNEZD / PENZD point files.
//!
//! The default format holds one point per line:
//!
//! ```text
//! point, northing, easting, elevation, description
//! ```
//!
//! Blank lines and lines that begin with `#` are ignored. Exports differ in their
//! delimiter and in the order of their columns, so a [`Format`] says which column
//! holds which field; [`parse`] takes the usual order and finds the delimiter line
//! by line. A description in the last mapped column is the remainder of its line,
//! so it may contain the delimiter.

use vstd::prelude::*;
use vstd::slice::slice_subrange;

use crate::number::{
    all_digits, digits, exponent_mark, fraction_part, is_finite, lemma_number_zero,
    lemma_zero_is_finite, number, read_double, rounds_to_finite, significand, unsigned, whole_part,
    Double,
};
use crate::text::{
    ascii_ink, ascii_space, chars_of, exactly, find_ascii_ink, find_ascii_space, find_char,
    find_space, first_where, first_word, ink, is_space, is_white, lemma_first_where,
    lemma_first_where_is, lemma_views_push, lower_text, past_last, past_last_where, split_all,
    split_at_most, split_up_to, string_of, trim, trimmed, trimmed_start, views,
};

verus! {

/// The field delimiter of a point file.
#[derive(Debug, Clone, Copy, PartialEq, Eq, Structural)]
pub enum Delimiter {
    /// The first delimiter that gives a numeric northing and easting: comma,
    /// semicolon, tab, then white space.
    Auto,
    Comma,
    Semicolon,
    Tab,
    /// Any run of ASCII white space, as in files aligned with spaces.
    Whitespace,
}

/// Which column, counted from 0, holds each field. Northing and easting are
/// required, the rest is optional. A description in the last mapped column is the
/// remainder of the line; any other mapped column is one field.
#[derive(Debug, Clone, PartialEq, Eq, Structural)]
pub struct Format {
    pub number: Option<usize>,
    pub northing: usize,
    pub easting: usize,
    pub elevation: Option<usize>,
    pub description: Option<usize>,
    pub delimiter: Delimiter,
}

impl Default for Format {
    /// The conventional order.
    fn default() -> (f: Self)
        ensures
            f == pnezd_format(),
    {
        Format::pnezd()
    }
}

/// `P, N, E, Z, D`, with the delimiter found by itself.
pub open spec fn pnezd_format() -> Format {
    Format {
        number: Some(0),
        northing: 1,
        easting: 2,
        elevation: Some(3),
        description: Some(4),
        delimiter: Delimiter::Auto,
    }
}

/// `P, E, N, Z, D`, with the delimiter found by itself.
pub open spec fn penzd_format() -> Format {
    Format { northing: 2, easting: 1, ..pnezd_format() }
}

impl Format {
    /// `P, N, E, Z, D`: the conventional order, with the delimiter found by itself.
    pub fn pnezd() -> (f: Self)
        ensures
            f == pnezd_format(),
    {
        Format {
            number: Some(0),
            northing: 1,
            easting: 2,
            elevation: Some(3),
            description: Some(4),
            delimiter: Delimiter::Auto,
        }
    }

    /// `P, E, N, Z, D`: easting before northing.
    pub fn penzd() -> (f: Self)
        ensures
            f == penzd_format(),
    {
        Format {
            number: Some(0),
            northing: 2,
            easting: 1,
            elevation: Some(3),
            description: Some(4),
            delimiter: Delimiter::Auto,
        }
    }
}

/// A survey number: a decimal text that a finite double can be read from.
#[derive(Debug, Clone, PartialEq, Eq)]
pub struct Decimal {
    pub text: String,
}

impl View for Decimal {
    type V = Seq<char>;

    open spec fn view(&self) -> Seq<char> {
        self.text@
    }
}

impl Decimal {
    /// The text is a finite number.
    pub open spec fn wf(self) -> bool {
        is_finite(self.text@)
    }
}

/// A point record as texts.
#[verifier::ext_equal]
pub struct Record {
    pub number: Seq<char>,
    pub northing: Seq<char>,
    pub easting: Seq<char>,
    pub elevation: Seq<char>,
    pub description: Seq<char>,
}

/// A single point. The number is kept as a text so that names such as "CP1"
/// survive.
#[derive(Debug, Clone, PartialEq, Eq)]
pub struct PnezdPoint {
    pub number: String,
    pub northing: Decimal,
    pub easting: Decimal,
    pub elevation: Decimal,
    pub description: String,
}

impl View for PnezdPoint {
    type V = Record;

    open spec fn view(&self) -> Record {
        Record {
            number: self.number@,
            northing: self.northing@,
            easting: self.easting@,
            elevation: self.elevation@,
            description: self.description@,
        }
    }
}

impl PnezdPoint {
    /// Its coordinates are finite.
    pub open spec fn wf(self) -> bool {
        self.northing.wf() && self.easting.wf() && self.elevation.wf()
    }

    /// The feature code: the first word of the description, empty where there is
    /// none.
    pub fn code(&self) -> (r: &str)
        ensures
            r@ == first_word(self.description@),
    {
        let v = chars_of(self.description.as_str());
        let t = trimmed_start(v.as_slice());
        let k = find_space(t);
        proof {
            lemma_first_where(v@, ink());
        }
        let from = v.len() - t.len();
        proof {
            assert(self.description@.subrange(from as int, from + k) =~= t@.take(k as int));
        }
        self.description.as_str().substring_char(from, from + k)
    }
}

/// The outcome of reading a point file.
#[derive(Debug, PartialEq, Eq)]
pub struct ParseOutcome {
    pub points: Vec<PnezdPoint>,
    /// Lines, neither blank nor comments, that hold no point.
    pub skipped: usize,
}

impl ParseOutcome {
    /// The coordinates of its points are finite.
    pub open spec fn wf(self) -> bool {
        forall|p: PnezdPoint| self.points@.contains(p) ==> #[trigger] p.wf()
    }
}

impl Default for ParseOutcome {
    /// No points and no skipped lines.
    fn default() -> (out: Self)
        ensures
            out.points@.len() == 0,
            out.skipped == 0,
    {
        ParseOutcome { points: Vec::new(), skipped: 0 }
    }
}

/// The records that a list of points holds.
pub open spec fn records_of(points: Seq<PnezdPoint>) -> Seq<Record> {
    points.map_values(|p: PnezdPoint| p@)
}

impl View for ParseOutcome {
    type V = (Seq<Record>, nat);

    open spec fn view(&self) -> (Seq<Record>, nat) {
        (records_of(self.points@), self.skipped as nat)
    }
}

/// The predicate "is not `d`".
pub open spec fn other_than(d: char) -> spec_fn(char) -> bool {
    |c: char| c != d
}

/// A text without one character.
pub open spec fn without(s: Seq<char>, c: char) -> Seq<char> {
    s.filter(other_than(c))
}

/// A text with its commas turned into points.
pub open spec fn comma_to_point(s: Seq<char>) -> Seq<char> {
    s.map_values(|x: char| if x == ',' { '.' } else { x })
}

/// How often a character occurs in a text.
pub open spec fn occurrences(s: Seq<char>, c: char) -> nat {
    s.filter(exactly(c)).len()
}

/// A number as it stands in a file, without white space and with a point, if
/// anything, before its fraction.
///
/// A single comma is a decimal comma. Several commas alone, or several points
/// alone, separate thousands. Where both occur, the last of them is the decimal
/// separator and the other one separates thousands.
pub open spec fn normalized(raw: Seq<char>) -> Seq<char> {
    let s = raw.filter(ink());
    let commas = occurrences(s, ',');
    let points = occurrences(s, '.');
    if commas == 0 {
        if points <= 1 {
            s
        } else {
            without(s, '.')
        }
    } else if points == 0 {
        if commas == 1 {
            comma_to_point(s)
        } else {
            without(s, ',')
        }
    } else if past_last(s, exactly(',')) > past_last(s, exactly('.')) {
        comma_to_point(without(s, '.'))
    } else {
        without(s, ',')
    }
}

/// The survey number that a field stands for.
pub open spec fn number_of(raw: Seq<char>) -> Option<Seq<char>> {
    if is_finite(normalized(raw)) {
        Some(normalized(raw))
    } else {
        None
    }
}

/// Drops the characters of a text that a test does not hold of.
fn kept(s: &[char], f: impl Fn(char) -> bool, Ghost(p): Ghost<spec_fn(char) -> bool>) -> (out: Vec<
    char,
>)
    requires
        forall|c: char| call_requires(f, (c,)),
        forall|c: char, b: bool| call_ensures(f, (c,), b) ==> b == p(c),
    ensures
        out@ == s@.filter(p),
{
    let mut out: Vec<char> = Vec::new();
    let mut i: usize = 0;
    proof {
        reveal(Seq::filter);
    }
    while i < s.len()
        invariant
            i <= s.len(),
            forall|c: char| call_requires(f, (c,)),
            forall|c: char, b: bool| call_ensures(f, (c,), b) ==> b == p(c),
            out@ == s@.take(i as int).filter(p),
        decreases s.len() - i,
    {
        let c = s[i];
        let keep = f(c);
        proof {
            reveal(Seq::filter);
            assert(s@.take(i + 1).drop_last() =~= s@.take(i as int));
        }
        if keep {
            out.push(c);
        }
        i += 1;
    }
    assert(s@.take(i as int) =~= s@);
    out
}

/// Drops one character from a text.
fn dropped(s: &[char], d: char) -> (out: Vec<char>)
    ensures
        out@ == without(s@, d),
{
    kept(s, |c: char| -> (b: bool) ensures b == (c != d) { c != d }, Ghost(other_than(d)))
}

/// Turns the commas of a text into points.
fn pointed(s: &[char]) -> (out: Vec<char>)
    ensures
        out@ == comma_to_point(s@),
{
    let mut out: Vec<char> = Vec::new();
    let mut i: usize = 0;
    while i < s.len()
        invariant
            i <= s.len(),
            out@ =~= comma_to_point(s@.take(i as int)),
        decreases s.len() - i,
    {
        out.push(if s[i] == ',' { '.' } else { s[i] });
        i += 1;
    }
    assert(s@.take(i as int) =~= s@);
    out
}

/// Counts a character.
fn count(s: &[char], d: char) -> (n: usize)
    ensures
        n == occurrences(s@, d),
{
    kept(s, |c: char| -> (b: bool) ensures b == (c == d) { c == d }, Ghost(exactly(d))).len()
}

/// Finds the end of the last `d` of a text.
fn past_last_char(s: &[char], d: char) -> (i: usize)
    ensures
        i == past_last(s@, exactly(d)),
{
    past_last_where(s, |c: char| -> (b: bool) ensures b == (c == d) { c == d }, Ghost(exactly(d)))
}

/// Brings a number as it stands in a file into the usual notation.
fn normal(raw: &[char]) -> (out: Vec<char>)
    ensures
        out@ == normalized(raw@),
{
    let v = kept(
        raw,
        |c: char| -> (b: bool) ensures b == !is_space(c) { !is_white(c) },
        Ghost(ink()),
    );
    let s = v.as_slice();
    let commas = count(s, ',');
    let points = count(s, '.');
    if commas == 0 {
        if points <= 1 {
            v
        } else {
            dropped(s, '.')
        }
    } else if points == 0 {
        if commas == 1 {
            pointed(s)
        } else {
            dropped(s, ',')
        }
    } else if past_last_char(s, ',') > past_last_char(s, '.') {
        pointed(dropped(s, '.').as_slice())
    } else {
        dropped(s, ',')
    }
}

/// Reads a survey number in the usual notation or in the Brazilian one, with a
/// decimal comma and points between thousands.
pub fn parse_number(raw: &str) -> (r: Option<Decimal>)
    ensures
        match r {
            Some(d) => d.wf() && number_of(raw@) == Some(d@),
            None => number_of(raw@) is None,
        },
{
    let v = chars_of(raw);
    let text = string_of(normal(v.as_slice()).as_slice());
    match read_double(text.as_str()) {
        Double::Finite { .. } => Some(Decimal { text }),
        _ => None,
    }
}

/// The pieces of a text between runs of ASCII white space, at most `n` of them,
/// or all of them where `n` is 0; the last piece of `n` keeps the white space
/// that is left.
pub open spec fn split_runs(s: Seq<char>, n: nat) -> Seq<Seq<char>>
    decreases s.len(),
{
    let t = s.skip(first_where(s, ascii_ink()));
    let k = first_where(t, ascii_space());
    if t.len() == 0 {
        Seq::empty()
    } else if n == 1 || k == t.len() {
        seq![t]
    } else {
        proof {
            lemma_first_where(s, ascii_ink());
            lemma_first_where(t, ascii_space());
        }
        seq![t.take(k)] + split_runs(
            t.skip(k),
            if n == 0 {
                0
            } else {
                (n - 1) as nat
            },
        )
    }
}

/// Cuts a text at its first runs of ASCII white space into at most `upto`
/// pieces, or into all of them where `upto` is 0.
fn splitn_whitespace(line: &[char], upto: usize) -> (out: Vec<String>)
    ensures
        views(out@) == split_runs(line@, upto as nat),
{
    let mut out: Vec<String> = Vec::new();
    let mut rest = line;
    let mut left = upto;
    proof {
        assert(views(out@) + split_runs(line@, upto as nat) =~= split_runs(line@, upto as nat));
    }
    loop
        invariant
            views(out@) + split_runs(rest@, left as nat) == split_runs(line@, upto as nat),
        decreases rest@.len(),
    {
        let from = find_ascii_ink(rest);
        let t = slice_subrange(rest, from, rest.len());
        proof {
            assert(t@ =~= rest@.skip(from as int));
            lemma_first_where(rest@, ascii_ink());
            lemma_first_where(t@, ascii_space());
        }
        if t.len() == 0 {
            proof {
                assert(views(out@) =~= split_runs(line@, upto as nat));
            }
            return out;
        }
        let k = find_ascii_space(t);
        if left == 1 || k == t.len() {
            let last = string_of(t);
            proof {
                lemma_views_push(out@, last);
                assert(views(out@).push(last@) =~= views(out@) + seq![t@]);
            }
            out.push(last);
            return out;
        }
        let piece = string_of(slice_subrange(t, 0, k));
        let next = slice_subrange(t, k, t.len());
        let fewer: usize = if left == 0 {
            0
        } else {
            left - 1
        };
        proof {
            lemma_views_push(out@, piece);
            assert(piece@ =~= t@.take(k as int));
            assert(next@ =~= t@.skip(k as int));
            assert(views(out@).push(piece@) + split_runs(next@, fewer as nat) =~= views(out@) + (
            seq![piece@] + split_runs(next@, fewer as nat)));
        }
        out.push(piece);
        rest = next;
        left = fewer;
    }
}

/// A list of texts, each trimmed.
pub open spec fn trimmed_all(pieces: Seq<Seq<char>>) -> Seq<Seq<char>> {
    pieces.map_values(|s: Seq<char>| trim(s))
}

/// The character that a delimiter cuts at.
pub open spec fn delimiter_char(d: Delimiter) -> char {
    match d {
        Delimiter::Semicolon => ';',
        Delimiter::Tab => '\t',
        _ => ',',
    }
}

/// The fields of a line: at most `upto` of them, each trimmed, the last of `upto`
/// with the delimiters that are left in it.
pub open spec fn fields(line: Seq<char>, d: Delimiter, upto: nat) -> Seq<Seq<char>> {
    if d == Delimiter::Whitespace {
        trimmed_all(split_runs(line, upto))
    } else {
        trimmed_all(split_at_most(line, upto, delimiter_char(d)))
    }
}

/// Trims every text of a list.
fn trim_all(pieces: &Vec<String>) -> (out: Vec<String>)
    ensures
        views(out@) == trimmed_all(views(pieces@)),
{
    let mut out: Vec<String> = Vec::new();
    let mut i: usize = 0;
    while i < pieces.len()
        invariant
            i <= pieces.len(),
            views(out@) =~= trimmed_all(views(pieces@.take(i as int))),
        decreases pieces.len() - i,
    {
        let v = chars_of(pieces[i].as_str());
        let piece = string_of(trimmed(v.as_slice()));
        proof {
            lemma_views_push(out@, piece);
        }
        out.push(piece);
        i += 1;
    }
    assert(pieces@.take(i as int) =~= pieces@);
    out
}

/// Cuts a line into at most `upto` fields.
fn split_fields(line: &[char], delim: Delimiter, upto: usize) -> (out: Vec<String>)
    requires
        delim != Delimiter::Auto,
    ensures
        views(out@) == fields(line@, delim, upto as nat),
{
    let pieces = match delim {
        Delimiter::Whitespace => splitn_whitespace(line, upto),
        Delimiter::Semicolon => split_up_to(line, upto, ';'),
        Delimiter::Tab => split_up_to(line, upto, '\t'),
        _ => split_up_to(line, upto, ','),
    };
    trim_all(&pieces)
}

/// Column `i` of a line, empty where the line has none.
pub open spec fn column(f: Seq<Seq<char>>, i: nat) -> Seq<char> {
    if i < f.len() {
        f[i as int]
    } else {
        Seq::empty()
    }
}

/// A delimiter gives a line a numeric northing and easting.
pub open spec fn fits(line: Seq<char>, d: Delimiter, upto: nat, northing: nat, easting: nat) -> bool {
    let f = fields(line, d, upto);
    &&& northing < f.len() && number_of(f[northing as int]) is Some
    &&& easting < f.len() && number_of(f[easting as int]) is Some
}

/// The delimiter of a line.
pub open spec fn resolved(
    line: Seq<char>,
    d: Delimiter,
    upto: nat,
    northing: nat,
    easting: nat,
) -> Delimiter {
    if d != Delimiter::Auto {
        d
    } else if fits(line, Delimiter::Comma, upto, northing, easting) {
        Delimiter::Comma
    } else if fits(line, Delimiter::Semicolon, upto, northing, easting) {
        Delimiter::Semicolon
    } else if fits(line, Delimiter::Tab, upto, northing, easting) {
        Delimiter::Tab
    } else if fits(line, Delimiter::Whitespace, upto, northing, easting) {
        Delimiter::Whitespace
    } else {
        Delimiter::Comma
    }
}

/// Tests whether column `i` of a line is a number.
fn is_number(f: &Vec<String>, i: usize) -> (r: bool)
    ensures
        r == (i < views(f@).len() && number_of(views(f@)[i as int]) is Some),
{
    i < f.len() && parse_number(f[i].as_str()).is_some()
}

/// Tests whether a delimiter gives a line a numeric northing and easting.
fn is_fit(line: &[char], d: Delimiter, upto: usize, northing: usize, easting: usize) -> (r: bool)
    requires
        d != Delimiter::Auto,
    ensures
        r == fits(line@, d, upto as nat, northing as nat, easting as nat),
{
    let f = split_fields(line, d, upto);
    is_number(&f, northing) && is_number(&f, easting)
}

/// Finds the delimiter of a line.
fn resolve_delim(line: &[char], d: Delimiter, upto: usize, northing: usize, easting: usize) -> (r:
    Delimiter)
    ensures
        r == resolved(line@, d, upto as nat, northing as nat, easting as nat),
        r != Delimiter::Auto,
{
    if d != Delimiter::Auto {
        d
    } else if is_fit(line, Delimiter::Comma, upto, northing, easting) {
        Delimiter::Comma
    } else if is_fit(line, Delimiter::Semicolon, upto, northing, easting) {
        Delimiter::Semicolon
    } else if is_fit(line, Delimiter::Tab, upto, northing, easting) {
        Delimiter::Tab
    } else if is_fit(line, Delimiter::Whitespace, upto, northing, easting) {
        Delimiter::Whitespace
    } else {
        Delimiter::Comma
    }
}

/// The larger of a column and an optional column.
pub open spec fn larger(a: nat, b: Option<usize>) -> nat {
    match b {
        Some(i) => if i > a {
            i as nat
        } else {
            a
        },
        None => a,
    }
}

impl Format {
    /// The last column that a field is mapped to.
    pub open spec fn last_column(self) -> nat {
        let a = if self.northing > self.easting {
            self.northing as nat
        } else {
            self.easting as nat
        };
        larger(larger(larger(a, self.number), self.elevation), self.description)
    }

    /// The columns can be counted.
    pub open spec fn wf(self) -> bool {
        self.last_column() < usize::MAX
    }

    /// How many pieces a line is cut into: one for each column up to the last mapped
    /// one, and a further one for what follows it, unless the last mapped column is
    /// a description, which takes that too.
    pub open spec fn pieces(self) -> nat {
        let last = self.last_column();
        let all = match self.description {
            Some(i) if i == last => last + 1,
            _ => last + 2,
        };
        if all <= usize::MAX {
            all
        } else {
            usize::MAX as nat
        }
    }

    /// Counts the pieces that a line is cut into.
    fn count_pieces(&self) -> (r: usize)
        requires
            self.wf(),
        ensures
            r == self.pieces(),
    {
        let last = self.last_mapped();
        let described = match self.description {
            Some(i) => i == last,
            None => false,
        };
        if described || last + 1 == usize::MAX {
            last + 1
        } else {
            last + 2
        }
    }

    /// Finds the last column that a field is mapped to.
    fn last_mapped(&self) -> (r: usize)
        ensures
            r == self.last_column(),
    {
        let mut r = if self.northing > self.easting {
            self.northing
        } else {
            self.easting
        };
        if let Some(i) = self.number {
            if i > r {
                r = i;
            }
        }
        if let Some(i) = self.elevation {
            if i > r {
                r = i;
            }
        }
        if let Some(i) = self.description {
            if i > r {
                r = i;
            }
        }
        r
    }
}

/// An optional column of a line.
pub open spec fn optional_column(f: Seq<Seq<char>>, i: Option<usize>) -> Seq<char> {
    match i {
        Some(i) => column(f, i as nat),
        None => Seq::empty(),
    }
}

/// The fields of a line under a format.
pub open spec fn line_fields(line: Seq<char>, fmt: Format) -> Seq<Seq<char>> {
    let upto = fmt.pieces();
    let d = resolved(line, fmt.delimiter, upto, fmt.northing as nat, fmt.easting as nat);
    fields(line, d, upto)
}

/// The elevation of a line: 0 where it is not mapped, blank or no number.
pub open spec fn elevation_of(f: Seq<Seq<char>>, i: Option<usize>) -> Seq<char> {
    match number_of(optional_column(f, i)) {
        Some(z) if i is Some => z,
        _ => "0"@,
    }
}

/// The record that a line holds; none where its northing or easting is no number.
pub open spec fn line_record(line: Seq<char>, fmt: Format) -> Option<Record> {
    let f = line_fields(line, fmt);
    match (number_of(column(f, fmt.northing as nat)), number_of(column(f, fmt.easting as nat))) {
        (Some(northing), Some(easting)) => Some(
            Record {
                number: optional_column(f, fmt.number),
                northing,
                easting,
                elevation: elevation_of(f, fmt.elevation),
                description: optional_column(f, fmt.description),
            },
        ),
        _ => None,
    }
}

/// A trimmed line that is neither blank nor a comment.
pub open spec fn is_data(line: Seq<char>) -> bool {
    line.len() > 0 && line[0] != '#'
}

/// The records that some lines hold, and how many lines with data hold none.
pub open spec fn read_lines(lines: Seq<Seq<char>>, fmt: Format) -> (Seq<Record>, nat)
    decreases lines.len(),
{
    if lines.len() == 0 {
        (Seq::empty(), 0)
    } else {
        let (records, skipped) = read_lines(lines.drop_last(), fmt);
        let line = trim(lines.last());
        if !is_data(line) {
            (records, skipped)
        } else {
            match line_record(line, fmt) {
                Some(r) => (records.push(r), skipped),
                None => (records, skipped + 1),
            }
        }
    }
}

/// The records of a point file, and how many of its lines with data hold none.
pub open spec fn read_text(text: Seq<char>, fmt: Format) -> (Seq<Record>, nat) {
    read_lines(split_all(text, '\n'), fmt)
}

/// Takes a column of a line.
fn get_column(f: &Vec<String>, i: usize) -> (r: String)
    ensures
        r@ == column(views(f@), i as nat),
{
    if i < f.len() {
        f[i].clone()
    } else {
        String::new()
    }
}

/// Takes an optional column of a line.
fn get_optional(f: &Vec<String>, i: Option<usize>) -> (r: String)
    ensures
        r@ == optional_column(views(f@), i),
{
    match i {
        Some(i) => get_column(f, i),
        None => String::new(),
    }
}

/// Zero is a finite number.
proof fn lemma_zero()
    ensures
        is_finite("0"@),
{
    reveal_strlit("0");
    reveal_strlit("inf");
    reveal_strlit("infinity");
    reveal_strlit("nan");
    let s = "0"@;
    assert(unsigned(s) =~= s);
    assert(lower_text(s).len() == 1);
    assert(lower_text(s) != "inf"@ && lower_text(s) != "infinity"@ && lower_text(s) != "nan"@);
    lemma_first_where_is(s, exponent_mark(), 1);
    assert(significand(s) =~= s);
    lemma_first_where_is(s, exactly('.'), 1);
    assert(whole_part(s) =~= s);
    assert(whole_part(s) + fraction_part(s) =~= s);
    assert(all_digits(s));
    assert(digits(s) =~= seq![0u8]);
    lemma_number_zero(seq![0u8]);
    lemma_zero_is_finite();
    assert(rounds_to_finite(number(digits(s)), 0));
}

/// Reads an elevation.
fn get_elevation(f: &Vec<String>, i: Option<usize>) -> (r: Decimal)
    ensures
        r.wf(),
        r@ == elevation_of(views(f@), i),
{
    if let Some(k) = i {
        if let Some(z) = parse_number(get_column(f, k).as_str()) {
            return z;
        }
    }
    proof {
        lemma_zero();
    }
    Decimal { text: "0".to_string() }
}

/// Reads one trimmed line with data.
fn parse_line(line: &[char], fmt: &Format) -> (r: Option<PnezdPoint>)
    requires
        fmt.wf(),
    ensures
        match r {
            Some(p) => p.wf() && line_record(line@, *fmt) == Some(p@),
            None => line_record(line@, *fmt) is None,
        },
{
    let upto = fmt.count_pieces();
    let delim = resolve_delim(line, fmt.delimiter, upto, fmt.northing, fmt.easting);
    let f = split_fields(line, delim, upto);
    let northing = match parse_number(get_column(&f, fmt.northing).as_str()) {
        Some(n) => n,
        None => return None,
    };
    let easting = match parse_number(get_column(&f, fmt.easting).as_str()) {
        Some(e) => e,
        None => return None,
    };
    Some(
        PnezdPoint {
            number: get_optional(&f, fmt.number),
            northing,
            easting,
            elevation: get_elevation(&f, fmt.elevation),
            description: get_optional(&f, fmt.description),
        },
    )
}

/// Adding a point to a list adds its record.
proof fn lemma_records_push(v: Seq<PnezdPoint>, p: PnezdPoint)
    ensures
        records_of(v.push(p)) == records_of(v).push(p@),
{
    assert(records_of(v.push(p)) =~= records_of(v).push(p@));
}

/// Reads one line of a file into an outcome.
fn read_line(line: &[char], fmt: &Format, out: &mut ParseOutcome, Ghost(done): Ghost<Seq<Seq<char>>>)
    requires
        fmt.wf(),
        old(out)@ == read_lines(done, *fmt),
        forall|p: PnezdPoint| old(out).points@.contains(p) ==> p.wf(),
        line@.len() > 0 ==> old(out).skipped < usize::MAX,
    ensures
        final(out)@ == read_lines(done.push(line@), *fmt),
        forall|p: PnezdPoint| final(out).points@.contains(p) ==> p.wf(),
        final(out).skipped <= old(out).skipped + 1,
        line@.len() == 0 ==> final(out).skipped == old(out).skipped,
{
    proof {
        assert(done.push(line@).drop_last() =~= done);
        if line@.len() == 0 {
            lemma_first_where(line@, ink());
        }
    }
    let t = trimmed(line);
    if t.len() == 0 || t[0] == '#' {
        return ;
    }
    proof {
        lemma_first_where(line@, ink());
    }
    let ghost before = out.points@;
    match parse_line(t, fmt) {
        Some(p) => {
            proof {
                lemma_records_push(before, p);
            }
            out.points.push(p);
            proof {
                assert forall|x: PnezdPoint| out.points@.contains(x) implies x.wf() by {
                    let k = choose|k: int| 0 <= k < out.points@.len() && out.points@[k] == x;
                    if k < before.len() {
                        assert(before.contains(before[k]));
                    }
                }
            }
        },
        None => {
            out.skipped = out.skipped + 1;
        },
    }
}

/// Reads a point file under a format. Lines that hold no point are counted.
pub fn parse_with(text: &str, fmt: &Format) -> (out: ParseOutcome)
    requires
        fmt.wf(),
    ensures
        out@ == read_text(text@, *fmt),
        out.wf(),
{
    let mut out = ParseOutcome { points: Vec::new(), skipped: 0 };
    let v = chars_of(text);
    let mut rest = v.as_slice();
    let ghost mut done: Seq<Seq<char>> = Seq::empty();
    proof {
        assert(done + split_all(text@, '\n') =~= split_all(text@, '\n'));
        assert(records_of(out.points@) =~= Seq::empty());
        assert(v@.len() == v.len());
    }
    loop
        invariant
            fmt.wf(),
            done + split_all(rest@, '\n') == split_all(text@, '\n'),
            out@ == read_lines(done, *fmt),
            forall|p: PnezdPoint| out.points@.contains(p) ==> p.wf(),
            out.skipped + rest@.len() <= usize::MAX,
        decreases rest@.len(),
    {
        let k = find_char(rest, '\n');
        let line = slice_subrange(rest, 0, k);
        read_line(line, fmt, &mut out, Ghost(done));
        proof {
            assert(line@ =~= rest@.take(k as int));
        }
        if k == rest.len() {
            proof {
                assert(line@ =~= rest@);
                assert(done.push(line@) =~= done + split_all(rest@, '\n'));
            }
            return out;
        }
        let next = slice_subrange(rest, k + 1, rest.len());
        proof {
            assert(next@ =~= rest@.skip(k + 1));
            assert(done.push(line@) + split_all(next@, '\n') =~= done + (seq![line@] + split_all(
                next@,
                '\n',
            )));
            done = done.push(line@);
        }
        rest = next;
    }
}

/// Reads a point file in PNEZD order, with the delimiter found by itself.
pub fn parse(text: &str) -> (out: ParseOutcome)
    ensures
        out@ == read_text(text@, pnezd_format()),
        out.wf(),
{
    parse_with(text, &Format::pnezd())
}

} // verus!
