//! What an import of a point file draws and says, and how the points in a drawing
//! are listed.

use acadrust::xdata::ExtendedDataRecord;
use acadrust::{CadDocument, EntityType, Vector3};
use vstd::prelude::*;

use crate::console::{lemma_replies_push, replies, Reply, Said};
use crate::dispatch::{ImportView, PnezdImport};
use crate::entities::{
    data_of, document_entities, entities_in, entity_data, entity_layer, entity_point, height_text,
    point_of, point_on, referred, shown, shown_height, vector, vector_of, vector_text,
};
use crate::layers::{code_layer, code_layer_of, optional_view};
use crate::number::{double_of, read_double, Double, Sign};
use crate::pnezd::{parse_with, read_text, records_of, Format, ParseOutcome, PnezdPoint, Record};
use crate::records::{
    entity_records, law_point_tags_read_back, pair_record, point_record, point_tag, point_tag_of,
    record_application, record_values, XDATA_POINT,
};
use crate::text::{chars_of, decimal, decimal_text, first_word};

verus! {

/// A text with spaces behind it, up to a width.
pub open spec fn padded(s: Seq<char>, width: nat) -> Seq<char>
    decreases width - s.len(),
{
    if s.len() >= width {
        s
    } else {
        padded(s.push(' '), width)
    }
}

/// Pads a text with spaces, up to a width.
pub fn pad(s: &str, width: usize) -> (r: String)
    ensures
        r@ == padded(s@, width as nat),
{
    let mut n = chars_of(s).len();
    let mut r = s.to_string();
    while n < width
        invariant
            n == r@.len(),
            padded(r@, width as nat) == padded(s@, width as nat),
        decreases width - n,
    {
        r.push(' ');
        n += 1;
    }
    r
}

/// A point in a list: its number, its coordinates and its description.
pub open spec fn row(number: Seq<char>, at: (Seq<char>, Seq<char>, Seq<char>), description: Seq<char>) -> Seq<
    char,
> {
    "  "@ + padded(number, 8) + " E "@ + at.0 + "  N "@ + at.1 + "  Z "@ + at.2 + "  "@ + description
}

/// Writes a point in a list.
fn write_row(number: &str, at: &(String, String, String), description: &str) -> (r: Reply)
    ensures
        r@ == Said::Output(row(number@, (at.0@, at.1@, at.2@), description@)),
{
    Reply::Output(
        "  ".to_string().concat(pad(number, 8).as_str()).concat(" E ").concat(at.0.as_str()).concat(
            "  N ",
        ).concat(at.1.as_str()).concat("  Z ").concat(at.2.as_str()).concat("  ").concat(description),
    )
}

/// Where a point is drawn: easting, northing and elevation.
pub open spec fn place_of(p: Record) -> Vector3 {
    vector_of(p.easting, p.northing, p.elevation)
}

/// Finds where a point is drawn.
fn locate(p: &PnezdPoint) -> (v: Vector3)
    requires
        p.wf(),
    ensures
        v == place_of(p@),
{
    vector(p.easting.text.as_str(), p.northing.text.as_str(), p.elevation.text.as_str())
}

/// The second line of a point's label: its elevation, unless that is zero, and its
/// description.
pub open spec fn detail_of(p: Record) -> Seq<char> {
    let height = if double_of(p.elevation) == (Double::Finite { sign: Sign::Zero }) {
        Seq::empty()
    } else {
        height_text(place_of(p))
    };
    if p.description.len() == 0 {
        height
    } else if height.len() == 0 {
        p.description
    } else {
        height + " "@ + p.description
    }
}

/// Writes the second line of a point's label.
fn write_detail(p: &PnezdPoint, at: &Vector3) -> (r: String)
    requires
        *at == place_of(p@),
    ensures
        r@ == detail_of(p@),
{
    let height = match read_double(p.elevation.text.as_str()) {
        Double::Finite { sign: Sign::Zero } => String::new(),
        _ => shown_height(at),
    };
    let described = !p.description.as_str().is_empty();
    let high = !height.as_str().is_empty();
    if !described {
        height
    } else if !high {
        p.description.clone()
    } else {
        height.concat(" ").concat(p.description.as_str())
    }
}

/// What is drawn for a point.
pub struct PointDrawing {
    pub entity: EntityType,
    pub record: ExtendedDataRecord,
    /// The layer of the point and of its label.
    pub layer: String,
    /// The label, if points are labelled.
    pub label: Option<String>,
    /// The second line of the label, if it is asked for and there is one.
    pub detail: Option<String>,
}

/// A drawing shows a point: on the layer of its code, tagged with its number and
/// its description, and labelled as asked.
pub open spec fn draws_point(d: PointDrawing, p: Record, labelled: bool, detailed: bool) -> bool {
    let layer = code_layer_of(first_word(p.description));
    &&& entity_point(d.entity) == Some(place_of(p))
    &&& entity_layer(d.entity) == layer
    &&& entity_records(entity_data(d.entity)).len() == 0
    &&& (record_application(d.record), record_values(d.record)) == pair_record(
        XDATA_POINT@,
        p.number,
        p.description,
    )
    &&& d.layer@ == layer
    &&& optional_view(d.label) == if labelled {
        Some(p.number)
    } else {
        None
    }
    &&& optional_view(d.detail) == if labelled && detailed && detail_of(p).len() > 0 {
        Some(detail_of(p))
    } else {
        None
    }
}

/// Draws a point.
pub fn draw_point(p: &PnezdPoint, labelled: bool, detailed: bool) -> (d: PointDrawing)
    requires
        p.wf(),
    ensures
        draws_point(d, p@, labelled, detailed),
{
    let at = locate(p);
    let layer = code_layer(p.code());
    let entity = point_on(at, layer.as_str());
    let record = point_record(p.number.as_str(), p.description.as_str());
    let label = if labelled {
        Some(p.number.clone())
    } else {
        None
    };
    let mut detail: Option<String> = None;
    if labelled && detailed {
        let line = write_detail(p, &at);
        if !line.as_str().is_empty() {
            detail = Some(line);
        }
    }
    PointDrawing { entity, record, layer, label, detail }
}

/// How the columns of a format are called.
pub open spec fn order_of(f: Format) -> Seq<char> {
    if f.easting < f.northing {
        "PENZD"@
    } else {
        "PNEZD"@
    }
}

/// The rows of some points.
pub open spec fn rows_of(points: Seq<Record>) -> Seq<Said> {
    points.map_values(
        |p: Record| Said::Output(row(p.number, vector_text(place_of(p)), p.description)),
    )
}

/// What a preview says: how many points there are, and the first five of them.
pub open spec fn preview_of(q: ImportView, points: Seq<Record>, skipped: nat) -> Seq<Said> {
    let head = Said::Output(
        "LS_PNEZD preview \""@ + q.path + "\" \u{2014} order "@ + order_of(q.format) + ": "@ + decimal(
            points.len(),
        ) + " point(s), "@ + decimal(skipped) + " skipped. First rows:"@,
    );
    if points.len() > 5 {
        seq![head] + rows_of(points.take(5)) + seq![
            Said::Output("  \u{2026} and "@ + decimal((points.len() - 5) as nat) + " more"@),
        ]
    } else {
        seq![head] + rows_of(points)
    }
}

/// Why a file is refused that holds no points.
pub open spec fn no_points(path: Seq<char>, skipped: nat) -> Said {
    Said::Error(
        "LS_PNEZD: no valid points in \""@ + path + "\" ("@ + decimal(skipped) + " line(s) skipped)."@,
    )
}

/// What an import says when it is done.
pub open spec fn imported_of(added: nat, skipped: nat, total: nat) -> Said {
    let note = if skipped > 0 {
        ", "@ + decimal(skipped) + " line(s) skipped"@
    } else {
        Seq::empty()
    };
    Said::Output(
        "LS_PNEZD: imported "@ + decimal(added) + " labeled point(s)"@ + note
            + ", grouped by code. "@ + decimal(total) + " this session."@,
    )
}

/// Writes what a preview says.
fn write_preview(q: &PnezdImport, points: &Vec<PnezdPoint>, skipped: usize) -> (r: Vec<Reply>)
    requires
        forall|p: PnezdPoint| points@.contains(p) ==> #[trigger] p.wf(),
    ensures
        replies(r@) == preview_of(q@, records_of(points@), skipped as nat),
{
    let ghost all = records_of(points@);
    let order = if q.format.easting < q.format.northing {
        "PENZD"
    } else {
        "PNEZD"
    };
    let mut r: Vec<Reply> = Vec::new();
    let head = Reply::Output(
        "LS_PNEZD preview \"".to_string().concat(q.path.as_str()).concat("\" \u{2014} order ").concat(
            order,
        ).concat(": ").concat(decimal_text(points.len()).as_str()).concat(" point(s), ").concat(
            decimal_text(skipped).as_str(),
        ).concat(" skipped. First rows:"),
    );
    let ghost first = seq![head@];
    r.push(head);
    let upto: usize = if points.len() > 5 {
        5
    } else {
        points.len()
    };
    let ghost rows = rows_of(all);
    let mut i: usize = 0;
    assert(replies(r@) =~= first + rows.take(0));
    while i < upto
        invariant
            i <= upto <= points.len(),
            all == records_of(points@),
            rows == rows_of(all),
            forall|p: PnezdPoint| points@.contains(p) ==> #[trigger] p.wf(),
            replies(r@) =~= first + rows.take(i as int),
        decreases upto - i,
    {
        let p = &points[i];
        assert(points@.contains(points@[i as int]) && p.wf());
        let at = locate(p);
        let line = write_row(p.number.as_str(), &shown(&at), p.description.as_str());
        proof {
            lemma_replies_push(r@, line);
            assert(rows.take(i + 1) =~= rows.take(i as int).push(rows[i as int]));
        }
        r.push(line);
        i += 1;
    }
    if points.len() > 5 {
        assert(rows.take(5) =~= rows_of(all.take(5)));
        let more = Reply::Output(
            "  \u{2026} and ".to_string().concat(decimal_text(points.len() - 5).as_str()).concat(
                " more",
            ),
        );
        proof {
            lemma_replies_push(r@, more);
            assert(replies(r@).push(more@) =~= preview_of(q@, all, skipped as nat));
        }
        r.push(more);
    } else {
        assert(rows.take(i as int) =~= rows);
    }
    r
}

/// What comes of an import.
pub enum Imported {
    /// Nothing is drawn, and this is said.
    Said(Vec<Reply>),
    /// These points are drawn, and then this is said.
    Drawn(Vec<PointDrawing>, Reply),
}

/// What comes of an import of some points, and of the count of the session.
pub open spec fn imports(
    q: ImportView,
    points: Seq<Record>,
    skipped: nat,
    suppressed: bool,
    before: usize,
    after: usize,
    r: Imported,
) -> bool {
    if points.len() == 0 {
        &&& r matches Imported::Said(s) && replies(s@) == seq![no_points(q.path, skipped)]
        &&& after == before
    } else if q.preview {
        &&& r matches Imported::Said(s) && replies(s@) == preview_of(q, points, skipped)
        &&& after == before
    } else {
        &&& r matches Imported::Drawn(d, said) && d@.len() == points.len() && (forall|i: int|
            0 <= i < points.len() ==> draws_point(#[trigger] d@[i], points[i], !suppressed, q.detail))
            && said@ == imported_of(points.len(), skipped, after as nat)
        &&& after == before + points.len()
    }
}

/// Imports the text of a point file. A file without points is refused; a preview
/// draws nothing; else every point is drawn, and the count of the session grows by
/// their number.
pub fn import_pnezd(q: &PnezdImport, text: &str, suppressed: bool, imported: &mut usize) -> (r: Imported)
    requires
        q.format.wf(),
        !q.preview ==> *old(imported) + read_text(text@, q.format).0.len() <= usize::MAX,
    ensures
        ({
            let (points, skipped) = read_text(text@, q.format);
            imports(q@, points, skipped, suppressed, *old(imported), *final(imported), r)
        }),
{
    let outcome = parse_with(text, &q.format);
    import_outcome(q, &outcome, suppressed, imported)
}

/// Imports what was read from a point file.
pub fn import_outcome(
    q: &PnezdImport,
    outcome: &ParseOutcome,
    suppressed: bool,
    imported: &mut usize,
) -> (r: Imported)
    requires
        outcome.wf(),
        !q.preview ==> *old(imported) + outcome@.0.len() <= usize::MAX,
    ensures
        imports(q@, outcome@.0, outcome@.1, suppressed, *old(imported), *final(imported), r),
{
    let points = &outcome.points;
    let ghost all = records_of(points@);
    assert(all.len() == points@.len());
    if points.len() == 0 {
        let refusal = Reply::Error(
            "LS_PNEZD: no valid points in \"".to_string().concat(q.path.as_str()).concat("\" (").concat(
                decimal_text(outcome.skipped).as_str(),
            ).concat(" line(s) skipped)."),
        );
        let mut said: Vec<Reply> = Vec::new();
        said.push(refusal);
        assert(replies(said@) =~= seq![refusal@]);
        return Imported::Said(said);
    }
    if q.preview {
        return Imported::Said(write_preview(q, points, outcome.skipped));
    }
    let mut drawn: Vec<PointDrawing> = Vec::new();
    let mut i: usize = 0;
    while i < points.len()
        invariant
            i <= points.len(),
            *points == outcome.points,
            outcome.wf(),
            all == records_of(points@),
            drawn@.len() == i,
            forall|k: int|
                0 <= k < i ==> draws_point(#[trigger] drawn@[k], all[k], !suppressed, q.detail),
        decreases points.len() - i,
    {
        assert(points@.contains(points@[i as int]) && points@[i as int].wf());
        let d = draw_point(&points[i], !suppressed, q.detail);
        assert(all[i as int] == points@[i as int]@);
        drawn.push(d);
        i += 1;
    }
    *imported = *imported + points.len();
    let note = if outcome.skipped > 0 {
        ", ".to_string().concat(decimal_text(outcome.skipped).as_str()).concat(" line(s) skipped")
    } else {
        String::new()
    };
    let said = Reply::Output(
        "LS_PNEZD: imported ".to_string().concat(decimal_text(points.len()).as_str()).concat(
            " labeled point(s)",
        ).concat(note.as_str()).concat(", grouped by code. ").concat(
            decimal_text(*imported).as_str(),
        ).concat(" this session."),
    );
    Imported::Drawn(drawn, said)
}

/// The point style to set in a drawing: one that can be seen.
pub fn visible_point_mode(mode: i16) -> (r: i16)
    ensures
        r == (if mode == 0 { 3 } else { mode as int }),
{
    if mode == 0 {
        3
    } else {
        mode
    }
}

// ---------------------------------------------------------------------------
// LS_LIST
// ---------------------------------------------------------------------------

/// The texts of coordinates; zeros where there are none.
pub open spec fn coordinates(at: Option<(Seq<char>, Seq<char>, Seq<char>)>) -> (
    Seq<char>,
    Seq<char>,
    Seq<char>,
) {
    match at {
        Some(c) => c,
        None => ("0.000"@, "0.000"@, "0.000"@),
    }
}

/// The row of an entity that carries a point's record, if it does.
pub open spec fn listed(e: EntityType) -> Option<Said> {
    match point_tag_of(entity_records(entity_data(e))) {
        Some((number, description)) => {
            let at = match entity_point(e) {
                Some(v) => Some(vector_text(v)),
                None => None,
            };
            Some(Said::Output(row(number, coordinates(at), description)))
        },
        None => None,
    }
}

/// The rows of the entities that carry a point's record, in order.
pub open spec fn all_listed(entities: Seq<EntityType>) -> Seq<Said>
    decreases entities.len(),
{
    if entities.len() == 0 {
        Seq::empty()
    } else {
        let before = all_listed(entities.drop_last());
        match listed(entities.last()) {
            Some(s) => before.push(s),
            None => before,
        }
    }
}

/// What the list of some rows says.
pub open spec fn list_of(rows: Seq<Said>) -> Seq<Said> {
    if rows.len() == 0 {
        seq![Said::Output("LS_LIST: no Land Survey points in drawing."@)]
    } else {
        seq![
            Said::Output("LS_LIST: "@ + decimal(rows.len()) + " Land Survey point(s):"@),
        ] + rows
    }
}

/// Puts a head over the rows of a list.
pub fn with_head(rows: Vec<Reply>) -> (r: Vec<Reply>)
    ensures
        replies(r@) == list_of(replies(rows@)),
{
    assert(replies(rows@).len() == rows@.len());
    let mut r: Vec<Reply> = Vec::new();
    if rows.len() == 0 {
        r.push(Reply::Output("LS_LIST: no Land Survey points in drawing.".to_string()));
        assert(replies(r@) =~= list_of(replies(rows@)));
        return r;
    }
    r.push(
        Reply::Output(
            "LS_LIST: ".to_string().concat(decimal_text(rows.len()).as_str()).concat(
                " Land Survey point(s):",
            ),
        ),
    );
    let ghost head = r@[0];
    let mut rows = rows;
    let ghost below = rows@;
    r.append(&mut rows);
    assert(replies(r@) =~= seq![head@] + replies(below));
    r
}

/// `LS_LIST`: lists the points of a drawing, read back from their entities.
pub fn list_points(doc: &CadDocument) -> (r: Vec<Reply>)
    ensures
        replies(r@) == list_of(all_listed(document_entities(*doc))),
{
    let list = entities_in(doc);
    let ghost all = document_entities(*doc);
    let mut rows: Vec<Reply> = Vec::new();
    let mut i: usize = 0;
    proof {
        assert(all.take(0) =~= Seq::empty());
        assert(replies(rows@) =~= all_listed(all.take(0)));
    }
    while i < list.len()
        invariant
            i <= list.len(),
            referred(list@) == all,
            replies(rows@) == all_listed(all.take(i as int)),
        decreases list.len() - i,
    {
        let e = list[i];
        proof {
            assert(referred(list@)[i as int] == *e);
            assert(all.take(i + 1).drop_last() =~= all.take(i as int));
            assert(all.take(i + 1).last() == *e);
        }
        if let Some((number, description)) = point_tag(data_of(e)) {
            let at = match point_of(e) {
                Some(v) => shown(&v),
                None => ("0.000".to_string(), "0.000".to_string(), "0.000".to_string()),
            };
            let line = write_row(number.as_str(), &at, description.as_str());
            proof {
                lemma_replies_push(rows@, line);
            }
            rows.push(line);
        }
        i += 1;
    }
    assert(all.take(i as int) =~= all);
    with_head(rows)
}

/// It carries a point's record.
pub open spec fn carries_point(e: EntityType) -> bool {
    point_tag_of(entity_records(entity_data(e))) is Some
}

/// The entities that carry a point's record, in order.
pub open spec fn point_entities(entities: Seq<EntityType>) -> Seq<EntityType> {
    entities.filter(|e: EntityType| carries_point(e))
}

/// Entities that carry no point's record do not matter to the list, wherever they
/// stand.
pub proof fn law_other_entities_are_not_listed(entities: Seq<EntityType>)
    ensures
        all_listed(entities) == all_listed(point_entities(entities)),
    decreases entities.len(),
{
    reveal(Seq::filter);
    if entities.len() > 0 {
        let before = point_entities(entities.drop_last());
        law_other_entities_are_not_listed(entities.drop_last());
        assert(before.push(entities.last()).drop_last() =~= before);
    }
}

/// The entity of a point that was imported: drawn in its place, and tagged with
/// its number and its description.
pub open spec fn is_imported(e: EntityType, p: Record) -> bool {
    &&& entity_point(e) == Some(place_of(p))
    &&& entity_records(entity_data(e)) == seq![pair_record(XDATA_POINT@, p.number, p.description)]
}

/// Points that were imported are listed as they were in the file, whatever else the
/// drawing holds before, between and behind them.
pub proof fn law_imported_points_are_listed(entities: Seq<EntityType>, points: Seq<Record>)
    requires
        point_entities(entities).len() == points.len(),
        forall|i: int|
            0 <= i < points.len() ==> is_imported(#[trigger] point_entities(entities)[i], points[i]),
    ensures
        all_listed(entities) == rows_of(points),
{
    law_other_entities_are_not_listed(entities);
    lemma_points_alone(point_entities(entities), points);
}

/// Points that were imported, and nothing else.
proof fn lemma_points_alone(entities: Seq<EntityType>, points: Seq<Record>)
    requires
        entities.len() == points.len(),
        forall|i: int| 0 <= i < points.len() ==> is_imported(#[trigger] entities[i], points[i]),
    ensures
        all_listed(entities) == rows_of(points),
    decreases points.len(),
{
    if points.len() == 0 {
        assert(all_listed(entities) =~= rows_of(points));
    } else {
        let e = entities.last();
        let p = points.last();
        assert(is_imported(entities[points.len() - 1], p));
        assert forall|i: int| 0 <= i < points.len() - 1 implies is_imported(
            #[trigger] entities.drop_last()[i],
            points.drop_last()[i],
        ) by {
            assert(entities.drop_last()[i] == entities[i]);
        }
        lemma_points_alone(entities.drop_last(), points.drop_last());
        let none: Seq<(Seq<char>, Seq<Option<Seq<char>>>)> = Seq::empty();
        law_point_tags_read_back(none, p.number, p.description);
        assert(none.push(pair_record(XDATA_POINT@, p.number, p.description)) =~= entity_records(
            entity_data(e),
        ));
        assert(all_listed(entities) =~= rows_of(points));
    }
}

} // verus!
