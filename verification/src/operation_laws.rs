//! What the operations do, call by call: what a result satisfies, whatever it was
//! computed from, and how two calls relate.

use acadrust::entities::Mesh;
use acadrust::xdata::{ExtendedData, ExtendedDataRecord};
use acadrust::{CadDocument, Vector3};
use vstd::prelude::*;

use crate::adjust::{
    check_pairs, choose_method, combined_report, helmert_report, CombinedTexts, Fit, Method,
};
use crate::command_laws::is_word;
use crate::console::{replies, Reply, Said};
use crate::dispatch::{handle, PnezdImport, Verb};
use crate::drawing::{
    draw_combined_resection, draw_datum, draw_helmert_stages, draw_resection, draw_rts,
    draw_surface, draw_volume, item_views, plain, FitTexts, Item, LabelPlaces,
    ShapeView, Stages, Tin,
};
use crate::drawing_laws::{
    law_a_datum_shows_surface_and_contour, law_a_fit_is_labelled_step_by_step,
    law_a_volume_shows_both_surfaces, law_every_edge_is_drawn, law_every_known_point_has_its_ray,
    law_every_move_is_drawn, law_every_pair_is_drawn_in_stages, law_every_point_is_drawn,
    law_every_ray_has_its_residual,
};
use crate::entities::{
    document_entities, entity_data, entity_layer, entity_mesh, entity_point, faces_of, vector_of,
    vector_text,
};
use crate::import::{
    detail_of, draw_point, draws_point, imports, law_imported_points_are_listed,
    list_points, point_entities, row, Imported, PointDrawing,
};
use crate::layers::{is_ascii_text, law_layers_are_named_after_codes};
use crate::line_laws::{
    cuts_with, is_countable, is_free_of, is_record_of, law_a_written_point_is_read_back,
    law_cells_are_columns, law_one_line, rests_of,
};
use crate::number::{double_of, is_finite, is_positive, Double, Sign};
use crate::plan::{drawn, import_plan, law_what_is_drawn, Element, Kind, Plan, PlanImport};
use crate::plan_laws::{
    comes_before, law_drawn_in_order, law_layers_are_those_of_what_is_drawn,
    law_repeated_is_what_is_not_drawn, layer_in, of_kind,
};
use crate::pnezd::{
    number_of, parse, parse_number, parse_with, records_of, Decimal,
    Format, ParseOutcome, PnezdPoint, Record,
};
use crate::point_laws::joined;
use crate::records::{
    entity_records, law_point_tags_read_back, law_surface_tags_read_back, pair_record,
    point_record, point_tag, record_application, record_values, surface_record, surface_tag,
    XDATA_POINT, XDATA_SURFACE,
};
use crate::report_laws::{
    law_every_residual_of_a_fit_is_reported, law_method_by_distances,
    law_residuals_of_shots_are_reported,
};
use crate::reports::{read_surface_quiet, SurfaceRead};
use crate::request_laws::{
    are_the_surfaces, calls_a_surface, law_a_fit_is_followed_by_its_last_word,
    law_a_transformation_takes_four_or_six_numbers, law_an_animation_is_asked_for_last,
    law_an_inverse_takes_four_numbers, law_default_surfaces_where_none_is_named,
    law_one_surface_is_too_few, law_the_first_two_names_are_the_surfaces,
    law_the_last_positive_number_is_the_step,
};
use crate::requests::{
    arguments, datum_request, helmert_request, inverse_request, resect_request, rts_request,
    volume_request, DatumRequest, HelmertMode, HelmertRequest, InverseRequest, ResectRequest,
    RtsRefusal, RtsRequest, VolumeRequest,
};
use crate::results::csv_line;
use crate::surface_laws::law_an_imported_surface_is_found;
use crate::surfaces::{
    law_meshes_keep_surfaces, mesh_from_surface, read_nodes, resolve_named_surface, searched,
    surface_from_mesh, triangulated, Step, Surface,
};
use crate::text::{decimal, lower_text, same_but_case, upper_text, views, words};
use crate::text_laws::{
    is_gap, is_trim, law_a_command_is_verb_and_argument, law_first_word, law_no_word_is_empty,
    lemma_own_trim,
};

verus! {

// ---------------------------------------------------------------------------
// Point files
// ---------------------------------------------------------------------------

/// The one point of an outcome, if there is one.
pub open spec fn only_point(out: ParseOutcome) -> Option<Record> {
    if out.points@.len() == 0 {
        None
    } else {
        Some(out.points@[0]@)
    }
}

/// A file of one line of cells is read as the point that its cells say, or else
/// counted as one line without a point.
pub proof fn law_parsing_a_line(
    text: &str,
    fmt: &Format,
    out: ParseOutcome,
    cells: Seq<Seq<char>>,
    d: char,
)
    requires
        call_ensures(parse_with, (text, fmt), out),
        text@ == joined(cells, d),
        cells.len() >= 1,
        cuts_with(fmt.delimiter, d),
        is_countable(*fmt),
        forall|i: int| 0 <= i < cells.len() ==> is_free_of(#[trigger] cells[i], d),
        is_trim(text@),
        text@.len() > 0,
        text@[0] != '#',
        is_free_of(text@, '\n'),
    ensures
        out.points@.len() + out.skipped == 1,
        is_record_of(only_point(out), cells, rests_of(cells, d), *fmt),
{
    lemma_own_trim(text@);
    law_one_line(text@, *fmt);
    law_cells_are_columns(cells, d, *fmt);
    assert(records_of(out.points@).len() == out.points@.len());
    if out.points@.len() > 0 {
        assert(records_of(out.points@)[0] == out.points@[0]@);
    }
}

/// What is written as a line of a point file is read back from it: the same number,
/// coordinates and description.
pub proof fn law_writing_and_reading_a_point(
    number: &str,
    north: &str,
    east: &str,
    elevation: &str,
    description: &str,
    line: String,
    text: &str,
    out: ParseOutcome,
)
    requires
        call_ensures(csv_line, (number, north, east, elevation, description), line),
        text@ == line@,
        call_ensures(parse, (text,), out),
        is_trim(number@),
        is_free_of(number@, ','),
        is_free_of(number@, '\n'),
        number@.len() > 0 ==> number@[0] != '#',
        number_of(north@) == Some(north@),
        number_of(east@) == Some(east@),
        number_of(elevation@) == Some(elevation@),
        is_trim(description@),
        is_free_of(description@, '\n'),
    ensures
        out.skipped == 0,
        out.points@.len() == 1,
        out.points@[0].number@ == number@,
        out.points@[0].northing@ == north@,
        out.points@[0].easting@ == east@,
        out.points@[0].elevation@ == elevation@,
        out.points@[0].description@ == description@,
{
    law_a_written_point_is_read_back(number@, north@, east@, elevation@, description@);
    assert(records_of(out.points@).len() == out.points@.len());
    assert(records_of(out.points@)[0] == out.points@[0]@);
}

/// A number that is read is finite, and reading its text again gives it again.
pub proof fn law_reading_a_number_twice(raw: &str, d: Decimal, text: &str, again: Option<Decimal>)
    requires
        call_ensures(parse_number, (raw,), Some(d)),
        text@ == d@,
        call_ensures(parse_number, (text,), again),
    ensures
        is_finite(d@),
        again matches Some(e) && e@ == d@,
{
    crate::point_laws::law_a_read_number_is_settled(raw@);
}

/// A point is drawn where its easting, its northing and its elevation say, on the
/// layer of the first word of its description, with its number and its description on
/// it. It is labelled with its number if labels are shown, and with a second line if
/// that is asked for too and there is anything to say in it.
pub proof fn law_drawing_a_point(p: &PnezdPoint, labelled: bool, detailed: bool, d: PointDrawing)
    requires
        call_ensures(draw_point, (p, labelled, detailed), d),
    ensures
        entity_point(d.entity) == Some(vector_of(p.easting@, p.northing@, p.elevation@)),
        record_application(d.record) == XDATA_POINT@,
        record_values(d.record) == seq![Some(p.number@), Some(p.description@)],
        entity_layer(d.entity) == d.layer@,
        words(p.description@).len() == 0 ==> d.layer@ == "LS-POINTS"@,
        words(p.description@).len() > 0 ==> d.layer@.len() == "LS-PT-"@.len() + words(p.description@)[0].len(),
        !labelled ==> d.label is None && d.detail is None,
        labelled ==> (d.label matches Some(s) && s@ == p.number@),
        !detailed ==> d.detail is None,
        labelled && detailed && p.description@.len() > 0 && double_of(p.elevation@) == (
        Double::Finite { sign: Sign::Zero }) ==> (d.detail matches Some(s) && s@ == p.description@),
        p.description@.len() == 0 && double_of(p.elevation@) == (Double::Finite { sign: Sign::Zero })
            ==> d.detail is None,
{
    law_first_word(p.description@);
    if words(p.description@).len() > 0 {
        law_no_word_is_empty(p.description@, 0);
        law_layers_are_named_after_codes(words(p.description@)[0], 0);
    }
}

/// The second line of a label: the elevation unless that is zero, above or below, and
/// the description.
pub proof fn law_the_second_line_of_a_label(p: Record)
    ensures
        ({
            let height = crate::entities::height_text(vector_of(p.easting, p.northing, p.elevation));
            let zero = double_of(p.elevation) == (Double::Finite { sign: Sign::Zero });
            &&& zero ==> detail_of(p) == p.description
            &&& !zero && p.description.len() == 0 ==> detail_of(p) == height
            &&& !zero && p.description.len() > 0 && height.len() > 0 ==> detail_of(p) == height + " "@
                + p.description
        }),
{
    if p.description.len() == 0 {
        assert(p.description =~= Seq::empty());
    }
}

/// An import without points says so and draws nothing, a preview draws nothing, and
/// any other import draws every point, in order; only the last changes the count of
/// the session, by the number of its points.
pub proof fn law_what_an_import_does(
    q: PnezdImport,
    points: Seq<Record>,
    skipped: nat,
    suppressed: bool,
    before: usize,
    after: usize,
    r: Imported,
    i: int,
)
    requires
        imports(q@, points, skipped, suppressed, before, after, r),
    ensures
        r is Drawn <==> points.len() > 0 && !q.preview,
        after == before + (if r is Drawn {
            points.len()
        } else {
            0
        }),
        points.len() == 0 ==> (r matches Imported::Said(s) && s@.len() == 1 && s@[0]@ is Error),
        r matches Imported::Drawn(d, _) ==> {
            &&& d@.len() == points.len()
            &&& 0 <= i < points.len() ==> {
                &&& entity_point(d@[i].entity) == Some(
                    vector_of(points[i].easting, points[i].northing, points[i].elevation),
                )
                &&& record_values(d@[i].record) == seq![
                    Some(points[i].number),
                    Some(points[i].description),
                ]
                &&& d@[i].label is Some <==> !suppressed
                &&& d@[i].detail is Some ==> !suppressed && q.detail
            }
        },
{
    if let Imported::Said(s) = r {
        assert(replies(s@).len() == s@.len());
        if s@.len() > 0 {
            assert(replies(s@)[0] == s@[0]@);
        }
    }
    if let Imported::Drawn(d, _) = r {
        if 0 <= i < points.len() {
            assert(draws_point(d@[i], points[i], !suppressed, q.detail));
        }
    }
}

/// A list of the points of a drawing begins with their number, and has a row for each
/// of them; a drawing without points has a line that says so.
pub proof fn law_listing_points(doc: &CadDocument, r: Vec<Reply>, points: Seq<Record>, i: int)
    requires
        call_ensures(list_points, (doc,), r),
        point_entities(document_entities(*doc)).len() == points.len(),
        forall|k: int|
            0 <= k < points.len() ==> crate::import::is_imported(
                #[trigger] point_entities(document_entities(*doc))[k],
                points[k],
            ),
    ensures
        points.len() == 0 ==> r@.len() == 1,
        points.len() > 0 ==> r@.len() == 1 + points.len(),
        points.len() > 0 ==> r@[0]@ == Said::Output(
            "LS_LIST: "@ + decimal(points.len()) + " Land Survey point(s):"@,
        ),
        0 <= i < points.len() ==> r@[1 + i]@ == Said::Output(
            row(
                points[i].number,
                vector_text(vector_of(points[i].easting, points[i].northing, points[i].elevation)),
                points[i].description,
            ),
        ),
{
    law_imported_points_are_listed(document_entities(*doc), points);
    assert(replies(r@).len() == r@.len());
    if points.len() > 0 {
        assert(replies(r@)[0] == r@[0]@);
        if 0 <= i < points.len() {
            assert(replies(r@)[1 + i] == r@[1 + i]@);
        }
    }
}

// ---------------------------------------------------------------------------
// Plans
// ---------------------------------------------------------------------------

/// These are the layers of what is drawn, each of them once.
pub open spec fn are_layers_of<C, T>(
    plan: Plan<C, T>,
    elements: Seq<Element>,
    layers: Seq<Seq<char>>,
) -> bool {
    &&& layers.no_duplicates()
    &&& forall|l: Seq<char>| #[trigger]
        layers.contains(l) <==> exists|i: int|
            0 <= i < elements.len() && layer_in(plan, #[trigger] elements[i]) == l
}

/// An import of a plan draws every element once, list by list, but for chains of
/// fewer than two points, lines that are the edge of some chain, whichever it is, and
/// arcs that are the arc of some chain; and it says how many elements it draws and
/// how many lines and arcs it leaves out.
pub proof fn law_importing_a_plan<C, T>(plan: &Plan<C, T>, source: &str, r: PlanImport, x: Element)
    requires
        call_ensures(import_plan::<C, T>, (plan, source), r),
        plan.polylines@.len() <= usize::MAX,
        plan.lines@.len() <= usize::MAX,
        plan.arcs@.len() <= usize::MAX,
        plan.circles@.len() <= usize::MAX,
        plan.texts@.len() <= usize::MAX,
    ensures
        r.elements@.contains(x) <==> {
            let i = x.index as int;
            match x.kind {
                Kind::Polyline => i < plan.polylines@.len() && plan.polylines@[i].what.points >= 2,
                Kind::Line => i < plan.lines@.len() && !exists|k: int|
                    0 <= k < plan.polylines@.len() && (
                    #[trigger] plan.polylines@[k]).what.edges@.contains(plan.lines@[i].what),
                Kind::Arc => i < plan.arcs@.len() && !exists|k: int|
                    0 <= k < plan.arcs@[i].what@.len() && #[trigger] plan.arcs@[i].what@[k],
                Kind::Circle => i < plan.circles@.len(),
                Kind::Text => i < plan.texts@.len(),
            }
        },
        forall|i: int, j: int|
            0 <= i < j < r.elements@.len() ==> comes_before(
                #[trigger] r.elements@[i],
                #[trigger] r.elements@[j],
            ),
        ({
            let repeated = plan.lines@.len() + plan.arcs@.len() - of_kind(r.elements@, Kind::Line).len()
                - of_kind(r.elements@, Kind::Arc).len();
            exists|layers: Seq<Seq<char>>| #[trigger]
                are_layers_of(*plan, r.elements@, layers) && r.report@ == crate::plan::plan_report(
                    r.elements@.len(),
                    layers.len(),
                    repeated as nat,
                    source@,
                )
        }),
{
    law_what_is_drawn(*plan, x);
    law_drawn_in_order(*plan);
    law_repeated_is_what_is_not_drawn(*plan);
    law_layers_are_those_of_what_is_drawn(*plan);
    assert(r.elements@ == drawn(*plan));
    let layers = crate::plan::drawn_layers(*plan);
    assert(are_layers_of(*plan, r.elements@, layers));
}

// ---------------------------------------------------------------------------
// Stations and fits
// ---------------------------------------------------------------------------

/// A station is found by the combined method whenever two shots carry a distance, and
/// by the three-point method only from three shots without one; else the shots are
/// refused.
pub proof fn law_choosing_a_method(path: &str, shots: &Vec<bool>, r: Result<Method, String>)
    requires
        call_ensures(choose_method, (path, shots), r),
    ensures
        (exists|i: int, j: int|
            0 <= i < j < shots@.len() && #[trigger] shots@[i] && #[trigger] shots@[j]) ==> r == Ok::<
            Method,
            String,
        >(Method::Combined),
        r == Ok::<Method, String>(Method::Combined) ==> exists|i: int, j: int|
            0 <= i < j < shots@.len() && #[trigger] shots@[i] && #[trigger] shots@[j],
        r == Ok::<Method, String>(Method::ThreePoint) <==> shots@.len() == 3 && !shots@[0] && !shots@[1]
            && !shots@[2],
{
    law_method_by_distances(path@, shots@);
    if shots@.len() == 3 && !shots@[0] && !shots@[1] && !shots@[2] {
        assert(shots@ =~= seq![false, false, false]);
    }
}

/// Two pairs are enough for a fit, and fewer are not.
pub proof fn law_checking_pairs(path: &str, n: usize, r: Result<(), String>)
    requires
        call_ensures(check_pairs, (path, n), r),
    ensures
        r is Ok <==> n >= 2,
{
}

/// The report of a fit ends with the residual of every pair, in order, and the pairs
/// are numbered from one.
pub proof fn law_reporting_a_fit(f: &Fit, r: Vec<Reply>, i: int)
    requires
        call_ensures(helmert_report, (f,), r),
        0 <= i < f.residuals@.len(),
    ensures
        r@.len() == 8 + f.residuals@.len(),
        r@[8 + i]@ == Said::Output(
            "            pair "@ + crate::adjust::aligned(decimal((i + 1) as nat), 2) + ": "@
                + f.residuals@[i]@,
        ),
{
    law_every_residual_of_a_fit_is_reported(*f, i);
    assert(replies(r@).len() == r@.len());
    assert(replies(r@)[8 + i] == r@[8 + i]@);
}

/// The report of a station by the combined method ends with the names and residuals
/// of its shots, in order, up to twelve of them.
pub proof fn law_reporting_a_station(t: &CombinedTexts, r: Vec<Reply>, i: int)
    requires
        call_ensures(combined_report, (t,), r),
        0 <= i < t.residuals@.len(),
        i < 12,
    ensures
        r@.len() == 5 + (if t.residuals@.len() <= 12 {
            t.residuals@.len()
        } else {
            12
        }),
        r@[5 + i]@ == Said::Output(
            "            "@ + crate::adjust::aligned(t.residuals@[i].0@, 6) + ": "@ + t.residuals@[i].1@,
        ),
{
    law_residuals_of_shots_are_reported(*t, i);
    assert(replies(r@).len() == r@.len());
    assert(replies(r@)[5 + i] == r@[5 + i]@);
}

// ---------------------------------------------------------------------------
// Drawings
// ---------------------------------------------------------------------------

/// The item at a place is seen there.
proof fn lemma_item<P, S>(items: Seq<Item<P, S>>, i: int)
    requires
        0 <= i < items.len(),
    ensures
        item_views(items).len() == items.len(),
        item_views(items)[i] == items[i]@,
{
}

/// The stages of a fit are nine items for every pair, each with that pair's own
/// places, and seven items more.
pub proof fn law_drawing_a_fit<P: Copy, S: Copy>(
    all: &Vec<Stages<P>>,
    source: P,
    target: P,
    fit: &FitTexts,
    at: &LabelPlaces<P>,
    height: S,
    items: Vec<Item<P, S>>,
    i: int,
)
    requires
        call_ensures(draw_helmert_stages::<P, S>, (all, source, target, fit, at, height), items),
        0 <= i < all@.len(),
    ensures
        items@.len() == 9 * all@.len() + 7,
        items@[9 * i]@.shape == ShapeView::<P, S>::Point(all@[i].source),
        items@[9 * i + 1]@.shape == ShapeView::<P, S>::Point(all@[i].scaled),
        items@[9 * i + 2]@.shape == ShapeView::<P, S>::Point(all@[i].rotated),
        items@[9 * i + 3]@.shape == ShapeView::<P, S>::Point(all@[i].fitted),
        items@[9 * i + 4]@.shape == ShapeView::<P, S>::Point(all@[i].target),
        items@[9 * i + 5]@.shape == ShapeView::<P, S>::Line(all@[i].source, all@[i].scaled),
        items@[9 * i + 6]@.shape == ShapeView::<P, S>::Line(all@[i].scaled, all@[i].rotated),
        items@[9 * i + 7]@.shape == ShapeView::<P, S>::Line(all@[i].rotated, all@[i].fitted),
        items@[9 * i + 8]@.shape == ShapeView::<P, S>::Line(all@[i].fitted, all@[i].target),
        items@[9 * all@.len() as int]@.shape == ShapeView::<P, S>::Point(source),
        items@[9 * all@.len() as int + 1]@.shape == ShapeView::<P, S>::Point(target),
{
    law_every_pair_is_drawn_in_stages(all@, source, target, *fit, *at, height, i);
    law_a_fit_is_labelled_step_by_step(all@, source, target, *fit, *at, height);
    let n = 9 * all@.len() as int;
    lemma_item(items@, 0);
    lemma_item(items@, n);
    lemma_item(items@, n + 1);
    assert forall|k: int| 0 <= k < 9 implies item_views(items@)[9 * i + k] == #[trigger] items@[9 * i + k]@ by {}
    assert(item_views(items@)[9 * i] == items@[9 * i]@);
}

/// A resection is drawn with every known point and the ray to it.
pub proof fn law_drawing_a_resection<P: Copy, S>(
    station: P,
    knowns: &Vec<P>,
    label: &str,
    at: P,
    height: S,
    items: Vec<Item<P, S>>,
    i: int,
)
    requires
        call_ensures(draw_resection::<P, S>, (station, knowns, label, at, height), items),
        0 <= i < knowns@.len(),
    ensures
        items@.len() == 2 * knowns@.len() + 2,
        items@[0]@.shape == ShapeView::<P, S>::Point(station),
        items@[2 * i + 1]@.shape == ShapeView::<P, S>::Point(knowns@[i]),
        items@[2 * i + 2]@.shape == ShapeView::<P, S>::Line(station, knowns@[i]),
        items@.last()@.shape == ShapeView::Text(label@, at, height),
{
    law_every_known_point_has_its_ray(station, knowns@, label@, at, height, i);
    lemma_item(items@, 0);
    lemma_item(items@, 2 * i + 1);
    lemma_item(items@, 2 * i + 2);
    lemma_item(items@, items@.len() - 1);
}

/// A resection by the combined method is drawn with the residual of each shot at the
/// ray to the point that the shot goes to.
pub proof fn law_drawing_a_combined_resection<P: Copy, S: Copy>(
    station: P,
    knowns: &Vec<P>,
    t: &CombinedTexts,
    places: &Vec<P>,
    label: &str,
    at: P,
    height: S,
    items: Vec<Item<P, S>>,
    i: int,
)
    requires
        call_ensures(
            draw_combined_resection::<P, S>,
            (station, knowns, t, places, label, at, height),
            items,
        ),
        0 <= i < knowns@.len(),
    ensures
        items@.len() == 3 * knowns@.len() + 2,
        items@[3 * i + 1]@.shape == ShapeView::<P, S>::Point(knowns@[i]),
        items@[3 * i + 2]@.shape == ShapeView::<P, S>::Line(station, knowns@[i]),
        items@[3 * i + 3]@.shape == ShapeView::Text(t.residuals@[i].1@, places@[i], height),
{
    law_every_ray_has_its_residual(station, knowns@, t.residuals@, places@, label@, at, height, i);
    lemma_item(items@, 3 * i + 1);
    lemma_item(items@, 3 * i + 2);
    lemma_item(items@, 3 * i + 3);
}

/// A volume is drawn with every edge of both surfaces and every segment of the line
/// between cut and fill.
pub proof fn law_drawing_a_volume<P: Copy, S>(
    top: &Tin<P>,
    bottom: &Tin<P>,
    line: &Vec<(P, P)>,
    label: &str,
    at: P,
    height: S,
    items: Vec<Item<P, S>>,
    i: int,
)
    requires
        call_ensures(draw_volume::<P, S>, (top, bottom, line, label, at, height), items),
    ensures
        items@.len() == top.edges@.len() + bottom.edges@.len() + line@.len() + 1,
        0 <= i < top.edges@.len() ==> items@[i]@.shape == ShapeView::<P, S>::Line(
            top.nodes@[top.edges@[i].0 as int],
            top.nodes@[top.edges@[i].1 as int],
        ) && items@[i]@.layer == "LS-TIN-TOP"@,
        0 <= i < bottom.edges@.len() ==> items@[top.edges@.len() + i]@.shape == ShapeView::<P, S>::Line(
            bottom.nodes@[bottom.edges@[i].0 as int],
            bottom.nodes@[bottom.edges@[i].1 as int],
        ) && items@[top.edges@.len() + i]@.layer == "LS-TIN-BOTTOM"@,
        0 <= i < line@.len() ==> items@[top.edges@.len() + bottom.edges@.len() + i]@.shape
            == ShapeView::<P, S>::Line(line@[i].0, line@[i].1),
        items@.last()@.shape == ShapeView::Text(label@, at, height),
{
    law_a_volume_shows_both_surfaces(*top, *bottom, line@, label@, at, height, i);
    lemma_item(items@, items@.len() - 1);
    if 0 <= i < top.edges@.len() {
        lemma_item(items@, i);
    }
    if 0 <= i < bottom.edges@.len() {
        lemma_item(items@, top.edges@.len() + i);
    }
    if 0 <= i < line@.len() {
        lemma_item(items@, top.edges@.len() + bottom.edges@.len() + i);
    }
}

/// A volume over a datum is drawn with every edge of the surface and every segment of
/// the contour.
pub proof fn law_drawing_a_datum<P: Copy, S>(
    tin: &Tin<P>,
    layer: &str,
    contour: &Vec<(P, P)>,
    label: &str,
    at: P,
    height: S,
    items: Vec<Item<P, S>>,
    i: int,
)
    requires
        call_ensures(draw_datum::<P, S>, (tin, layer, contour, label, at, height), items),
    ensures
        items@.len() == tin.edges@.len() + contour@.len() + 1,
        0 <= i < tin.edges@.len() ==> items@[i]@.shape == ShapeView::<P, S>::Line(
            tin.nodes@[tin.edges@[i].0 as int],
            tin.nodes@[tin.edges@[i].1 as int],
        ) && items@[i]@.layer == layer@,
        0 <= i < contour@.len() ==> items@[tin.edges@.len() + i]@.shape == ShapeView::<P, S>::Line(
            contour@[i].0,
            contour@[i].1,
        ),
        items@.last()@.shape == ShapeView::Text(label@, at, height),
{
    law_a_datum_shows_surface_and_contour(*tin, layer@, contour@, label@, at, height, i);
    lemma_item(items@, items@.len() - 1);
    if 0 <= i < tin.edges@.len() {
        lemma_item(items@, i);
    }
    if 0 <= i < contour@.len() {
        lemma_item(items@, tin.edges@.len() + i);
    }
}

/// A surface is drawn with every edge of it and every node of it.
pub proof fn law_drawing_a_surface<P: Copy, S>(
    tin: &Tin<P>,
    tin_layer: &str,
    point_layer: &str,
    name: &str,
    items: Vec<Item<P, S>>,
    i: int,
)
    requires
        call_ensures(draw_surface::<P, S>, (tin, tin_layer, point_layer, name), items),
    ensures
        items@.len() == tin.edges@.len() + tin.nodes@.len(),
        0 <= i < tin.edges@.len() ==> items@[i]@.shape == ShapeView::<P, S>::Line(
            tin.nodes@[tin.edges@[i].0 as int],
            tin.nodes@[tin.edges@[i].1 as int],
        ) && items@[i]@.layer == tin_layer@ && items@[i]@.tag == Some((name@, "TIN"@)),
        0 <= i < tin.nodes@.len() ==> items@[tin.edges@.len() + i]@ == plain::<P, S>(
            ShapeView::Point(tin.nodes@[i]),
            point_layer@,
        ),
{
    assert(item_views(items@).len() == items@.len());
    if 0 <= i < tin.edges@.len() {
        law_every_edge_is_drawn::<P, S>(tin.nodes@, tin.edges@, tin_layer@, name@, i);
        lemma_item(items@, i);
    }
    if 0 <= i < tin.nodes@.len() {
        law_every_point_is_drawn::<P, S>(tin.nodes@, point_layer@, i);
        lemma_item(items@, tin.edges@.len() + i);
    }
}

/// A transformation is drawn with every point before and after it, and the move of
/// its base.
pub proof fn law_drawing_a_transformation<P: Copy, S>(
    moves: &Vec<(P, P)>,
    base: P,
    to: P,
    items: Vec<Item<P, S>>,
    i: int,
)
    requires
        call_ensures(draw_rts::<P, S>, (moves, base, to), items),
        0 <= i < moves@.len(),
    ensures
        items@.len() == 2 * moves@.len() + 2,
        items@[2 * i]@ == plain::<P, S>(ShapeView::Point(moves@[i].0), "LS-RTS-SRC"@),
        items@[2 * i + 1]@ == plain::<P, S>(ShapeView::Point(moves@[i].1), "LS-RTS-DST"@),
        items@[2 * moves@.len() as int]@.shape == ShapeView::<P, S>::Line(base, to),
{
    law_every_move_is_drawn::<P, S>(moves@, i);
    assert(item_views(items@).len() == items@.len());
    lemma_item(items@, 2 * i);
    lemma_item(items@, 2 * i + 1);
    lemma_item(items@, 2 * moves@.len() as int);
}

// ---------------------------------------------------------------------------
// Requests
// ---------------------------------------------------------------------------

/// A volume is asked for between the first two words that are neither the keyword nor
/// a number, in that order; between the default surfaces only where there is no such
/// word; and not at all where there is one.
pub proof fn law_requesting_a_volume(cmd: &str, r: Result<VolumeRequest, Reply>, i: int, j: int)
    requires
        call_ensures(volume_request, (cmd,), r),
    ensures
        are_the_surfaces(arguments(cmd@), i, j) ==> (r matches Ok(q) && q.top@ == arguments(cmd@)[i]
            && q.bottom@ == arguments(cmd@)[j]),
        (forall|k: int|
            0 <= k < arguments(cmd@).len() ==> !calls_a_surface(#[trigger] arguments(cmd@)[k])) ==> (
        r matches Ok(q) && q.top@ == "top"@ && q.bottom@ == "bottom"@),
        (0 <= i < arguments(cmd@).len() && calls_a_surface(arguments(cmd@)[i]) && forall|k: int|
            0 <= k < arguments(cmd@).len() && k != i ==> !calls_a_surface(
                #[trigger] arguments(cmd@)[k],
            )) ==> r is Err,
        r matches Ok(q) ==> (q.draw <==> exists|k: int|
            0 <= k < arguments(cmd@).len() && same_but_case(#[trigger] arguments(cmd@)[k], "draw"@)),
        (0 <= i < arguments(cmd@).len() && is_positive(arguments(cmd@)[i]) && !same_but_case(
            arguments(cmd@)[i],
            "draw"@,
        ) && forall|k: int|
            i < k < arguments(cmd@).len() ==> !is_positive(#[trigger] arguments(cmd@)[k])
                || same_but_case(arguments(cmd@)[k], "draw"@)) ==> (r matches Ok(q) ==> (
        q.grid matches Some(g) && g@ == arguments(cmd@)[i])),
{
    let args = arguments(cmd@);
    if are_the_surfaces(args, i, j) {
        law_the_first_two_names_are_the_surfaces(args, i, j);
    }
    law_default_surfaces_where_none_is_named(args);
    if 0 <= i < args.len() && calls_a_surface(args[i]) && forall|k: int|
        0 <= k < args.len() && k != i ==> !calls_a_surface(#[trigger] args[k]) {
        law_one_surface_is_too_few(args, i);
    }
    law_the_last_positive_number_is_the_step(args, i);
}

/// An inverse is asked for between the four numbers behind the verb, in their order,
/// wherever the keywords stand.
pub proof fn law_requesting_an_inverse(cmd: &str, r: Result<InverseRequest, Reply>, at: Seq<int>)
    requires
        call_ensures(inverse_request, (cmd,), r),
        forall|m: int, n: int| 0 <= m < n < at.len() ==> #[trigger] at[m] < #[trigger] at[n],
        forall|m: int| 0 <= m < at.len() ==> 0 <= #[trigger] at[m] < arguments(cmd@).len(),
        forall|i: int|
            0 <= i < arguments(cmd@).len() ==> (at.contains(i) <==> !same_but_case(
                #[trigger] arguments(cmd@)[i],
                "draw"@,
            ) && !same_but_case(arguments(cmd@)[i], "anim"@)),
    ensures
        r is Ok <==> at.len() == 4 && forall|m: int|
            0 <= m < at.len() ==> is_finite(arguments(cmd@)[#[trigger] at[m]]),
        r matches Ok(q) ==> {
            &&& q.coordinates@.len() == 4
            &&& forall|m: int|
                0 <= m < 4 ==> (#[trigger] q.coordinates@[m])@ == arguments(cmd@)[at[m]]
        },
{
    law_an_inverse_takes_four_numbers(cmd@, at);
    if let Ok(q) = r {
        assert(views(q.coordinates@).len() == q.coordinates@.len());
        assert forall|m: int| 0 <= m < 4 implies (#[trigger] q.coordinates@[m])@ == arguments(cmd@)[at[m]] by {
            assert(views(q.coordinates@)[m] == q.coordinates@[m]@);
        }
    }
}

/// A datum is asked for with the first word behind the verb for the surface and the
/// second for the elevation, which must be a number.
pub proof fn law_requesting_a_datum(cmd: &str, r: Result<DatumRequest, Reply>)
    requires
        call_ensures(datum_request, (cmd,), r),
    ensures
        r is Ok <==> arguments(cmd@).len() >= 2 && double_of(arguments(cmd@)[1]) != Double::Malformed,
        r matches Ok(q) ==> q.surface@ == arguments(cmd@)[0] && q.elevation@ == arguments(cmd@)[1],
{
}

/// A transformation is asked for with four numbers, or six, the fourth above zero:
/// northing and easting of the base, rotation, scale, and northing and easting of the
/// goal. Without a goal the base stays.
pub proof fn law_requesting_a_transformation(cmd: &str, r: Result<RtsRequest, RtsRefusal>)
    requires
        call_ensures(rts_request, (cmd,), r),
    ensures
        ({
            let a = arguments(cmd@);
            &&& r is Ok <==> (a.len() == 4 || a.len() == 6) && (forall|i: int|
                0 <= i < a.len() ==> is_finite(#[trigger] a[i])) && is_positive(a[3])
            &&& r matches Ok(q) ==> {
                &&& q.base_n@ == a[0] && q.base_e@ == a[1] && q.rotation@ == a[2] && q.scale@ == a[3]
                &&& a.len() == 6 ==> q.to_n@ == a[4] && q.to_e@ == a[5]
                &&& a.len() == 4 ==> q.to_n@ == q.base_n@ && q.to_e@ == q.base_e@
            }
        }),
{
    law_a_transformation_takes_four_or_six_numbers(cmd@);
}

/// A fit is asked for with a path and, behind a space, a keyword or none.
pub proof fn law_requesting_a_fit(
    cmd: &str,
    r: Result<HelmertRequest, Reply>,
    gap: Seq<char>,
    verb: Seq<char>,
    c: char,
    s: Seq<char>,
    word: Seq<char>,
)
    requires
        call_ensures(helmert_request, (cmd,), r),
        is_gap(gap),
        is_word(verb),
        crate::text::is_space(c),
        is_word(word),
        is_trim(s),
        s.len() > 0,
        cmd@ == gap + verb + seq![c] + (s + seq![' '] + word),
    ensures
        r matches Ok(q) && {
            let w = lower_text(word);
            if w == "apply"@ {
                q.path@ == s && q.mode == HelmertMode::Apply
            } else if w == "stages"@ {
                q.path@ == s && q.mode == HelmertMode::Stages
            } else if w == "teach"@ {
                q.path@ == s && q.mode == HelmertMode::Teach
            } else if w == "anim"@ {
                q.path@ == s && q.mode == HelmertMode::Anim
            } else {
                q.path@ == s + seq![' '] + word && q.mode == HelmertMode::Report
            }
        },
{
    let rest = s + seq![' '] + word;
    lemma_trimmed_argument(gap, verb, c, s, word);
    law_a_fit_is_followed_by_its_last_word(s, ' ', word);
    lemma_own_trim(s);
    assert(rest.len() > 0);
}

/// A resection is asked for with a path and, behind a space, the keyword or not.
pub proof fn law_requesting_a_resection(
    cmd: &str,
    r: Result<ResectRequest, Reply>,
    gap: Seq<char>,
    verb: Seq<char>,
    c: char,
    s: Seq<char>,
    word: Seq<char>,
)
    requires
        call_ensures(resect_request, (cmd,), r),
        is_gap(gap),
        is_word(verb),
        crate::text::is_space(c),
        is_word(word),
        is_trim(s),
        s.len() > 0,
        cmd@ == gap + verb + seq![c] + (s + seq![' '] + word),
    ensures
        r matches Ok(q) && if lower_text(word) == "anim"@ {
            q.anim && q.path@ == s
        } else {
            !q.anim && q.path@ == s + seq![' '] + word
        },
{
    let rest = s + seq![' '] + word;
    lemma_trimmed_argument(gap, verb, c, s, word);
    law_an_animation_is_asked_for_last(s, ' ', word);
    lemma_own_trim(s);
    assert(rest.len() > 0);
}

/// The argument of a command whose words are trimmed.
proof fn lemma_trimmed_argument(
    gap: Seq<char>,
    verb: Seq<char>,
    c: char,
    s: Seq<char>,
    word: Seq<char>,
)
    requires
        is_gap(gap),
        is_word(verb),
        crate::text::is_space(c),
        is_word(word),
        is_trim(s),
        s.len() > 0,
    ensures
        crate::dispatch::argument(gap + verb + seq![c] + (s + seq![' '] + word)) == s + seq![' '] + word,
{
    let rest = s + seq![' '] + word;
    law_a_command_is_verb_and_argument(gap, verb, c, rest);
    assert(rest[0] == s[0]);
    assert(rest.last() == word.last());
    lemma_own_trim(rest);
}

/// The first word of a line calls its command, in whatever case, and white space
/// before it does not matter.
pub proof fn law_calling_a_command(
    cmd: &str,
    r: Option<Verb>,
    gap: Seq<char>,
    verb: Seq<char>,
    rest: Seq<char>,
)
    requires
        call_ensures(handle, (cmd,), r),
        is_gap(gap),
        is_word(verb),
        is_ascii_text(verb),
        cmd@ == gap + verb + seq![' '] + rest,
    ensures
        upper_text(verb) == "LS_HELLO"@ ==> r == Some(Verb::Hello),
        upper_text(verb) == "LS_AUTOLABEL"@ ==> r == Some(Verb::AutoLabel),
        upper_text(verb) == "LS_LANDXML"@ ==> r == Some(Verb::LandXml),
        upper_text(verb) == "LANDXMLIMPORT"@ ==> r == Some(Verb::LandXml),
        upper_text(verb) == "LS_PNEZD"@ ==> r == Some(Verb::Pnezd),
        upper_text(verb) == "LS_VOLUME"@ ==> r == Some(Verb::Volume),
        upper_text(verb) == "LS_SURFACE"@ ==> r == Some(Verb::Surface),
        upper_text(verb) == "LS_DATUM"@ ==> r == Some(Verb::Datum),
        upper_text(verb) == "LS_RTS"@ ==> r == Some(Verb::Rts),
        upper_text(verb) == "LS_HELMERT"@ ==> r == Some(Verb::Helmert),
        upper_text(verb) == "LS_RESECT"@ ==> r == Some(Verb::Resect),
        upper_text(verb) == "LS_INVERSE"@ ==> r == Some(Verb::Inverse),
        upper_text(verb) == "LS_IMPORTPLAN"@ ==> r == Some(Verb::ImportPlan),
        upper_text(verb) == "LS_LIST"@ ==> r == Some(Verb::List),
        r is Some ==> upper_text(verb) == "LS_HELLO"@ || upper_text(verb) == "LS_AUTOLABEL"@
            || upper_text(verb) == "LS_LANDXML"@ || upper_text(verb) == "LANDXMLIMPORT"@
            || upper_text(verb) == "LS_PNEZD"@ || upper_text(verb) == "LS_VOLUME"@ || upper_text(verb)
            == "LS_SURFACE"@ || upper_text(verb) == "LS_DATUM"@ || upper_text(verb) == "LS_RTS"@
            || upper_text(verb) == "LS_HELMERT"@ || upper_text(verb) == "LS_RESECT"@ || upper_text(verb)
            == "LS_INVERSE"@ || upper_text(verb) == "LS_IMPORTPLAN"@ || upper_text(verb) == "LS_LIST"@,
{
    law_a_command_is_verb_and_argument(gap, verb, ' ', rest);
    reveal_strlit("LS_HELLO");
    reveal_strlit("LS_PNEZD");
    reveal_strlit("LS_AUTOLABEL");
    reveal_strlit("LS_IMPORTPLAN");
    reveal_strlit("LS_INVERSE");
    reveal_strlit("LS_VOLUME");
    reveal_strlit("LS_SURFACE");
    reveal_strlit("LS_LANDXML");
    reveal_strlit("LANDXMLIMPORT");
    reveal_strlit("LS_DATUM");
    reveal_strlit("LS_RTS");
    reveal_strlit("LS_HELMERT");
    reveal_strlit("LS_RESECT");
    reveal_strlit("LS_LIST");
    assert("LS_HELLO"@.len() == 8 && "LS_HELLO"@[3] == 'H');
    assert("LS_PNEZD"@.len() == 8 && "LS_PNEZD"@[3] == 'P');
    assert("LS_AUTOLABEL"@.len() == 12);
    assert("LS_IMPORTPLAN"@.len() == 13 && "LS_IMPORTPLAN"@[2] == '_');
    assert("LANDXMLIMPORT"@.len() == 13 && "LANDXMLIMPORT"@[2] == 'N');
    assert("LS_INVERSE"@.len() == 10 && "LS_INVERSE"@[3] == 'I');
    assert("LS_SURFACE"@.len() == 10 && "LS_SURFACE"@[3] == 'S');
    assert("LS_LANDXML"@.len() == 10 && "LS_LANDXML"@[3] == 'L');
    assert("LS_HELMERT"@.len() == 10 && "LS_HELMERT"@[3] == 'H');
    assert("LS_VOLUME"@.len() == 9 && "LS_VOLUME"@[3] == 'V');
    assert("LS_RESECT"@.len() == 9 && "LS_RESECT"@[3] == 'R');
    assert("LS_DATUM"@.len() == 8 && "LS_DATUM"@[3] == 'D');
    assert("LS_RTS"@.len() == 6);
    assert("LS_LIST"@.len() == 7);
}

// ---------------------------------------------------------------------------
// Surfaces
// ---------------------------------------------------------------------------

/// A surface that is made a mesh comes back from it as it was.
pub proof fn law_a_surface_through_a_mesh(s: &Surface<Vector3>, m: &Mesh, t: Surface<Vector3>)
    requires
        call_ensures(mesh_from_surface, (s,), *m),
        call_ensures(surface_from_mesh, (m,), t),
        forall|i: int|
            0 <= i < s.triangles@.len() ==> {
                let t = #[trigger] s.triangles@[i];
                t.0 < s.nodes@.len() && t.1 < s.nodes@.len() && t.2 < s.nodes@.len()
            },
    ensures
        t.nodes@ == s.nodes@,
        t.triangles@ == s.triangles@,
{
    law_meshes_keep_surfaces(s.triangles@, s.nodes@.len());
}

/// A surface of the session comes before any that is drawn, and one that is drawn as a
/// mesh of its name is found with its nodes and triangles, whatever else the drawing
/// holds.
pub proof fn law_resolving_a_surface(
    stored: Option<Surface<Vector3>>,
    doc: &CadDocument,
    token: &str,
    r: Step<Vector3>,
    k: int,
    nodes: Seq<Vector3>,
    triangles: Seq<(usize, usize, usize)>,
    name: Seq<char>,
)
    requires
        call_ensures(resolve_named_surface, (stored, doc, token), r),
    ensures
        stored matches Some(s) ==> r == Step::Done(s),
        ({
            let e = document_entities(*doc);
            &&& stored is None
            &&& nodes.len() > 0
            &&& triangles.len() > 0
            &&& forall|i: int|
                0 <= i < triangles.len() ==> {
                    let t = #[trigger] triangles[i];
                    t.0 < nodes.len() && t.1 < nodes.len() && t.2 < nodes.len()
                }
            &&& 0 <= k < e.len()
            &&& entity_mesh(e[k]) == Some((nodes, faces_of(triangles)))
            &&& entity_records(entity_data(e[k])) == seq![pair_record(XDATA_SURFACE@, name, "TIN"@)]
            &&& same_but_case(name, token@)
            &&& forall|j: int| 0 <= j < k ==> !searched(#[trigger] e[j]).is_whole(token@)
        }) ==> (r matches Step::Keep(n, s) && n@ == name && s.nodes@ == nodes && s.triangles@ == triangles),
{
    let e = document_entities(*doc);
    if stored is None && nodes.len() > 0 && triangles.len() > 0 && (forall|i: int|
        0 <= i < triangles.len() ==> {
            let t = #[trigger] triangles[i];
            t.0 < nodes.len() && t.1 < nodes.len() && t.2 < nodes.len()
        }) && 0 <= k < e.len() && entity_mesh(e[k]) == Some((nodes, faces_of(triangles)))
        && entity_records(entity_data(e[k])) == seq![pair_record(XDATA_SURFACE@, name, "TIN"@)]
        && same_but_case(name, token@) && (forall|j: int|
        0 <= j < k ==> !searched(#[trigger] e[j]).is_whole(token@)) {
        law_an_imported_surface_is_found(e, k, nodes, triangles, name, token@);
    }
}

/// A surface that was triangulated is kept if and only if it has a triangle.
pub proof fn law_keeping_what_was_triangulated<P>(name: String, s: Surface<P>, r: Step<P>)
    requires
        call_ensures(triangulated::<P>, (name, s), r),
    ensures
        s.triangles@.len() > 0 ==> r == Step::Keep(name, s),
        s.triangles@.len() == 0 ==> r is Read,
{
}

/// A point file gives a surface a node for each of its points, if there are three or
/// more: easting, northing and elevation.
pub proof fn law_reading_nodes(
    path: &str,
    text: &str,
    out: ParseOutcome,
    r: Result<Vec<Vector3>, String>,
    i: int,
)
    requires
        call_ensures(parse, (text,), out),
        call_ensures(read_nodes, (path, text), r),
    ensures
        r is Ok <==> out.points@.len() >= 3,
        r matches Ok(nodes) ==> {
            &&& nodes@.len() == out.points@.len()
            &&& 0 <= i < nodes@.len() ==> nodes@[i] == vector_of(
                out.points@[i].easting@,
                out.points@[i].northing@,
                out.points@[i].elevation@,
            )
        },
{
    assert(records_of(out.points@).len() == out.points@.len());
    if r is Ok && 0 <= i < out.points@.len() {
        assert(records_of(out.points@)[i] == out.points@[i]@);
    }
}

/// A surface is read from a file as LandXML where it is that, and else from its
/// points; a LandXML file without a surface is refused though it may hold points.
pub proof fn law_reading_a_surface(
    path: &str,
    text: &str,
    landxml: Option<Option<Surface<Vector3>>>,
    r: Result<SurfaceRead<Vector3>, String>,
    nodes: Result<Vec<Vector3>, String>,
)
    requires
        call_ensures(read_surface_quiet, (path, text, landxml), r),
        call_ensures(read_nodes, (path, text), nodes),
    ensures
        landxml matches Some(Some(s)) ==> (r matches Ok(SurfaceRead::Surface(t)) && t == s),
        landxml matches Some(None) ==> r is Err,
        landxml is None ==> (r is Ok <==> nodes is Ok),
        landxml is None ==> (r matches Ok(found) ==> (found matches SurfaceRead::Nodes(v) && v@
            == nodes->Ok_0@)),
{
}

/// What a point is tagged with is read back from an entity that carries the record.
pub proof fn law_tagging_a_point(
    number: &str,
    description: &str,
    record: ExtendedDataRecord,
    x: &ExtendedData,
    r: Option<(String, String)>,
)
    requires
        call_ensures(point_record, (number, description), record),
        entity_records(*x) == seq![(record_application(record), record_values(record))],
        call_ensures(point_tag, (x,), r),
    ensures
        r matches Some((n, d)) && n@ == number@ && d@ == description@,
{
    let none: Seq<(Seq<char>, Seq<Option<Seq<char>>>)> = Seq::empty();
    law_point_tags_read_back(none, number@, description@);
    assert(none.push(pair_record(XDATA_POINT@, number@, description@)) =~= entity_records(*x));
}

/// What an entity of a surface is tagged with is read back from it.
pub proof fn law_tagging_for_a_surface(
    name: &str,
    kind: &str,
    record: ExtendedDataRecord,
    x: &ExtendedData,
    r: Option<(String, String)>,
)
    requires
        call_ensures(surface_record, (name, kind), record),
        entity_records(*x) == seq![(record_application(record), record_values(record))],
        call_ensures(surface_tag, (x,), r),
    ensures
        r matches Some((n, k)) && n@ == name@ && k@ == kind@,
{
    let none: Seq<(Seq<char>, Seq<Option<Seq<char>>>)> = Seq::empty();
    law_surface_tags_read_back(none, name@, kind@);
    assert(none.push(pair_record(XDATA_SURFACE@, name@, kind@)) =~= entity_records(*x));
}

} // verus!
