//! What the commands of a session do, call by call.

use acadrust::xdata::ExtendedDataRecord;
use acadrust::{CadDocument, EntityType, Vector3};
use vstd::prelude::*;

use crate::adjust::check_drawing;
use crate::command_laws::is_word;
use crate::console::{replies, Reply, Said};
use crate::dispatch::{auto_label_toggle, import_request, PnezdImport};
use crate::drawing::{draw_inverse, entity_of, item_views, record_of, Item, ShapeView};
use crate::drawing_laws::{law_an_inverse_shows_bearing_and_length, law_every_edge_is_drawn};
use crate::entities::{
    document_entities, entity_data, entity_layer, entity_line, entity_mesh, entity_point, faces_of,
    vector_of, vector_text,
};
use crate::import::{
    all_listed, draws_point, import_pnezd, row, visible_point_mode, Imported,
};
use crate::layers::{
    file_name_of, is_ascii_text, is_plain_path, last_part, law_stems, layer_stem, settled,
    surface_name,
};
use crate::plan::{place, plan_source};
use crate::pnezd::{
    parse_with, penzd_format, pnezd_format, records_of, ParseOutcome, PnezdPoint,
};
use crate::records::{
    entity_records, point_tag_of, record_application, record_values, XDATA_SURFACE,
};
use crate::reports::{build_surface, import_landxml, Built, MeshDrawing, Named, SurfaceRead};
use crate::request_laws::{law_a_single_word_is_a_path, law_labels_are_switched};
use crate::requests::{mentions, path_request};
use crate::results::{
    helmert_layers, layer_views, read_surface, rts_layers, surface_layers, Layer,
};
use crate::surface_laws::{
    law_an_imported_surface_is_found, law_known_names, law_known_names_are_drawn_or_kept,
};
use crate::surfaces::{
    find_surface_in_document, known_surface_names, read_nodes, resolve_named_surface, searched,
    tags_of, Found, Step, Surface,
};
use crate::text::{
    exactly, is_ascii_space, is_space, lemma_past_last_is, lower_text, same_but_case, upper_text,
    views, words,
};
use crate::text_laws::{
    is_gap, is_trim, law_a_command_is_verb_and_argument, law_first_word,
    lemma_own_trim,
};

verus! {

/// An import draws every point of its file, read in the order of columns that was
/// asked for, where its coordinates say, with its number as its label unless labels
/// are switched off; a preview and a file without points draw nothing. The count of
/// the session grows by the points that are drawn.
pub proof fn law_importing_points(
    q: &PnezdImport,
    text: &str,
    suppressed: bool,
    imported: &mut usize,
    r: Imported,
    out: ParseOutcome,
    i: int,
)
    requires
        call_ensures(import_pnezd, (q, text, suppressed, imported), r),
        call_ensures(parse_with, (text, &q.format), out),
    ensures
        r is Drawn <==> out.points@.len() > 0 && !q.preview,
        *final(imported) == *old(imported) + (if r is Drawn {
            out.points@.len()
        } else {
            0
        }),
        r matches Imported::Drawn(d, _) ==> d@.len() == out.points@.len() && (0 <= i < d@.len() ==> {
            let p = out.points@[i];
            &&& entity_point(d@[i].entity) == Some(vector_of(p.easting@, p.northing@, p.elevation@))
            &&& record_values(d@[i].record) == seq![Some(p.number@), Some(p.description@)]
            &&& suppressed ==> d@[i].label is None && d@[i].detail is None
            &&& !suppressed ==> (d@[i].label matches Some(s) && s@ == p.number@)
            &&& !q.detail ==> d@[i].detail is None
        }),
        r matches Imported::Drawn(_, said) ==> said@ is Output,
        r matches Imported::Said(s) ==> out.points@.len() == 0 ==> s@.len() == 1 && s@[0]@ is Error,
{
    let points = records_of(out.points@);
    assert(points.len() == out.points@.len());
    if let Imported::Drawn(d, _) = r {
        if 0 <= i < d@.len() {
            assert(points[i] == out.points@[i]@);
            assert(draws_point(d@[i], points[i], !suppressed, q.detail));
        }
    }
    if let Imported::Said(s) = r {
        assert(replies(s@).len() == s@.len());
        if s@.len() > 0 {
            assert(replies(s@)[0] == s@[0]@);
        }
    }
}

/// A request for an import of one word is for the file of that name, in the usual
/// order of columns; one without a word is refused.
pub proof fn law_asking_for_an_import(
    cmd: &str,
    r: Result<PnezdImport, Reply>,
    gap: Seq<char>,
    verb: Seq<char>,
    word: Seq<char>,
)
    requires
        call_ensures(import_request, (cmd,), r),
        is_gap(gap),
        is_word(verb),
        is_word(word),
    ensures
        cmd@ == gap + verb ==> r is Err,
        cmd@ == gap + verb + seq![' '] + word ==> (r matches Ok(q) && q.path@ == word && q.format
            == pnezd_format() && !q.preview && !q.detail),
{
    law_a_command_is_verb_and_argument(gap, verb, ' ', word);
    law_a_single_word_is_a_path(word);
    lemma_own_trim(word);
}

/// A request for a file is for all that stands behind the verb, with the white space
/// in it; one with nothing behind the verb is refused with the usage.
pub proof fn law_asking_for_a_file(
    cmd: &str,
    usage: &str,
    r: Result<String, Reply>,
    gap: Seq<char>,
    verb: Seq<char>,
    c: char,
    path: Seq<char>,
)
    requires
        call_ensures(path_request, (cmd, usage), r),
        is_gap(gap),
        is_word(verb),
        is_space(c),
        is_trim(path),
    ensures
        cmd@ == gap + verb ==> (r matches Err(reply) && reply@ == Said::Info(usage@)),
        cmd@ == gap + verb + seq![c] + path && path.len() > 0 ==> (r matches Ok(p) && p@ == path),
{
    law_a_command_is_verb_and_argument(gap, verb, c, path);
    lemma_own_trim(path);
}

/// Labels are switched on by `on`, off by `off`, in whatever case, and by nothing
/// else; what is answered tells how they stand, unless it is how to switch them.
pub proof fn law_switching_labels(
    cmd: &str,
    suppressed: &mut bool,
    reply: Reply,
    gap: Seq<char>,
    verb: Seq<char>,
    word: Seq<char>,
)
    requires
        call_ensures(auto_label_toggle, (cmd, suppressed), reply),
        is_gap(gap),
        is_word(verb),
        is_trim(word),
        cmd@ == gap + verb + seq![' '] + word,
    ensures
        lower_text(word) == "on"@ ==> !*final(suppressed),
        lower_text(word) == "off"@ ==> *final(suppressed),
        lower_text(word) != "on"@ && lower_text(word) != "off"@ ==> *final(suppressed) == *old(suppressed),
        reply@ is Output <==> word.len() == 0 || lower_text(word) == "on"@ || lower_text(word) == "off"@,
        reply@ is Output ==> *final(suppressed) == (reply@ == Said::Output(
            "LS_AUTOLABEL: point labels OFF on import."@,
        )),
{
    law_a_command_is_verb_and_argument(gap, verb, ' ', word);
    lemma_own_trim(word);
    law_labels_are_switched(word, *old(suppressed));
    reveal_strlit("LS_AUTOLABEL: point labels OFF on import.");
    reveal_strlit("LS_AUTOLABEL: point labels ON on import.");
    assert("LS_AUTOLABEL: point labels OFF on import."@.len()
        != "LS_AUTOLABEL: point labels ON on import."@.len());
    if word.len() == 0 {
        assert(upper_text(word) =~= Seq::empty());
        reveal_strlit("");
        assert(upper_text(word) =~= ""@);
        assert(lower_text(word).len() == 0);
        reveal_strlit("on");
        reveal_strlit("off");
    }
}

/// Surfaces of a LandXML file are drawn as meshes, every one of them, each with its
/// own nodes and triangles, on its own layer and tagged with its name. What is no
/// LandXML or holds no surface is refused.
pub proof fn law_importing_surfaces(
    path: &str,
    recognized: bool,
    list: &Vec<Named>,
    r: Result<(Vec<MeshDrawing>, Reply), Reply>,
    i: int,
)
    requires
        call_ensures(import_landxml, (path, recognized, list), r),
    ensures
        r is Ok <==> recognized && list@.len() > 0,
        r matches Ok((drawn, _)) ==> drawn@.len() == list@.len() && (0 <= i < drawn@.len() ==> {
            let n = list@[i];
            &&& entity_mesh(drawn@[i].entity) == Some((n.surface.nodes@, faces_of(n.surface.triangles@)))
            &&& entity_layer(drawn@[i].entity) == "LS-TIN-"@ + n.name@
            &&& record_application(drawn@[i].record) == XDATA_SURFACE@
            &&& record_values(drawn@[i].record) == seq![Some(n.name@), Some("TIN"@)]
        }),
{
}

/// A surface that was imported into a drawing is found there under its name, in
/// whatever case, with the nodes and the triangles that it had.
pub proof fn law_importing_and_finding_a_surface(
    path: &str,
    list: &Vec<Named>,
    drawn: Vec<MeshDrawing>,
    said: Reply,
    i: int,
    doc: &CadDocument,
    k: int,
    token: &str,
    r: Found<Vector3>,
)
    requires
        call_ensures(import_landxml, (path, true, list), Ok((drawn, said))),
        0 <= i < list@.len(),
        list@[i].surface.nodes@.len() > 0,
        list@[i].surface.triangles@.len() > 0,
        forall|j: int|
            0 <= j < list@[i].surface.triangles@.len() ==> {
                let t = #[trigger] list@[i].surface.triangles@[j];
                let n = list@[i].surface.nodes@.len();
                t.0 < n && t.1 < n && t.2 < n
            },
        0 <= k < document_entities(*doc).len(),
        entity_mesh(document_entities(*doc)[k]) == entity_mesh(drawn@[i].entity),
        entity_records(entity_data(document_entities(*doc)[k])) == seq![
            (record_application(drawn@[i].record), record_values(drawn@[i].record)),
        ],
        same_but_case(list@[i].name@, token@),
        forall|j: int|
            0 <= j < k ==> !searched(#[trigger] document_entities(*doc)[j]).is_whole(token@),
        call_ensures(find_surface_in_document, (doc, token), r),
    ensures
        r matches Found::Mesh(name, s) && name@ == list@[i].name@ && s.nodes@
            == list@[i].surface.nodes@ && s.triangles@ == list@[i].surface.triangles@,
{
    let n = list@[i];
    law_an_imported_surface_is_found(
        document_entities(*doc),
        k,
        n.surface.nodes@,
        n.surface.triangles@,
        n.name@,
        token@,
    );
}

/// A surface that is built is drawn by all of its edges, on a layer of its own, tagged
/// with its name.
pub proof fn law_building_a_surface<P: Copy, S>(
    path: &str,
    surface: &Surface<P>,
    edges: &Vec<(usize, usize)>,
    area: &str,
    r: Built<P, S>,
    i: int,
)
    requires
        call_ensures(build_surface::<P, S>, (path, surface, edges, area), r),
        0 <= i < edges@.len(),
    ensures
        r.items@.len() == edges@.len(),
        r.items@[i]@.shape == ShapeView::<P, S>::Line(
            surface.nodes@[edges@[i].0 as int],
            surface.nodes@[edges@[i].1 as int],
        ),
        r.items@[i]@.layer == "LS-TIN-"@ + r.name@,
        r.items@[i]@.tag == Some((r.name@, "TIN"@)),
{
    law_every_edge_is_drawn::<P, S>(surface.nodes@, edges@, "LS-TIN-"@ + r.name@, r.name@, i);
    assert(item_views(r.items@).len() == r.items@.len());
    assert(item_views(r.items@)[i] == r.items@[i]@);
}

/// A surface is named after the file that it comes from: after what stands in the
/// file's name before the last dot, in capitals, whatever directory the file is in.
pub proof fn law_naming_after_a_file(
    path: &str,
    r: String,
    dir: Seq<char>,
    name: Seq<char>,
    ext: Seq<char>,
)
    requires
        call_ensures(layer_stem, (path,), r),
        path@ == dir + seq!['/'] + (name + seq!['.'] + ext),
        is_plain_path(path@),
        name.len() > 0,
        ext.len() > 0,
        !name.contains('/'),
        !ext.contains('/'),
        !ext.contains('.'),
        is_ascii_text(name),
    ensures
        r@ == upper_text(name),
{
    law_stems(dir, name, ext);
}

/// The known surfaces are those of the session, which come first, and those that the
/// drawing is tagged with; none of the latter is named twice, in whatever case.
pub proof fn law_knowing_surfaces(session: &Vec<String>, doc: &CadDocument, r: Vec<String>, i: int)
    requires
        call_ensures(known_surface_names, (session, doc), r),
    ensures
        session@.len() <= r@.len(),
        0 <= i < session@.len() ==> r@[i]@ == session@[i]@,
        0 <= i < document_entities(*doc).len() ==> {
            let t = tags_of(document_entities(*doc))[i];
            t matches Some((name, kind)) ==> kind == "TIN"@ ==> exists|k: int|
                0 <= k < r@.len() && same_but_case((#[trigger] r@[k])@, name)
        },
        session@.len() <= i < r@.len() ==> exists|k: int|
            0 <= k < document_entities(*doc).len() && #[trigger] tags_of(document_entities(*doc))[k]
                == Some((r@[i]@, "TIN"@)),
        forall|j: int|
            0 <= j < i < r@.len() && session@.len() <= i ==> !same_but_case((#[trigger] r@[j])@, r@[i]@),
{
    let tags = tags_of(document_entities(*doc));
    let before = views(session@);
    let known = views(r@);
    law_known_names(before, tags);
    assert(known.len() == r@.len());
    assert forall|k: int| 0 <= k < r@.len() implies known[k] == (#[trigger] r@[k])@ by {}
    assert(before.len() == session@.len());
    if 0 <= i < session@.len() {
        assert(known.take(before.len() as int)[i] == before[i]);
    }
    if 0 <= i < document_entities(*doc).len() {
        if let Some((name, kind)) = tags[i] {
            if kind == "TIN"@ {
                assert(mentions(known, name));
                let k = choose|k: int| 0 <= k < known.len() && same_but_case(#[trigger] known[k], name);
                assert(same_but_case(r@[k]@, name));
            }
        }
    }
    if session@.len() <= i < r@.len() {
        assert(known.contains(known[i]));
        law_known_names_are_drawn_or_kept(before, tags, known[i]);
        if before.contains(known[i]) {
            let j = choose|j: int| 0 <= j < before.len() && before[j] == known[i];
            assert(known.take(before.len() as int)[j] == before[j]);
            assert(same_but_case(known[j], known[i]));
        }
        assert forall|j: int| 0 <= j < i implies !same_but_case((#[trigger] r@[j])@, r@[i]@) by {
            assert(!same_but_case(known[j], known[i]));
        }
    }
}

/// A file gives the program the surface that it gives a session.
pub proof fn law_reading_a_surface_either_way(
    path: &str,
    text: &str,
    landxml: Option<Option<Surface<Vector3>>>,
    r: Result<SurfaceRead<Vector3>, String>,
    nodes: Result<Vec<Vector3>, String>,
)
    requires
        call_ensures(read_surface, (path, text, landxml), r),
        call_ensures(read_nodes, (path, text), nodes),
    ensures
        landxml matches Some(Some(s)) ==> (r matches Ok(SurfaceRead::Surface(t)) && t == s),
        landxml matches Some(None) ==> r is Err,
        landxml is None ==> (r is Ok <==> nodes is Ok),
        landxml is None ==> (r matches Ok(found) ==> (found matches SurfaceRead::Nodes(v) && v@
            == nodes->Ok_0@)),
        landxml is None ==> (r matches Err(why) ==> why@ == nodes->Err_0@),
{
}

/// An inverse is drawn by the line from its start to its end, with its bearing and its
/// length as texts where they are told to stand.
pub proof fn law_drawing_an_inverse<P: Copy, S: Copy>(
    from: P,
    to: P,
    bearing: (String, P),
    distance: (String, P),
    size: S,
    items: Vec<Item<P, S>>,
)
    requires
        call_ensures(draw_inverse::<P, S>, (from, to, bearing, distance, size), items),
    ensures
        items@.len() == 3,
        items@[0]@.shape == ShapeView::<P, S>::Line(from, to),
        items@[1]@.shape == ShapeView::Text(bearing.0@, bearing.1, size),
        items@[2]@.shape == ShapeView::Text(distance.0@, distance.1, size),
{
    law_an_inverse_shows_bearing_and_length(
        from,
        to,
        (bearing.0@, bearing.1),
        (distance.0@, distance.1),
        size,
    );
    assert(item_views(items@).len() == items@.len());
    assert(item_views(items@)[0] == items@[0]@);
    assert(item_views(items@)[1] == items@[1]@);
    assert(item_views(items@)[2] == items@[2]@);
}

/// An item of a drawing becomes an entity of its shape on its layer, unless it is a
/// text, and its tag becomes a record.
pub proof fn law_making_an_entity<S>(
    item: &Item<Vector3, S>,
    e: Option<EntityType>,
    record: Option<ExtendedDataRecord>,
)
    requires
        call_ensures(entity_of::<S>, (item,), e),
        call_ensures(record_of::<Vector3, S>, (item,), record),
    ensures
        e is None ==> item@.shape is Text,
        e matches Some(x) ==> entity_layer(x) == item.layer@ && match item@.shape {
            ShapeView::Point(p) => entity_point(x) == Some(p),
            ShapeView::Line(a, b) => entity_line(x) == Some((a, b)),
            ShapeView::Text(_, _, _) => false,
        },
        record is Some <==> item.tag is Some,
        item.tag matches Some((name, kind)) ==> record_application(record->0) == XDATA_SURFACE@
            && record_values(record->0) == seq![Some(name@), Some(kind@)],
{
}

/// What is placed from a plan is the entity that it was, on its layer, with the name
/// of the plan.
pub proof fn law_placing_an_element(
    e: EntityType,
    layer: &str,
    source: &str,
    r: (EntityType, ExtendedDataRecord),
)
    requires
        call_ensures(place, (e, layer, source), r),
    ensures
        entity_layer(r.0) == layer@,
        entity_point(r.0) == entity_point(e),
        entity_line(r.0) == entity_line(e),
        entity_mesh(r.0) == entity_mesh(e),
        record_values(r.1) == seq![Some(source@)],
{
}

/// Points are made visible where the drawing shows them as dots, and are left as they
/// are shown otherwise.
pub proof fn law_showing_points(mode: i16, r: i16, again: i16)
    requires
        call_ensures(visible_point_mode, (mode,), r),
        call_ensures(visible_point_mode, (r,), again),
    ensures
        r != 0,
        mode != 0 ==> r == mode,
        again == r,
{
}

/// The code of a point is the first word of its description, and none where there is
/// no word.
pub proof fn law_reading_a_code(p: &PnezdPoint, r: &str)
    requires
        call_ensures(PnezdPoint::code, (p,), r),
    ensures
        words(p.description@).len() == 0 ==> r@.len() == 0,
        words(p.description@).len() > 0 ==> r@ == words(p.description@)[0],
{
    law_first_word(p.description@);
}

/// The two orders of columns differ in that easting and northing are exchanged, and in
/// nothing else.
pub proof fn law_two_orders_of_columns()
    ensures
        penzd_format().northing == pnezd_format().easting,
        penzd_format().easting == pnezd_format().northing,
        pnezd_format().northing < pnezd_format().easting,
        penzd_format().number == pnezd_format().number,
        penzd_format().elevation == pnezd_format().elevation,
        penzd_format().description == pnezd_format().description,
        penzd_format().delimiter == pnezd_format().delimiter,
{
}

/// The layers of a fit that was applied are those of the fit and then those of the
/// points before and after a transformation, with the same colours; those of a fit
/// alone are the former.
pub proof fn law_layers_of_an_applied_fit(
    fit: Vec<Layer>,
    applied: Vec<Layer>,
    moved: Vec<Layer>,
)
    requires
        call_ensures(helmert_layers, (false,), fit),
        call_ensures(helmert_layers, (true,), applied),
        call_ensures(rts_layers, (), moved),
    ensures
        layer_views(applied@) == layer_views(fit@) + layer_views(moved@).take(2),
        fit@.len() == 10,
{
    assert(layer_views(moved@).take(2) =~= seq![("LS-RTS-SRC"@, 8u8), ("LS-RTS-DST"@, 3u8)]);
    assert(layer_views(fit@).len() == fit@.len());
}

/// The layers of a surface carry its name.
pub proof fn law_layers_of_a_surface(name: &str, r: Vec<Layer>)
    requires
        call_ensures(surface_layers, (name,), r),
    ensures
        r@.len() == 2,
        r@[0].name@ == "LS-TIN-"@ + name@,
        r@[1].name@ == "LS-POINTS-"@ + name@,
{
    assert(layer_views(r@).len() == r@.len());
    assert(layer_views(r@)[0] == (r@[0].name@, r@[0].colour));
    assert(layer_views(r@)[1] == (r@[1].name@, r@[1].colour));
}

/// White space: of the ASCII characters the space and those from tab to carriage
/// return, and no letter, digit or mark.
pub proof fn law_white_space(c: char)
    ensures
        c as u32 <= 0x7f ==> (is_space(c) <==> c == ' ' || 0x9 <= c as u32 <= 0xd),
        is_ascii_space(c) ==> is_space(c) && c as u32 <= 0x7f,
        is_space(c) && c as u32 <= 0x7f && c as u32 != 0xb ==> is_ascii_space(c),
        is_space(c) && c as u32 > 0x7f <==> c as u32 == 0x85 || c as u32 == 0xa0 || c as u32 == 0x1680
            || 0x2000 <= c as u32 <= 0x200a || c as u32 == 0x2028 || c as u32 == 0x2029 || c as u32
            == 0x202f || c as u32 == 0x205f || c as u32 == 0x3000,
{
}

/// A surface that the session does not hold is the one that is found in the drawing:
/// a mesh is kept, edges are triangulated, and with nothing the name is a path.
pub proof fn law_searching_a_drawing(
    doc: &CadDocument,
    token: &str,
    found: Found<Vector3>,
    r: Step<Vector3>,
)
    requires
        call_ensures(find_surface_in_document, (doc, token), found),
        call_ensures(resolve_named_surface, (None, doc, token), r),
    ensures
        match found {
            Found::Mesh(name, s) => r matches Step::Keep(n, t) && n@ == name@ && t.nodes@ == s.nodes@
                && t.triangles@ == s.triangles@,
            Found::Edges(name, nodes) => r matches Step::Triangulate(n, v) && n@ == name@ && v@
                == nodes@,
            Found::Nothing => r is Read,
        },
{
}

/// What a list shows of some entities is what it shows of each of them, in order: of
/// an entity with a point's record the number and the description from the record,
/// with the place of the point, or with zeros where the entity is no point, and of any
/// other entity nothing.
pub proof fn law_listed_one_by_one(a: Seq<EntityType>, e: EntityType, b: Seq<EntityType>)
    ensures
        all_listed(a + b) == all_listed(a) + all_listed(b),
        all_listed(seq![e]) == (match point_tag_of(entity_records(entity_data(e))) {
            Some((number, description)) => seq![
                Said::Output(
                    row(
                        number,
                        match entity_point(e) {
                            Some(v) => vector_text(v),
                            None => ("0.000"@, "0.000"@, "0.000"@),
                        },
                        description,
                    ),
                ),
            ],
            None => Seq::empty(),
        }),
    decreases b.len(),
{
    if b.len() == 0 {
        assert(a + b =~= a);
        assert(all_listed(a) + all_listed(b) =~= all_listed(a));
    } else {
        law_listed_one_by_one(a, e, b.drop_last());
        assert((a + b).drop_last() =~= a + b.drop_last());
        assert((a + b).last() == b.last());
        assert(all_listed(a + b) =~= all_listed(a) + all_listed(b));
    }
    let one = seq![e];
    assert(one.drop_last() =~= Seq::empty());
    assert(all_listed(one.drop_last()) =~= Seq::empty());
    assert(one.last() == e);
}

/// A surface without a file's name to be called after is called `SURFACE`, and one
/// with a name of ASCII characters is called by it in capitals.
pub proof fn law_calling_a_surface(stem: Option<String>, r: String)
    requires
        call_ensures(surface_name, (stem,), r),
    ensures
        stem is None ==> r@ == "SURFACE"@,
        stem matches Some(s) ==> is_ascii_text(s@) && s@.len() > 0 ==> r@ == upper_text(s@),
{
}

/// Slashes behind a path, and a dot behind a slash, do not matter to the name of its
/// file; a path to a directory above has none.
pub proof fn law_the_end_of_a_path(path: Seq<char>)
    ensures
        file_name_of(path + seq!['/']) == file_name_of(path),
        file_name_of(path + seq!['/', '.']) == file_name_of(path),
        file_name_of(path + seq!['/', '.', '.']) is None,
        file_name_of(Seq::empty()) is None,
{
    let one = path + seq!['/'];
    let dot = path + seq!['/', '.'];
    let up = path + seq!['/', '.', '.'];
    assert(one.drop_last() =~= path);
    assert(dot.drop_last() =~= one);
    assert(one.last() == '/' && dot.last() == '.' && dot[dot.len() - 2] == '/');
    assert(settled(one) == settled(path));
    assert(settled(dot) == settled(one));
    assert(up.last() == '.' && up[up.len() - 2] == '.');
    assert(settled(up) == up);
    let k = path.len() as int + 1;
    assert(up[k - 1] == '/');
    lemma_past_last_is(up, exactly('/'), k);
    assert(last_part(up) =~= seq!['.', '.']);
    let none: Seq<char> = Seq::empty();
    assert(settled(none) =~= none);
    assert(last_part(none) =~= none);
}

/// The name of a plan is that of its file, with its extension, whatever directory the
/// file is in.
pub proof fn law_the_name_of_a_plan(path: &str, r: String, dir: Seq<char>, name: Seq<char>)
    requires
        call_ensures(plan_source, (path,), r),
        path@ == dir + seq!['/'] + name,
        is_plain_path(path@),
        name.len() > 0,
        !name.contains('/'),
        name != seq!['.', '.'],
        name != seq!['.'],
    ensures
        r@ == name,
{
    let p = path@;
    let k = dir.len() as int + 1;
    assert(p[k - 1] == '/');
    assert forall|i: int| k <= i < p.len() implies p[i] != '/' by {
        assert(p[i] == name[i - k]);
        assert(name.contains(name[i - k]));
    }
    assert(p.last() == name.last());
    assert(p.last() != '/');
    if p.last() == '.' && p[p.len() - 2] == '/' {
        assert(name.len() == 1);
        assert(name =~= seq!['.']);
    }
    assert(settled(p) == p);
    lemma_past_last_is(p, exactly('/'), k);
    assert(last_part(p) =~= name);
}

/// A drawing can be transformed if and only if there is anything in it.
pub proof fn law_something_to_transform(doc: &CadDocument, r: Result<(), Reply>)
    requires
        call_ensures(check_drawing, (doc,), r),
    ensures
        r is Ok <==> document_entities(*doc).len() > 0,
        r matches Err(reply) ==> reply@ is Info,
{
}

} // verus!
