//! What the commands on surfaces say and draw once the figures are known.
//!
//! A figure comes as the text that is shown for it.

use acadrust::xdata::ExtendedDataRecord;
use acadrust::{EntityType, Vector3};
use vstd::prelude::*;

use crate::console::{replies, Reply, Said};
use crate::drawing::{draw_tin, edges_ok, item_views, tin_items, Item};
use crate::entities::{entity_data, entity_layer, entity_mesh, faces_of, new_mesh_entity, put_on};
use crate::layers::{is_named_after, layer_stem};
use crate::pnezd::{pnezd_format, read_text};
use crate::records::{
    entity_records, pair_record, record_application, record_values, surface_record, XDATA_SURFACE,
};
use crate::surfaces::{mesh_from_surface, nodes_of, read_nodes, too_few_points, Surface};
use crate::text::{decimal, decimal_text, views};

verus! {

/// Texts with a separator between them.
pub open spec fn joined(list: Seq<Seq<char>>, separator: Seq<char>) -> Seq<char>
    decreases list.len(),
{
    if list.len() == 0 {
        Seq::empty()
    } else if list.len() == 1 {
        list[0]
    } else {
        joined(list.drop_last(), separator) + separator + list.last()
    }
}

/// Joins texts with a separator between them.
pub fn join(list: &Vec<String>, separator: &str) -> (r: String)
    ensures
        r@ == joined(views(list@), separator@),
{
    let ghost all = views(list@);
    if list.len() == 0 {
        return String::new();
    }
    let mut r = list[0].clone();
    let mut i: usize = 1;
    assert(all.take(1) =~= seq![all[0]]);
    while i < list.len()
        invariant
            1 <= i <= list.len(),
            all == views(list@),
            r@ == joined(all.take(i as int), separator@),
        decreases list.len() - i,
    {
        assert(all.take(i + 1).drop_last() =~= all.take(i as int));
        assert(all.take(i + 1).last() == list@[i as int]@);
        r = r.concat(separator).concat(list[i].as_str());
        i += 1;
    }
    assert(all.take(i as int) =~= all);
    r
}

/// The layer of a surface's triangulation.
pub open spec fn tin_layer_of(name: Seq<char>) -> Seq<char> {
    "LS-TIN-"@ + name
}

/// Names the layer of a surface's triangulation.
pub fn tin_layer(name: &str) -> (r: String)
    ensures
        r@ == tin_layer_of(name@),
{
    "LS-TIN-".to_string().concat(name)
}

// ---------------------------------------------------------------------------
// LS_SURFACE
// ---------------------------------------------------------------------------

/// What comes of `LS_SURFACE`: the surface's name, what is drawn, and what is
/// said.
pub struct Built<P, S> {
    pub name: String,
    pub items: Vec<Item<P, S>>,
    pub report: Reply,
}

/// What `LS_SURFACE` says of a surface that it keeps.
pub open spec fn stored_of(name: Seq<char>, nodes: nat, triangles: nat, edges: nat, area: Seq<char>) -> Said {
    Said::Output(
        "LS_SURFACE: stored \""@ + name + "\" \u{2014} "@ + decimal(nodes) + " pts, "@ + decimal(
            triangles,
        ) + " triangles, "@ + decimal(edges) + " TIN edges on layer "@ + tin_layer_of(name)
            + "; plan area "@ + area + ". (Use it in LS_VOLUME / LS_DATUM by name.)"@,
    )
}

/// Draws a surface that is called by a name, and says that it is kept.
pub fn store_surface<P: Copy, S>(
    name: String,
    surface: &Surface<P>,
    edges: &Vec<(usize, usize)>,
    area: &str,
) -> (r: Built<P, S>)
    requires
        edges_ok(edges@, surface.nodes@.len()),
    ensures
        r.name@ == name@,
        item_views(r.items@) == tin_items::<P, S>(
            surface.nodes@,
            edges@,
            tin_layer_of(name@),
            name@,
        ),
        r.report@ == stored_of(
            name@,
            surface.nodes@.len(),
            surface.triangles@.len(),
            edges@.len(),
            area@,
        ),
{
    let layer = tin_layer(name.as_str());
    let items = draw_tin(&surface.nodes, edges, layer.as_str(), name.as_str());
    let report = Reply::Output(
        "LS_SURFACE: stored \"".to_string().concat(name.as_str()).concat("\" \u{2014} ").concat(
            decimal_text(surface.nodes.len()).as_str(),
        ).concat(" pts, ").concat(decimal_text(surface.triangles.len()).as_str()).concat(
            " triangles, ",
        ).concat(decimal_text(edges.len()).as_str()).concat(" TIN edges on layer ").concat(
            layer.as_str(),
        ).concat("; plan area ").concat(area).concat(
            ". (Use it in LS_VOLUME / LS_DATUM by name.)",
        ),
    );
    Built { name, items, report }
}

/// `LS_SURFACE`: draws the surface that was made of a file under the file's name,
/// and says that it is kept.
pub fn build_surface<P: Copy, S>(
    path: &str,
    surface: &Surface<P>,
    edges: &Vec<(usize, usize)>,
    area: &str,
) -> (r: Built<P, S>)
    requires
        edges_ok(edges@, surface.nodes@.len()),
    ensures
        is_named_after(r.name@, path@),
        item_views(r.items@) == tin_items::<P, S>(
            surface.nodes@,
            edges@,
            tin_layer_of(r.name@),
            r.name@,
        ),
        r.report@ == stored_of(
            r.name@,
            surface.nodes@.len(),
            surface.triangles@.len(),
            edges@.len(),
            area@,
        ),
{
    store_surface(layer_stem(path), surface, edges, area)
}

/// What is said of a file that no surface can be made of.
pub open spec fn unusable_of(why: Seq<char>) -> Said {
    Said::Error("LandSurvey: "@ + why)
}

/// Says that no surface can be made of a file, and why.
pub fn unusable(why: &str) -> (r: Reply)
    ensures
        r@ == unusable_of(why@),
{
    Reply::Error("LandSurvey: ".to_string().concat(why))
}

/// Says that a file cannot be read.
pub fn unread(path: &str, why: &str) -> (r: String)
    ensures
        r@ == "cannot read \""@ + path@ + "\": "@ + why@,
{
    "cannot read \"".to_string().concat(path).concat("\": ").concat(why)
}

/// What a file gives for a surface.
#[derive(Debug, PartialEq)]
pub enum SurfaceRead<P> {
    /// The surface itself.
    Surface(Surface<P>),
    /// Nodes to triangulate.
    Nodes(Vec<P>),
}

/// What is read from the text of a file: the surface that it holds as LandXML, if
/// it is that, or else the nodes that its points are.
pub open spec fn read_of(
    text: Seq<char>,
    landxml: Option<Option<Surface<Vector3>>>,
    r: SurfaceRead<Vector3>,
) -> bool {
    match landxml {
        Some(found) => found matches Some(s) && r == SurfaceRead::Surface(s),
        None => {
            let points = read_text(text, pnezd_format()).0;
            &&& points.len() >= 3
            &&& r matches SurfaceRead::Nodes(v) && v@ == nodes_of(points)
        },
    }
}

/// Reads a surface from the text of a file, given what it holds as LandXML where
/// it is that. A LandXML file without a surface and a point file of fewer than
/// three points are refused.
pub fn read_surface_quiet(
    path: &str,
    text: &str,
    landxml: Option<Option<Surface<Vector3>>>,
) -> (r: Result<SurfaceRead<Vector3>, String>)
    ensures
        match r {
            Ok(s) => read_of(text@, landxml, s),
            Err(why) => match landxml {
                Some(found) => found is None && why@ == "no TIN surface in LandXML \""@ + path@ + "\""@,
                None => {
                    let points = read_text(text@, pnezd_format()).0;
                    points.len() < 3 && why@ == too_few_points(path@, points.len())
                },
            },
        },
{
    match landxml {
        Some(Some(s)) => Ok(SurfaceRead::Surface(s)),
        Some(None) => Err(
            "no TIN surface in LandXML \"".to_string().concat(path).concat("\""),
        ),
        None => match read_nodes(path, text) {
            Ok(nodes) => Ok(SurfaceRead::Nodes(nodes)),
            Err(why) => Err(why),
        },
    }
}

// ---------------------------------------------------------------------------
// LS_LANDXML
// ---------------------------------------------------------------------------

/// A surface from a file and its name.
pub struct Named {
    pub name: String,
    pub surface: Surface<Vector3>,
}

/// The names of some surfaces.
pub open spec fn names_of(list: Seq<Named>) -> Seq<Seq<char>> {
    list.map_values(|n: Named| n.name@)
}

/// How many triangles some surfaces have.
pub open spec fn triangles_in(list: Seq<Named>) -> nat
    decreases list.len(),
{
    if list.len() == 0 {
        0
    } else {
        triangles_in(list.drop_last()) + list.last().surface.triangles@.len()
    }
}

/// A mesh to be drawn and the record that tags it.
pub struct MeshDrawing {
    pub entity: EntityType,
    pub record: ExtendedDataRecord,
}

/// A drawing shows a surface: as a mesh on the surface's layer, tagged with its
/// name.
pub open spec fn draws_surface(d: MeshDrawing, n: Named) -> bool {
    &&& entity_mesh(d.entity) == Some((n.surface.nodes@, faces_of(n.surface.triangles@)))
    &&& entity_layer(d.entity) == tin_layer_of(n.name@)
    &&& entity_records(entity_data(d.entity)).len() == 0
    &&& (record_application(d.record), record_values(d.record)) == pair_record(
        XDATA_SURFACE@,
        n.name@,
        "TIN"@,
    )
}

/// Draws a surface as a mesh.
pub fn draw_mesh(n: &Named) -> (d: MeshDrawing)
    ensures
        draws_surface(d, *n),
{
    let m = mesh_from_surface(&n.surface);
    let layer = tin_layer(n.name.as_str());
    MeshDrawing {
        entity: put_on(new_mesh_entity(m), layer.as_str()),
        record: surface_record(n.name.as_str(), "TIN"),
    }
}

/// Why a LandXML import is refused, if it is: the file is no LandXML, or it has no
/// surface.
pub open spec fn landxml_refusal(path: Seq<char>, recognized: bool, surfaces: nat) -> Option<Said> {
    if !recognized {
        Some(Said::Error("LS_LANDXML: \""@ + path + "\" does not look like LandXML."@))
    } else if surfaces == 0 {
        Some(Said::Error("LS_LANDXML: no TIN surface found in \""@ + path + "\"."@))
    } else {
        None
    }
}

/// What a LandXML import says when it is done.
pub open spec fn landxml_report(list: Seq<Named>) -> Said {
    Said::Output(
        "LS_LANDXML: imported "@ + decimal(list.len()) + " surface(s) ["@ + joined(
            names_of(list),
            ", "@,
        ) + "] as Mesh \u{2014} "@ + decimal(triangles_in(list))
            + " triangle(s) total. (Use in LS_VOLUME / LS_DATUM by name.)"@,
    )
}

/// `LS_LANDXML`: draws the surfaces that were read from a file.
pub fn import_landxml(path: &str, recognized: bool, list: &Vec<Named>) -> (r: Result<
    (Vec<MeshDrawing>, Reply),
    Reply,
>)
    requires
        triangles_in(list@) <= usize::MAX,
    ensures
        match r {
            Ok((drawn, said)) => {
                &&& landxml_refusal(path@, recognized, list@.len()) is None
                &&& drawn@.len() == list@.len()
                &&& forall|i: int| 0 <= i < list@.len() ==> draws_surface(#[trigger] drawn@[i], list@[i])
                &&& said@ == landxml_report(list@)
            },
            Err(said) => landxml_refusal(path@, recognized, list@.len()) == Some(said@),
        },
{
    if !recognized {
        return Err(
            Reply::Error(
                "LS_LANDXML: \"".to_string().concat(path).concat("\" does not look like LandXML."),
            ),
        );
    }
    if list.len() == 0 {
        return Err(
            Reply::Error(
                "LS_LANDXML: no TIN surface found in \"".to_string().concat(path).concat("\"."),
            ),
        );
    }
    let mut drawn: Vec<MeshDrawing> = Vec::new();
    let mut names: Vec<String> = Vec::new();
    let mut total: usize = 0;
    let mut i: usize = 0;
    assert(list@.take(0) =~= Seq::empty());
    while i < list.len()
        invariant
            i <= list.len(),
            triangles_in(list@) <= usize::MAX,
            drawn@.len() == i,
            forall|k: int| 0 <= k < i ==> draws_surface(#[trigger] drawn@[k], list@[k]),
            views(names@) =~= names_of(list@).take(i as int),
            total == triangles_in(list@.take(i as int)),
        decreases list.len() - i,
    {
        let n = &list[i];
        let name = n.name.clone();
        drawn.push(draw_mesh(n));
        proof {
            crate::text::lemma_views_push(names@, name);
            assert(list@.take(i + 1).drop_last() =~= list@.take(i as int));
            lemma_fewer_triangles(list@, i + 1);
        }
        names.push(name);
        total = total + n.surface.triangles.len();
        i += 1;
    }
    proof {
        assert(list@.take(i as int) =~= list@);
        assert(names_of(list@).take(i as int) =~= names_of(list@));
    }
    let said = Reply::Output(
        "LS_LANDXML: imported ".to_string().concat(decimal_text(list.len()).as_str()).concat(
            " surface(s) [",
        ).concat(join(&names, ", ").as_str()).concat("] as Mesh \u{2014} ").concat(
            decimal_text(total).as_str(),
        ).concat(" triangle(s) total. (Use in LS_VOLUME / LS_DATUM by name.)"),
    );
    Ok((drawn, said))
}

proof fn lemma_fewer_triangles(list: Seq<Named>, n: int)
    requires
        0 <= n <= list.len(),
    ensures
        triangles_in(list.take(n)) <= triangles_in(list),
    decreases list.len(),
{
    if n < list.len() {
        lemma_fewer_triangles(list.drop_last(), n);
        assert(list.drop_last().take(n) =~= list.take(n));
    } else {
        assert(list.take(n) =~= list);
    }
}

// ---------------------------------------------------------------------------
// LS_VOLUME and LS_DATUM
// ---------------------------------------------------------------------------

/// What is said when a surface of a name cannot be had.
pub open spec fn missing_of(
    command: Seq<char>,
    token: Seq<char>,
    why: Seq<char>,
    known: Seq<Seq<char>>,
    advice: Seq<char>,
) -> Said {
    Said::Error(
        command + ": no surface \""@ + token + "\" ("@ + why + "). Known surfaces: ["@ + joined(
            known,
            ", "@,
        ) + "]."@ + advice,
    )
}

/// Says that a surface cannot be had, and which can.
fn missing(command: &str, token: &str, why: &str, known: &Vec<String>, advice: &str) -> (r: Reply)
    ensures
        r@ == missing_of(command@, token@, why@, views(known@), advice@),
{
    Reply::Error(
        command.to_string().concat(": no surface \"").concat(token).concat("\" (").concat(why).concat(
            "). Known surfaces: [",
        ).concat(join(known, ", ").as_str()).concat("].").concat(advice),
    )
}

/// What to do about a missing upper surface.
pub const BUILD_FIRST: &'static str = " Build Surface first, then click Volume.";

/// Says that the upper surface of a volume cannot be had.
pub fn no_top(token: &str, why: &str, known: &Vec<String>) -> (r: Reply)
    ensures
        r@ == missing_of("LS_VOLUME"@, token@, why@, views(known@), BUILD_FIRST@),
{
    missing("LS_VOLUME", token, why, known, BUILD_FIRST)
}

/// Says that the lower surface of a volume cannot be had.
pub fn no_bottom(token: &str, why: &str, known: &Vec<String>) -> (r: Reply)
    ensures
        r@ == missing_of("LS_VOLUME"@, token@, why@, views(known@), ""@),
{
    missing("LS_VOLUME", token, why, known, "")
}

/// Says that the surface over a datum cannot be had.
pub fn no_datum_surface(token: &str, why: &str, known: &Vec<String>) -> (r: Reply)
    ensures
        r@ == missing_of("LS_DATUM"@, token@, why@, views(known@), ""@),
{
    missing("LS_DATUM", token, why, known, "")
}

/// Cut, fill and net volume as texts.
#[derive(Debug, PartialEq, Eq)]
pub struct CutFill {
    pub cut: String,
    pub fill: String,
    pub net: String,
}

/// What the grid method gives, as texts: the step, the volumes, the plan area and
/// the number of cells.
#[derive(Debug, PartialEq, Eq)]
pub struct GridVolume {
    pub step: String,
    pub volumes: CutFill,
    pub area: String,
    pub cells: usize,
}

/// Cut, fill and net as they stand in a report.
pub open spec fn volumes_of(v: CutFill) -> Seq<char> {
    "cut "@ + v.cut@ + ", fill "@ + v.fill@ + ", net "@ + v.net@
}

/// Writes cut, fill and net for a report.
fn write_volumes(v: &CutFill) -> (r: String)
    ensures
        r@ == volumes_of(*v),
{
    "cut ".to_string().concat(v.cut.as_str()).concat(", fill ").concat(v.fill.as_str()).concat(
        ", net ",
    ).concat(v.net.as_str())
}

/// The exact volume in a report.
pub open spec fn exact_of(v: CutFill, top: nat, bottom: nat) -> Seq<char> {
    "(exact TIN overlay): "@ + volumes_of(v) + " [top "@ + decimal(top) + " pts, bottom "@ + decimal(
        bottom,
    ) + " pts]"@
}

/// Writes the exact volume for a report.
pub(crate) fn write_exact(v: &CutFill, top: usize, bottom: usize) -> (r: String)
    ensures
        r@ == exact_of(*v, top as nat, bottom as nat),
{
    "(exact TIN overlay): ".to_string().concat(write_volumes(v).as_str()).concat(" [top ").concat(
        decimal_text(top).as_str(),
    ).concat(" pts, bottom ").concat(decimal_text(bottom).as_str()).concat(" pts]")
}

/// The volume by the grid method in a report.
pub open spec fn grid_of(g: GridVolume) -> Seq<char> {
    "(grid @ "@ + g.step@ + "): "@ + volumes_of(g.volumes) + ", plan area "@ + g.area@ + ", "@
        + decimal(g.cells as nat) + " cells"@
}

/// Writes the volume by the grid method for a report.
pub(crate) fn write_grid(g: &GridVolume) -> (r: String)
    ensures
        r@ == grid_of(*g),
{
    "(grid @ ".to_string().concat(g.step.as_str()).concat("): ").concat(
        write_volumes(&g.volumes).as_str(),
    ).concat(", plan area ").concat(g.area.as_str()).concat(", ").concat(
        decimal_text(g.cells).as_str(),
    ).concat(" cells")
}

/// What `LS_VOLUME` says of a volume.
pub open spec fn volume_report_of(
    top: (Seq<char>, nat),
    bottom: (Seq<char>, nat),
    exact: CutFill,
    grid: Option<GridVolume>,
) -> Seq<Said> {
    let head = seq![
        Said::Output("LS_VOLUME: "@ + top.0 + " (top) minus "@ + bottom.0 + " (bottom)."@),
        Said::Output("LS_VOLUME "@ + exact_of(exact, top.1, bottom.1) + "."@),
    ];
    match grid {
        Some(g) => head.push(Said::Output("LS_VOLUME "@ + grid_of(g) + "."@)),
        None => head,
    }
}

/// `LS_VOLUME`: reports the volume between two surfaces, given by name and number
/// of nodes.
pub fn volume_report(
    top: (&str, usize),
    bottom: (&str, usize),
    exact: &CutFill,
    grid: &Option<GridVolume>,
) -> (r: Vec<Reply>)
    ensures
        replies(r@) == volume_report_of(
            (top.0@, top.1 as nat),
            (bottom.0@, bottom.1 as nat),
            *exact,
            *grid,
        ),
{
    let mut r: Vec<Reply> = Vec::new();
    r.push(
        Reply::Output(
            "LS_VOLUME: ".to_string().concat(top.0).concat(" (top) minus ").concat(bottom.0).concat(
                " (bottom).",
            ),
        ),
    );
    r.push(
        Reply::Output(
            "LS_VOLUME ".to_string().concat(write_exact(exact, top.1, bottom.1).as_str()).concat("."),
        ),
    );
    if let Some(g) = grid {
        r.push(Reply::Output("LS_VOLUME ".to_string().concat(write_grid(g).as_str()).concat(".")));
    }
    assert(replies(r@) =~= volume_report_of(
        (top.0@, top.1 as nat),
        (bottom.0@, bottom.1 as nat),
        *exact,
        *grid,
    ));
    r
}

/// What `LS_VOLUME` says of its drawing.
pub open spec fn volume_drawn_of(top: nat, bottom: nat, line: nat) -> Said {
    Said::Output(
        "LS_VOLUME: drew TOP TIN ("@ + decimal(top) + " edges), BOTTOM TIN ("@ + decimal(bottom)
            + " edges), cut/fill line ("@ + decimal(line) + " seg), result label."@,
    )
}

/// Says what `LS_VOLUME` has drawn: the edges of both surfaces and the segments of
/// the line between cut and fill.
pub fn volume_drawn(top: usize, bottom: usize, line: usize) -> (r: Reply)
    ensures
        r@ == volume_drawn_of(top as nat, bottom as nat, line as nat),
{
    Reply::Output(
        "LS_VOLUME: drew TOP TIN (".to_string().concat(decimal_text(top).as_str()).concat(
            " edges), BOTTOM TIN (",
        ).concat(decimal_text(bottom).as_str()).concat(" edges), cut/fill line (").concat(
            decimal_text(line).as_str(),
        ).concat(" seg), result label."),
    )
}

/// The label of a volume in the drawing.
pub open spec fn volume_label_of(v: CutFill) -> Seq<char> {
    "CUT "@ + v.cut@ + "  FILL "@ + v.fill@ + "  NET "@ + v.net@
}

/// Writes the label of a volume in the drawing.
pub fn volume_label(v: &CutFill) -> (r: String)
    ensures
        r@ == volume_label_of(*v),
{
    "CUT ".to_string().concat(v.cut.as_str()).concat("  FILL ").concat(v.fill.as_str()).concat(
        "  NET ",
    ).concat(v.net.as_str())
}

/// Writes the label of a volume over a datum in the drawing.
pub fn datum_label(elevation: &str, v: &CutFill) -> (r: String)
    ensures
        r@ == "ELEV "@ + elevation@ + "  "@ + volume_label_of(*v),
{
    "ELEV ".to_string().concat(elevation).concat("  ").concat(volume_label(v).as_str())
}

/// What `LS_DATUM` says of a volume.
pub open spec fn datum_report_of(elevation: Seq<char>, v: CutFill, nodes: nat, triangles: nat) -> Said {
    Said::Output(
        "LS_DATUM (vs elev "@ + elevation + "): cut "@ + v.cut@ + " (above), fill "@ + v.fill@
            + " (below), net "@ + v.net@ + " ["@ + decimal(nodes) + " pts, "@ + decimal(triangles)
            + " triangles]."@,
    )
}

/// `LS_DATUM`: reports the volume of a surface over a datum.
pub fn datum_report(elevation: &str, v: &CutFill, nodes: usize, triangles: usize) -> (r: Reply)
    ensures
        r@ == datum_report_of(elevation@, *v, nodes as nat, triangles as nat),
{
    Reply::Output(
        "LS_DATUM (vs elev ".to_string().concat(elevation).concat("): cut ").concat(
            v.cut.as_str(),
        ).concat(" (above), fill ").concat(v.fill.as_str()).concat(" (below), net ").concat(
            v.net.as_str(),
        ).concat(" [").concat(decimal_text(nodes).as_str()).concat(" pts, ").concat(
            decimal_text(triangles).as_str(),
        ).concat(" triangles]."),
    )
}

/// What `LS_DATUM` says of its drawing.
pub open spec fn datum_drawn_of(edges: nat, contour: nat) -> Said {
    Said::Output(
        "LS_DATUM: drew TIN ("@ + decimal(edges) + " edges), datum contour ("@ + decimal(contour)
            + " seg), result label."@,
    )
}

/// Says what `LS_DATUM` has drawn: the edges of the surface and the segments of
/// the contour.
pub fn datum_drawn(edges: usize, contour: usize) -> (r: Reply)
    ensures
        r@ == datum_drawn_of(edges as nat, contour as nat),
{
    Reply::Output(
        "LS_DATUM: drew TIN (".to_string().concat(decimal_text(edges).as_str()).concat(
            " edges), datum contour (",
        ).concat(decimal_text(contour).as_str()).concat(" seg), result label."),
    )
}

} // verus!
