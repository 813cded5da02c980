//! What the commands draw: which shapes, on which layers, tagged how.

use acadrust::xdata::ExtendedDataRecord;
use acadrust::{EntityType, Vector3};
use vstd::prelude::*;

use crate::adjust::CombinedTexts;
use crate::entities::{
    entity_data, entity_layer, entity_line, entity_mesh, entity_point, line_on, point_on,
};
use crate::records::{
    entity_records, pair_record, record_application, record_values, surface_record, XDATA_SURFACE,
};
use crate::surfaces::pair_view;

verus! {

/// A shape with points of a type `P` and sizes of a type `S`.
#[derive(Debug, PartialEq)]
pub enum Shape<P, S> {
    Point(P),
    Line(P, P),
    /// A text, where it stands, and its size.
    Text(String, P, S),
}

/// A shape on a layer. What is drawn for a surface is tagged with the surface's
/// name and the kind of the shape.
#[derive(Debug, PartialEq)]
pub struct Item<P, S> {
    pub shape: Shape<P, S>,
    pub layer: String,
    pub tag: Option<(String, String)>,
}

/// A shape with its text as a sequence.
pub enum ShapeView<P, S> {
    Point(P),
    Line(P, P),
    Text(Seq<char>, P, S),
}

/// An item with its texts as sequences.
pub struct ItemView<P, S> {
    pub shape: ShapeView<P, S>,
    pub layer: Seq<char>,
    pub tag: Option<(Seq<char>, Seq<char>)>,
}

impl<P, S> View for Shape<P, S> {
    type V = ShapeView<P, S>;

    open spec fn view(&self) -> ShapeView<P, S> {
        match self {
            Shape::Point(p) => ShapeView::Point(*p),
            Shape::Line(a, b) => ShapeView::Line(*a, *b),
            Shape::Text(s, at, h) => ShapeView::Text(s@, *at, *h),
        }
    }
}

impl<P, S> View for Item<P, S> {
    type V = ItemView<P, S>;

    open spec fn view(&self) -> ItemView<P, S> {
        ItemView { shape: self.shape@, layer: self.layer@, tag: pair_view(self.tag) }
    }
}

/// Items with their texts as sequences.
pub open spec fn item_views<P, S>(items: Seq<Item<P, S>>) -> Seq<ItemView<P, S>> {
    items.map_values(|i: Item<P, S>| i@)
}

/// A shape on a layer without a tag.
pub open spec fn plain<P, S>(shape: ShapeView<P, S>, layer: Seq<char>) -> ItemView<P, S> {
    ItemView { shape, layer, tag: None }
}

/// A shape on a layer, tagged for a surface.
pub open spec fn tagged<P, S>(
    shape: ShapeView<P, S>,
    layer: Seq<char>,
    name: Seq<char>,
    kind: Seq<char>,
) -> ItemView<P, S> {
    ItemView { shape, layer, tag: Some((name, kind)) }
}

/// Adds a shape without a tag.
fn draw<P, S>(items: &mut Vec<Item<P, S>>, shape: Shape<P, S>, layer: &str)
    ensures
        item_views(final(items)@) == item_views(old(items)@).push(plain(shape@, layer@)),
{
    let ghost before = items@;
    items.push(Item { shape, layer: layer.to_string(), tag: None });
    assert(item_views(items@) =~= item_views(before).push(items@.last()@));
}

/// Adds a shape that is tagged for a surface.
fn draw_tagged<P, S>(
    items: &mut Vec<Item<P, S>>,
    shape: Shape<P, S>,
    layer: &str,
    name: &str,
    kind: &str,
)
    ensures
        item_views(final(items)@) == item_views(old(items)@).push(
            tagged(shape@, layer@, name@, kind@),
        ),
{
    let ghost before = items@;
    let tag = Some((name.to_string(), kind.to_string()));
    items.push(Item { shape, layer: layer.to_string(), tag });
    assert(item_views(items@) =~= item_views(before).push(items@.last()@));
}

/// An entity is a given point or line.
pub open spec fn shows<S>(e: EntityType, shape: ShapeView<Vector3, S>) -> bool {
    match shape {
        ShapeView::Point(p) => entity_point(e) == Some(p) && entity_line(e) is None && entity_mesh(
            e,
        ) is None,
        ShapeView::Line(a, b) => entity_line(e) == Some((a, b)) && entity_point(e) is None
            && entity_mesh(e) is None,
        ShapeView::Text(_, _, _) => false,
    }
}

/// Makes the entity of an item that is a point or a line. A text is not made here,
/// since its height is a number.
pub fn entity_of<S>(item: &Item<Vector3, S>) -> (r: Option<EntityType>)
    ensures
        match r {
            Some(e) => {
                &&& shows(e, item@.shape)
                &&& entity_layer(e) == item.layer@
                &&& entity_records(entity_data(e)).len() == 0
            },
            None => item.shape is Text,
        },
{
    match &item.shape {
        Shape::Point(p) => Some(point_on(*p, item.layer.as_str())),
        Shape::Line(a, b) => Some(line_on(*a, *b, item.layer.as_str())),
        Shape::Text(_, _, _) => None,
    }
}

/// Makes the record that tags an item, if it has a tag.
pub fn record_of<P, S>(item: &Item<P, S>) -> (r: Option<ExtendedDataRecord>)
    ensures
        match item@.tag {
            Some((name, kind)) => r is Some && (record_application(r->0), record_values(r->0))
                == pair_record(XDATA_SURFACE@, name, kind),
            None => r is None,
        },
{
    match &item.tag {
        Some((name, kind)) => Some(surface_record(name.as_str(), kind.as_str())),
        None => None,
    }
}

// ---------------------------------------------------------------------------
// Surfaces
// ---------------------------------------------------------------------------

/// The edges of a triangulation whose nodes exist.
pub open spec fn edges_ok(edges: Seq<(usize, usize)>, n: nat) -> bool {
    forall|i: int| 0 <= i < edges.len() ==> (#[trigger] edges[i]).0 < n && edges[i].1 < n
}

/// An edge of a triangulation as it is drawn.
pub open spec fn edge_item<P, S>(
    nodes: Seq<P>,
    edge: (usize, usize),
    layer: Seq<char>,
    name: Seq<char>,
) -> ItemView<P, S> {
    tagged(ShapeView::Line(nodes[edge.0 as int], nodes[edge.1 as int]), layer, name, "TIN"@)
}

/// A triangulation as it is drawn: its edges.
pub open spec fn tin_items<P, S>(
    nodes: Seq<P>,
    edges: Seq<(usize, usize)>,
    layer: Seq<char>,
    name: Seq<char>,
) -> Seq<ItemView<P, S>> {
    edges.map_values(|e: (usize, usize)| edge_item(nodes, e, layer, name))
}

/// Draws a triangulation behind what is drawn already.
fn add_tin<P: Copy, S>(
    items: &mut Vec<Item<P, S>>,
    nodes: &Vec<P>,
    edges: &Vec<(usize, usize)>,
    layer: &str,
    name: &str,
)
    requires
        edges_ok(edges@, nodes@.len()),
    ensures
        item_views(final(items)@) == item_views(old(items)@) + tin_items(
            nodes@,
            edges@,
            layer@,
            name@,
        ),
{
    let ghost before = item_views(items@);
    let ghost all = tin_items::<P, S>(nodes@, edges@, layer@, name@);
    let mut i: usize = 0;
    while i < edges.len()
        invariant
            i <= edges.len(),
            edges_ok(edges@, nodes@.len()),
            all == tin_items::<P, S>(nodes@, edges@, layer@, name@),
            item_views(items@) =~= before + all.take(i as int),
        decreases edges.len() - i,
    {
        let e = edges[i];
        draw_tagged(items, Shape::Line(nodes[e.0], nodes[e.1]), layer, name, "TIN");
        assert(all.take(i + 1) =~= all.take(i as int).push(all[i as int]));
        i += 1;
    }
    assert(all.take(i as int) =~= all);
}

/// Draws the triangulation of a surface on a layer.
pub fn draw_tin<P: Copy, S>(
    nodes: &Vec<P>,
    edges: &Vec<(usize, usize)>,
    layer: &str,
    name: &str,
) -> (items: Vec<Item<P, S>>)
    requires
        edges_ok(edges@, nodes@.len()),
    ensures
        item_views(items@) == tin_items::<P, S>(nodes@, edges@, layer@, name@),
{
    let mut items: Vec<Item<P, S>> = Vec::new();
    add_tin(&mut items, nodes, edges, layer, name);
    assert(item_views(items@) =~= tin_items::<P, S>(nodes@, edges@, layer@, name@));
    items
}

/// Segments as they are drawn for a surface.
pub open spec fn segment_items<P, S>(
    segments: Seq<(P, P)>,
    layer: Seq<char>,
    name: Seq<char>,
    kind: Seq<char>,
) -> Seq<ItemView<P, S>> {
    segments.map_values(|s: (P, P)| tagged(ShapeView::Line(s.0, s.1), layer, name, kind))
}

/// Draws segments behind what is drawn already.
fn add_segments<P: Copy, S>(
    items: &mut Vec<Item<P, S>>,
    segments: &Vec<(P, P)>,
    layer: &str,
    name: &str,
    kind: &str,
)
    ensures
        item_views(final(items)@) == item_views(old(items)@) + segment_items(
            segments@,
            layer@,
            name@,
            kind@,
        ),
{
    let ghost before = item_views(items@);
    let ghost all = segment_items::<P, S>(segments@, layer@, name@, kind@);
    let mut i: usize = 0;
    while i < segments.len()
        invariant
            i <= segments.len(),
            all == segment_items::<P, S>(segments@, layer@, name@, kind@),
            item_views(items@) =~= before + all.take(i as int),
        decreases segments.len() - i,
    {
        let s = segments[i];
        draw_tagged(items, Shape::Line(s.0, s.1), layer, name, kind);
        assert(all.take(i + 1) =~= all.take(i as int).push(all[i as int]));
        i += 1;
    }
    assert(all.take(i as int) =~= all);
}

/// A triangulation to be drawn: its nodes and its edges.
#[derive(Debug, PartialEq)]
pub struct Tin<P> {
    pub nodes: Vec<P>,
    pub edges: Vec<(usize, usize)>,
}

impl<P> Tin<P> {
    /// Its edges join nodes that exist.
    pub open spec fn wf(self) -> bool {
        edges_ok(self.edges@, self.nodes@.len())
    }
}

/// A volume between two surfaces as it is drawn: both triangulations, the line
/// between cut and fill, and the result.
pub open spec fn volume_items<P, S>(
    top: Tin<P>,
    bottom: Tin<P>,
    line: Seq<(P, P)>,
    label: Seq<char>,
    at: P,
    height: S,
) -> Seq<ItemView<P, S>> {
    tin_items(top.nodes@, top.edges@, "LS-TIN-TOP"@, "TOP"@) + tin_items(
        bottom.nodes@,
        bottom.edges@,
        "LS-TIN-BOTTOM"@,
        "BOTTOM"@,
    ) + segment_items(line, "LS-CUTFILL"@, "CUTFILL"@, "CUTFILL"@) + seq![
        tagged(ShapeView::Text(label, at, height), "LS-VOLUME-LABEL"@, "VOLUME"@, "LABEL"@),
    ]
}

/// Draws a volume between two surfaces.
pub fn draw_volume<P: Copy, S>(
    top: &Tin<P>,
    bottom: &Tin<P>,
    line: &Vec<(P, P)>,
    label: &str,
    at: P,
    height: S,
) -> (items: Vec<Item<P, S>>)
    requires
        top.wf(),
        bottom.wf(),
    ensures
        item_views(items@) == volume_items(*top, *bottom, line@, label@, at, height),
        items@.len() == top.edges@.len() + bottom.edges@.len() + line@.len() + 1,
{
    let mut items: Vec<Item<P, S>> = Vec::new();
    add_tin(&mut items, &top.nodes, &top.edges, "LS-TIN-TOP", "TOP");
    add_tin(&mut items, &bottom.nodes, &bottom.edges, "LS-TIN-BOTTOM", "BOTTOM");
    add_segments(&mut items, line, "LS-CUTFILL", "CUTFILL", "CUTFILL");
    draw_tagged(
        &mut items,
        Shape::Text(label.to_string(), at, height),
        "LS-VOLUME-LABEL",
        "VOLUME",
        "LABEL",
    );
    assert(item_views(items@) =~= volume_items(*top, *bottom, line@, label@, at, height));
    assert(item_views(items@).len() == items@.len());
    items
}

/// A volume over a datum as it is drawn: the triangulation, the contour of the
/// datum, and the result.
pub open spec fn datum_items<P, S>(
    tin: Tin<P>,
    layer: Seq<char>,
    contour: Seq<(P, P)>,
    label: Seq<char>,
    at: P,
    height: S,
) -> Seq<ItemView<P, S>> {
    tin_items(tin.nodes@, tin.edges@, layer, "DATUM"@) + segment_items(
        contour,
        "LS-DATUM"@,
        "DATUM"@,
        "CONTOUR"@,
    ) + seq![tagged(ShapeView::Text(label, at, height), "LS-VOLUME-LABEL"@, "DATUM"@, "LABEL"@)]
}

/// The layer that a triangulation is drawn on by `LS_DATUM`.
pub const DATUM_LAYER: &'static str = "LS-TIN-DATUM";

/// Draws a volume over a datum, the triangulation on a given layer.
pub fn draw_datum<P: Copy, S>(
    tin: &Tin<P>,
    layer: &str,
    contour: &Vec<(P, P)>,
    label: &str,
    at: P,
    height: S,
) -> (items: Vec<Item<P, S>>)
    requires
        tin.wf(),
    ensures
        item_views(items@) == datum_items(*tin, layer@, contour@, label@, at, height),
        items@.len() == tin.edges@.len() + contour@.len() + 1,
{
    let mut items: Vec<Item<P, S>> = Vec::new();
    add_tin(&mut items, &tin.nodes, &tin.edges, layer, "DATUM");
    add_segments(&mut items, contour, "LS-DATUM", "DATUM", "CONTOUR");
    draw_tagged(
        &mut items,
        Shape::Text(label.to_string(), at, height),
        "LS-VOLUME-LABEL",
        "DATUM",
        "LABEL",
    );
    assert(item_views(items@) =~= datum_items(*tin, layer@, contour@, label@, at, height));
    assert(item_views(items@).len() == items@.len());
    items
}

// ---------------------------------------------------------------------------
// Lines and stations
// ---------------------------------------------------------------------------

/// An inverse as it is drawn: the line with its bearing and its length.
pub open spec fn inverse_items<P, S>(
    from: P,
    to: P,
    bearing: (Seq<char>, P),
    distance: (Seq<char>, P),
    size: S,
) -> Seq<ItemView<P, S>> {
    seq![
        plain(ShapeView::Line(from, to), "LS-INVERSE"@),
        plain(ShapeView::Text(bearing.0, bearing.1, size), "LS-INVERSE"@),
        plain(ShapeView::Text(distance.0, distance.1, size), "LS-INVERSE"@),
    ]
}

/// Draws an inverse: the line, and the texts of its bearing and its length where
/// they stand.
pub fn draw_inverse<P: Copy, S: Copy>(
    from: P,
    to: P,
    bearing: (String, P),
    distance: (String, P),
    size: S,
) -> (items: Vec<Item<P, S>>)
    ensures
        item_views(items@) == inverse_items(
            from,
            to,
            (bearing.0@, bearing.1),
            (distance.0@, distance.1),
            size,
        ),
{
    let mut items: Vec<Item<P, S>> = Vec::new();
    draw(&mut items, Shape::Line(from, to), "LS-INVERSE");
    draw(&mut items, Shape::Text(bearing.0, bearing.1, size), "LS-INVERSE");
    draw(&mut items, Shape::Text(distance.0, distance.1, size), "LS-INVERSE");
    assert(item_views(items@) =~= inverse_items(
        from,
        to,
        (bearing.0@, bearing.1),
        (distance.0@, distance.1),
        size,
    ));
    items
}

/// The known points of a resection, each with the ray to it.
pub open spec fn ray_items<P, S>(station: P, knowns: Seq<P>) -> Seq<ItemView<P, S>>
    decreases knowns.len(),
{
    if knowns.len() == 0 {
        Seq::empty()
    } else {
        ray_items(station, knowns.drop_last()) + seq![
            plain(ShapeView::Point(knowns.last()), "LS-RESECT-KNOWN"@),
            plain(ShapeView::Line(station, knowns.last()), "LS-RESECT-RAYS"@),
        ]
    }
}

/// A resection as it is drawn: the station, the known points with the rays to
/// them, and a label.
pub open spec fn resect_items<P, S>(
    station: P,
    knowns: Seq<P>,
    label: Seq<char>,
    at: P,
    height: S,
) -> Seq<ItemView<P, S>> {
    seq![plain(ShapeView::Point(station), "LS-RESECT-STATION"@)] + ray_items(station, knowns) + seq![
        plain(ShapeView::Text(label, at, height), "LS-RESECT-LABEL"@),
    ]
}

/// Draws a resection.
pub fn draw_resection<P: Copy, S>(
    station: P,
    knowns: &Vec<P>,
    label: &str,
    at: P,
    height: S,
) -> (items: Vec<Item<P, S>>)
    ensures
        item_views(items@) == resect_items(station, knowns@, label@, at, height),
        items@.len() == 2 * knowns@.len() + 2,
{
    let mut items: Vec<Item<P, S>> = Vec::new();
    draw(&mut items, Shape::Point(station), "LS-RESECT-STATION");
    let ghost first = seq![plain::<P, S>(ShapeView::Point(station), "LS-RESECT-STATION"@)];
    let mut i: usize = 0;
    proof {
        assert(knowns@.take(0) =~= Seq::empty());
        assert(item_views(items@) =~= first + ray_items(station, knowns@.take(0)));
    }
    while i < knowns.len()
        invariant
            i <= knowns.len(),
            item_views(items@) == first + ray_items(station, knowns@.take(i as int)),
            items@.len() == 2 * i + 1,
        decreases knowns.len() - i,
    {
        draw(&mut items, Shape::Point(knowns[i]), "LS-RESECT-KNOWN");
        draw(&mut items, Shape::Line(station, knowns[i]), "LS-RESECT-RAYS");
        proof {
            let more = knowns@.take(i + 1);
            assert(more.drop_last() =~= knowns@.take(i as int));
            assert(item_views(items@) =~= first + ray_items(station, more));
            assert(item_views(items@).len() == items@.len());
        }
        i += 1;
    }
    assert(knowns@.take(i as int) =~= knowns@);
    draw(&mut items, Shape::Text(label.to_string(), at, height), "LS-RESECT-LABEL");
    assert(item_views(items@) =~= resect_items(station, knowns@, label@, at, height));
    assert(item_views(items@).len() == items@.len());
    items
}

/// The known points of a resection, each with the ray to it and the residual of
/// the shot.
pub open spec fn rated_ray_items<P, S>(
    station: P,
    knowns: Seq<P>,
    residuals: Seq<(String, String)>,
    places: Seq<P>,
    height: S,
) -> Seq<ItemView<P, S>>
    decreases knowns.len(),
{
    if knowns.len() == 0 {
        Seq::empty()
    } else {
        let i = knowns.len() - 1;
        rated_ray_items(station, knowns.drop_last(), residuals, places, height) + seq![
            plain(ShapeView::Point(knowns[i]), "LS-RESECT-KNOWN"@),
            plain(ShapeView::Line(station, knowns[i]), "LS-RESECT-RAYS"@),
            plain(ShapeView::Text(residuals[i].1@, places[i], height), "LS-RESECT-LABEL"@),
        ]
    }
}

/// A resection by the combined method as it is drawn with residuals: the station,
/// the known points with the rays to them and their residuals, and a label.
pub open spec fn rated_resect_items<P, S>(
    station: P,
    knowns: Seq<P>,
    residuals: Seq<(String, String)>,
    places: Seq<P>,
    label: Seq<char>,
    at: P,
    height: S,
) -> Seq<ItemView<P, S>> {
    seq![plain(ShapeView::Point(station), "LS-RESECT-STATION"@)] + rated_ray_items(
        station,
        knowns,
        residuals,
        places,
        height,
    ) + seq![plain(ShapeView::Text(label, at, height), "LS-RESECT-LABEL"@)]
}

/// Draws a resection by the combined method, the ray to each known point labelled
/// with the residual of its shot, at a given place.
pub fn draw_combined_resection<P: Copy, S: Copy>(
    station: P,
    knowns: &Vec<P>,
    t: &CombinedTexts,
    places: &Vec<P>,
    label: &str,
    at: P,
    height: S,
) -> (items: Vec<Item<P, S>>)
    requires
        t.residuals@.len() == knowns@.len(),
        places@.len() == knowns@.len(),
    ensures
        item_views(items@) == rated_resect_items(
            station,
            knowns@,
            t.residuals@,
            places@,
            label@,
            at,
            height,
        ),
        items@.len() == 3 * knowns@.len() + 2,
{
    let mut items: Vec<Item<P, S>> = Vec::new();
    draw(&mut items, Shape::Point(station), "LS-RESECT-STATION");
    let ghost first = seq![plain::<P, S>(ShapeView::Point(station), "LS-RESECT-STATION"@)];
    let ghost residuals = t.residuals@;
    let mut i: usize = 0;
    proof {
        assert(knowns@.take(0) =~= Seq::empty());
        assert(item_views(items@) =~= first + rated_ray_items(
            station,
            knowns@.take(0),
            residuals,
            places@,
            height,
        ));
    }
    while i < knowns.len()
        invariant
            i <= knowns.len(),
            residuals == t.residuals@,
            t.residuals@.len() == knowns@.len(),
            places@.len() == knowns@.len(),
            item_views(items@) == first + rated_ray_items(
                station,
                knowns@.take(i as int),
                residuals,
                places@,
                height,
            ),
            items@.len() == 3 * i + 1,
        decreases knowns.len() - i,
    {
        draw(&mut items, Shape::Point(knowns[i]), "LS-RESECT-KNOWN");
        draw(&mut items, Shape::Line(station, knowns[i]), "LS-RESECT-RAYS");
        let residual = t.residuals[i].1.clone();
        draw(&mut items, Shape::Text(residual, places[i], height), "LS-RESECT-LABEL");
        proof {
            let more = knowns@.take(i + 1);
            assert(more.drop_last() =~= knowns@.take(i as int));
            assert(item_views(items@) =~= first + rated_ray_items(
                station,
                more,
                residuals,
                places@,
                height,
            ));
            assert(item_views(items@).len() == items@.len());
        }
        i += 1;
    }
    assert(knowns@.take(i as int) =~= knowns@);
    draw(&mut items, Shape::Text(label.to_string(), at, height), "LS-RESECT-LABEL");
    proof {
        assert(item_views(items@) =~= rated_resect_items(
            station,
            knowns@,
            residuals,
            places@,
            label@,
            at,
            height,
        ));
        assert(item_views(items@).len() == items@.len());
    }
    items
}

// ---------------------------------------------------------------------------
// The stages of a fit
// ---------------------------------------------------------------------------

/// Where a control point is before a fit, after its scale, its rotation and its
/// translation, and where it should be.
#[derive(Debug, Clone, Copy, PartialEq)]
pub struct Stages<P> {
    pub source: P,
    pub scaled: P,
    pub rotated: P,
    pub fitted: P,
    pub target: P,
}

/// The numbers of a fit as texts.
#[derive(Debug, PartialEq, Eq)]
pub struct FitTexts {
    pub scale: String,
    pub rotation: String,
    pub east: String,
    pub north: String,
    pub worst: String,
}

/// Where the five labels of a fit stand.
#[derive(Debug, Clone, Copy, PartialEq)]
pub struct LabelPlaces<P> {
    pub source: P,
    pub scale: P,
    pub rotation: P,
    pub translation: P,
    pub residual: P,
}

/// The stages of one control point as they are drawn.
pub open spec fn stage_items<P, S>(s: Stages<P>) -> Seq<ItemView<P, S>> {
    seq![
        plain(ShapeView::Point(s.source), "LS-HMT-0-SRC"@),
        plain(ShapeView::Point(s.scaled), "LS-HMT-1-SCALED"@),
        plain(ShapeView::Point(s.rotated), "LS-HMT-2-ROTATED"@),
        plain(ShapeView::Point(s.fitted), "LS-HMT-3-FINAL"@),
        plain(ShapeView::Point(s.target), "LS-HMT-TARGET"@),
        plain(ShapeView::Line(s.source, s.scaled), "LS-HMT-PATH"@),
        plain(ShapeView::Line(s.scaled, s.rotated), "LS-HMT-PATH"@),
        plain(ShapeView::Line(s.rotated, s.fitted), "LS-HMT-PATH"@),
        plain(ShapeView::Line(s.fitted, s.target), "LS-HMT-RESID"@),
    ]
}

/// The stages of all control points as they are drawn.
pub open spec fn all_stage_items<P, S>(all: Seq<Stages<P>>) -> Seq<ItemView<P, S>>
    decreases all.len(),
{
    if all.len() == 0 {
        Seq::empty()
    } else {
        all_stage_items(all.drop_last()) + stage_items(all.last())
    }
}

/// The two centroids of a fit as they are drawn.
pub open spec fn centroid_items<P, S>(source: P, target: P) -> Seq<ItemView<P, S>> {
    seq![
        plain(ShapeView::Point(source), "LS-HMT-CENTROID"@),
        plain(ShapeView::Point(target), "LS-HMT-CENTROID"@),
    ]
}

/// The labels of a fit as they are drawn.
pub open spec fn label_items<P, S>(fit: FitTexts, at: LabelPlaces<P>, height: S) -> Seq<
    ItemView<P, S>,
> {
    seq![
        plain(ShapeView::Text("1 source"@, at.source, height), "LS-HMT-LABEL"@),
        plain(ShapeView::Text("2 scale x"@ + fit.scale@, at.scale, height), "LS-HMT-LABEL"@),
        plain(
            ShapeView::Text("3 rotate "@ + fit.rotation@ + " deg"@, at.rotation, height),
            "LS-HMT-LABEL"@,
        ),
        plain(
            ShapeView::Text(
                "4 translate dE "@ + fit.east@ + " dN "@ + fit.north@,
                at.translation,
                height,
            ),
            "LS-HMT-LABEL"@,
        ),
        plain(
            ShapeView::Text("5 residual max "@ + fit.worst@, at.residual, height),
            "LS-HMT-LABEL"@,
        ),
    ]
}

/// A fit as it is drawn in stages.
pub open spec fn fit_items<P, S>(
    all: Seq<Stages<P>>,
    source: P,
    target: P,
    fit: FitTexts,
    at: LabelPlaces<P>,
    height: S,
) -> Seq<ItemView<P, S>> {
    all_stage_items(all) + centroid_items(source, target) + label_items(fit, at, height)
}

/// Draws the stages of one control point behind what is drawn already.
fn add_stages<P: Copy, S>(items: &mut Vec<Item<P, S>>, s: &Stages<P>)
    ensures
        item_views(final(items)@) == item_views(old(items)@) + stage_items(*s),
{
    let ghost before = item_views(items@);
    draw(items, Shape::Point(s.source), "LS-HMT-0-SRC");
    draw(items, Shape::Point(s.scaled), "LS-HMT-1-SCALED");
    draw(items, Shape::Point(s.rotated), "LS-HMT-2-ROTATED");
    draw(items, Shape::Point(s.fitted), "LS-HMT-3-FINAL");
    draw(items, Shape::Point(s.target), "LS-HMT-TARGET");
    draw(items, Shape::Line(s.source, s.scaled), "LS-HMT-PATH");
    draw(items, Shape::Line(s.scaled, s.rotated), "LS-HMT-PATH");
    draw(items, Shape::Line(s.rotated, s.fitted), "LS-HMT-PATH");
    draw(items, Shape::Line(s.fitted, s.target), "LS-HMT-RESID");
    assert(item_views(items@) =~= before + stage_items(*s));
}

/// Draws the labels of a fit behind what is drawn already.
fn add_labels<P: Copy, S: Copy>(
    items: &mut Vec<Item<P, S>>,
    fit: &FitTexts,
    at: &LabelPlaces<P>,
    height: S,
)
    ensures
        item_views(final(items)@) == item_views(old(items)@) + label_items(*fit, *at, height),
{
    let ghost before = item_views(items@);
    draw(items, Shape::Text("1 source".to_string(), at.source, height), "LS-HMT-LABEL");
    let scale = "2 scale x".to_string().concat(fit.scale.as_str());
    draw(items, Shape::Text(scale, at.scale, height), "LS-HMT-LABEL");
    let rotation = "3 rotate ".to_string().concat(fit.rotation.as_str()).concat(" deg");
    draw(items, Shape::Text(rotation, at.rotation, height), "LS-HMT-LABEL");
    let translation = "4 translate dE ".to_string().concat(fit.east.as_str()).concat(" dN ").concat(
        fit.north.as_str(),
    );
    draw(items, Shape::Text(translation, at.translation, height), "LS-HMT-LABEL");
    let residual = "5 residual max ".to_string().concat(fit.worst.as_str());
    draw(items, Shape::Text(residual, at.residual, height), "LS-HMT-LABEL");
    assert(item_views(items@) =~= before + label_items(*fit, *at, height));
}

/// Draws a fit in stages: each control point on its way from source to target, the
/// centroids, and what each step does.
pub fn draw_helmert_stages<P: Copy, S: Copy>(
    all: &Vec<Stages<P>>,
    source: P,
    target: P,
    fit: &FitTexts,
    at: &LabelPlaces<P>,
    height: S,
) -> (items: Vec<Item<P, S>>)
    ensures
        item_views(items@) == fit_items(all@, source, target, *fit, *at, height),
        items@.len() == 9 * all@.len() + 7,
{
    let mut items: Vec<Item<P, S>> = Vec::new();
    let mut i: usize = 0;
    proof {
        assert(all@.take(0) =~= Seq::empty());
        assert(item_views(items@) =~= all_stage_items::<P, S>(all@.take(0)));
    }
    while i < all.len()
        invariant
            i <= all.len(),
            item_views(items@) == all_stage_items::<P, S>(all@.take(i as int)),
            items@.len() == 9 * i,
        decreases all.len() - i,
    {
        add_stages(&mut items, &all[i]);
        proof {
            assert(all@.take(i + 1).drop_last() =~= all@.take(i as int));
            assert(item_views(items@).len() == items@.len());
        }
        i += 1;
    }
    assert(all@.take(i as int) =~= all@);
    draw(&mut items, Shape::Point(source), "LS-HMT-CENTROID");
    draw(&mut items, Shape::Point(target), "LS-HMT-CENTROID");
    assert(item_views(items@) =~= all_stage_items::<P, S>(all@) + centroid_items(source, target));
    add_labels(&mut items, fit, at, height);
    assert(item_views(items@).len() == items@.len());
    items
}

// ---------------------------------------------------------------------------
// Point sets
// ---------------------------------------------------------------------------

/// A set of points as it is drawn on a layer.
pub open spec fn point_items<P, S>(points: Seq<P>, layer: Seq<char>) -> Seq<ItemView<P, S>> {
    points.map_values(|p: P| plain(ShapeView::Point(p), layer))
}

/// Draws a triangulation and its nodes, each on a layer of its own.
pub fn draw_surface<P: Copy, S>(
    tin: &Tin<P>,
    tin_layer: &str,
    point_layer: &str,
    name: &str,
) -> (items: Vec<Item<P, S>>)
    requires
        tin.wf(),
    ensures
        item_views(items@) == tin_items::<P, S>(tin.nodes@, tin.edges@, tin_layer@, name@)
            + point_items(tin.nodes@, point_layer@),
{
    let mut items: Vec<Item<P, S>> = draw_tin(&tin.nodes, &tin.edges, tin_layer, name);
    let ghost before = item_views(items@);
    let ghost all = point_items::<P, S>(tin.nodes@, point_layer@);
    let mut i: usize = 0;
    assert(before + all.take(0) =~= before);
    while i < tin.nodes.len()
        invariant
            i <= tin.nodes.len(),
            all == point_items::<P, S>(tin.nodes@, point_layer@),
            item_views(items@) =~= before + all.take(i as int),
        decreases tin.nodes.len() - i,
    {
        draw(&mut items, Shape::Point(tin.nodes[i]), point_layer);
        assert(all.take(i + 1) =~= all.take(i as int).push(all[i as int]));
        i += 1;
    }
    assert(all.take(i as int) =~= all);
    items
}

/// Points before and after a transformation as they are drawn.
pub open spec fn move_items<P, S>(moves: Seq<(P, P)>) -> Seq<ItemView<P, S>>
    decreases moves.len(),
{
    if moves.len() == 0 {
        Seq::empty()
    } else {
        move_items(moves.drop_last()) + seq![
            plain(ShapeView::Point(moves.last().0), "LS-RTS-SRC"@),
            plain(ShapeView::Point(moves.last().1), "LS-RTS-DST"@),
        ]
    }
}

/// Draws points before and after a transformation.
pub fn draw_moves<P: Copy, S>(moves: &Vec<(P, P)>) -> (items: Vec<Item<P, S>>)
    ensures
        item_views(items@) == move_items::<P, S>(moves@),
{
    let mut items: Vec<Item<P, S>> = Vec::new();
    let mut i: usize = 0;
    proof {
        assert(moves@.take(0) =~= Seq::empty());
        assert(item_views(items@) =~= move_items::<P, S>(moves@.take(0)));
    }
    while i < moves.len()
        invariant
            i <= moves.len(),
            item_views(items@) == move_items::<P, S>(moves@.take(i as int)),
        decreases moves.len() - i,
    {
        let m = moves[i];
        draw(&mut items, Shape::Point(m.0), "LS-RTS-SRC");
        draw(&mut items, Shape::Point(m.1), "LS-RTS-DST");
        proof {
            assert(moves@.take(i + 1).drop_last() =~= moves@.take(i as int));
            assert(item_views(items@) =~= move_items::<P, S>(moves@.take(i + 1)));
        }
        i += 1;
    }
    assert(moves@.take(i as int) =~= moves@);
    items
}

/// Draws points before and after a transformation, and the move of its base.
pub fn draw_rts<P: Copy, S>(moves: &Vec<(P, P)>, base: P, to: P) -> (items: Vec<Item<P, S>>)
    ensures
        item_views(items@) == move_items::<P, S>(moves@) + seq![
            plain(ShapeView::Line(base, to), "LS-RTS-BASE"@),
            plain(ShapeView::Point(to), "LS-RTS-BASE"@),
        ],
{
    let mut items: Vec<Item<P, S>> = draw_moves(moves);
    draw(&mut items, Shape::Line(base, to), "LS-RTS-BASE");
    draw(&mut items, Shape::Point(to), "LS-RTS-BASE");
    assert(item_views(items@) =~= move_items::<P, S>(moves@) + seq![
        plain(ShapeView::Line(base, to), "LS-RTS-BASE"@),
        plain(ShapeView::Point(to), "LS-RTS-BASE"@),
    ]);
    items
}

} // verus!
