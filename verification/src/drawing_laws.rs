//! What holds of everything that is drawn: which item shows what.

use vstd::prelude::*;

use crate::drawing::{
    all_stage_items, datum_items, fit_items, inverse_items, move_items, plain, point_items,
    rated_ray_items, rated_resect_items, ray_items, resect_items, stage_items, tagged, tin_items,
    volume_items, FitTexts, ItemView, LabelPlaces, ShapeView, Stages, Tin,
};

verus! {

/// The items of a row of nine are in their place.
proof fn lemma_stages<P, S>(all: Seq<Stages<P>>, i: int, j: int)
    requires
        0 <= i < all.len(),
        0 <= j < 9,
    ensures
        all_stage_items::<P, S>(all).len() == 9 * all.len(),
        all_stage_items::<P, S>(all)[9 * i + j] == stage_items::<P, S>(all[i])[j],
    decreases all.len(),
{
    let before = all.drop_last();
    if before.len() > 0 {
        if i < before.len() {
            lemma_stages::<P, S>(before, i, j);
            assert(before[i] == all[i]);
        } else {
            lemma_stages::<P, S>(before, 0, 0);
        }
    } else {
        assert(all_stage_items::<P, S>(before).len() == 0);
    }
    assert(stage_items::<P, S>(all.last()).len() == 9);
}

proof fn lemma_stages_len<P, S>(all: Seq<Stages<P>>)
    ensures
        all_stage_items::<P, S>(all).len() == 9 * all.len(),
{
    if all.len() > 0 {
        lemma_stages::<P, S>(all, 0, 0);
    }
}

/// The stages of a fit show every control pair, each by nine items of its own: its
/// source, its scaled, its rotated and its fitted place and its target as points,
/// the path between the places, and the residual from the fitted place to the
/// target.
pub proof fn law_every_pair_is_drawn_in_stages<P, S>(
    all: Seq<Stages<P>>,
    source: P,
    target: P,
    fit: FitTexts,
    at: LabelPlaces<P>,
    height: S,
    i: int,
)
    requires
        0 <= i < all.len(),
    ensures
        ({
            let items = fit_items(all, source, target, fit, at, height);
            &&& items.len() == 9 * all.len() + 7
            &&& items[9 * i] == plain(ShapeView::<P, S>::Point(all[i].source), "LS-HMT-0-SRC"@)
            &&& items[9 * i + 1] == plain(ShapeView::<P, S>::Point(all[i].scaled), "LS-HMT-1-SCALED"@)
            &&& items[9 * i + 2] == plain(ShapeView::<P, S>::Point(all[i].rotated), "LS-HMT-2-ROTATED"@)
            &&& items[9 * i + 3] == plain(ShapeView::<P, S>::Point(all[i].fitted), "LS-HMT-3-FINAL"@)
            &&& items[9 * i + 4] == plain(ShapeView::<P, S>::Point(all[i].target), "LS-HMT-TARGET"@)
            &&& items[9 * i + 5] == plain(
                ShapeView::<P, S>::Line(all[i].source, all[i].scaled),
                "LS-HMT-PATH"@,
            )
            &&& items[9 * i + 6] == plain(
                ShapeView::<P, S>::Line(all[i].scaled, all[i].rotated),
                "LS-HMT-PATH"@,
            )
            &&& items[9 * i + 7] == plain(
                ShapeView::<P, S>::Line(all[i].rotated, all[i].fitted),
                "LS-HMT-PATH"@,
            )
            &&& items[9 * i + 8] == plain(
                ShapeView::<P, S>::Line(all[i].fitted, all[i].target),
                "LS-HMT-RESID"@,
            )
        }),
{
    lemma_stages_len::<P, S>(all);
    lemma_stages::<P, S>(all, i, 0);
    lemma_stages::<P, S>(all, i, 1);
    lemma_stages::<P, S>(all, i, 2);
    lemma_stages::<P, S>(all, i, 3);
    lemma_stages::<P, S>(all, i, 4);
    lemma_stages::<P, S>(all, i, 5);
    lemma_stages::<P, S>(all, i, 6);
    lemma_stages::<P, S>(all, i, 7);
    lemma_stages::<P, S>(all, i, 8);
}

/// Behind the pairs of a fit come its two centroids, and then a label for each of
/// its five steps, in the place of that step.
pub proof fn law_a_fit_is_labelled_step_by_step<P, S>(
    all: Seq<Stages<P>>,
    source: P,
    target: P,
    fit: FitTexts,
    at: LabelPlaces<P>,
    height: S,
)
    ensures
        ({
            let items = fit_items(all, source, target, fit, at, height);
            let n = 9 * all.len() as int;
            &&& items[n] == plain(ShapeView::<P, S>::Point(source), "LS-HMT-CENTROID"@)
            &&& items[n + 1] == plain(ShapeView::<P, S>::Point(target), "LS-HMT-CENTROID"@)
            &&& items[n + 2].shape == ShapeView::Text("1 source"@, at.source, height)
            &&& items[n + 3].shape == ShapeView::Text("2 scale x"@ + fit.scale@, at.scale, height)
            &&& items[n + 4].shape == ShapeView::Text(
                "3 rotate "@ + fit.rotation@ + " deg"@,
                at.rotation,
                height,
            )
            &&& items[n + 5].shape == ShapeView::Text(
                "4 translate dE "@ + fit.east@ + " dN "@ + fit.north@,
                at.translation,
                height,
            )
            &&& items[n + 6].shape == ShapeView::Text(
                "5 residual max "@ + fit.worst@,
                at.residual,
                height,
            )
            &&& forall|k: int| n + 2 <= k < n + 7 ==> (#[trigger] items[k]).layer == "LS-HMT-LABEL"@
                && items[k].tag is None
        }),
{
    lemma_stages_len::<P, S>(all);
}

proof fn lemma_rays<P, S>(station: P, knowns: Seq<P>, i: int)
    requires
        0 <= i < knowns.len(),
    ensures
        ({
            let rays = ray_items::<P, S>(station, knowns);
            &&& rays.len() == 2 * knowns.len()
            &&& rays[2 * i] == plain::<P, S>(ShapeView::<P, S>::Point(knowns[i]), "LS-RESECT-KNOWN"@)
            &&& rays[2 * i + 1] == plain::<P, S>(
                ShapeView::<P, S>::Line(station, knowns[i]),
                "LS-RESECT-RAYS"@,
            )
        }),
    decreases knowns.len(),
{
    let before = knowns.drop_last();
    if before.len() > 0 {
        if i < before.len() {
            lemma_rays::<P, S>(station, before, i);
            assert(before[i] == knowns[i]);
        } else {
            lemma_rays::<P, S>(station, before, 0);
        }
    } else {
        assert(ray_items::<P, S>(station, before).len() == 0);
    }
}

/// A resection shows its station, every known point with the ray from the station
/// to it, and its label.
pub proof fn law_every_known_point_has_its_ray<P, S>(
    station: P,
    knowns: Seq<P>,
    label: Seq<char>,
    at: P,
    height: S,
    i: int,
)
    requires
        0 <= i < knowns.len(),
    ensures
        ({
            let items = resect_items(station, knowns, label, at, height);
            &&& items.len() == 2 * knowns.len() + 2
            &&& items[0] == plain(ShapeView::<P, S>::Point(station), "LS-RESECT-STATION"@)
            &&& items[2 * i + 1] == plain(ShapeView::<P, S>::Point(knowns[i]), "LS-RESECT-KNOWN"@)
            &&& items[2 * i + 2] == plain(ShapeView::<P, S>::Line(station, knowns[i]), "LS-RESECT-RAYS"@)
            &&& items.last() == plain(ShapeView::Text(label, at, height), "LS-RESECT-LABEL"@)
        }),
{
    lemma_rays::<P, S>(station, knowns, i);
}

proof fn lemma_rated_rays<P, S>(
    station: P,
    knowns: Seq<P>,
    residuals: Seq<(String, String)>,
    places: Seq<P>,
    height: S,
    i: int,
)
    requires
        0 <= i < knowns.len(),
    ensures
        ({
            let rays = rated_ray_items(station, knowns, residuals, places, height);
            &&& rays.len() == 3 * knowns.len()
            &&& rays[3 * i] == plain(ShapeView::<P, S>::Point(knowns[i]), "LS-RESECT-KNOWN"@)
            &&& rays[3 * i + 1] == plain(ShapeView::<P, S>::Line(station, knowns[i]), "LS-RESECT-RAYS"@)
            &&& rays[3 * i + 2] == plain(
                ShapeView::Text(residuals[i].1@, places[i], height),
                "LS-RESECT-LABEL"@,
            )
        }),
    decreases knowns.len(),
{
    let before = knowns.drop_last();
    if before.len() > 0 {
        if i < before.len() {
            lemma_rated_rays(station, before, residuals, places, height, i);
            assert(before[i] == knowns[i]);
        } else {
            lemma_rated_rays(station, before, residuals, places, height, 0);
        }
    } else {
        assert(rated_ray_items(station, before, residuals, places, height).len() == 0);
    }
}

/// A resection by the combined method shows, beside its station and its label, every
/// known point with the ray to it and the residual of its own shot in its own place.
pub proof fn law_every_ray_has_its_residual<P, S>(
    station: P,
    knowns: Seq<P>,
    residuals: Seq<(String, String)>,
    places: Seq<P>,
    label: Seq<char>,
    at: P,
    height: S,
    i: int,
)
    requires
        0 <= i < knowns.len(),
    ensures
        ({
            let items = rated_resect_items(station, knowns, residuals, places, label, at, height);
            &&& items.len() == 3 * knowns.len() + 2
            &&& items[0] == plain(ShapeView::<P, S>::Point(station), "LS-RESECT-STATION"@)
            &&& items[3 * i + 1] == plain(ShapeView::<P, S>::Point(knowns[i]), "LS-RESECT-KNOWN"@)
            &&& items[3 * i + 2] == plain(ShapeView::<P, S>::Line(station, knowns[i]), "LS-RESECT-RAYS"@)
            &&& items[3 * i + 3] == plain(
                ShapeView::Text(residuals[i].1@, places[i], height),
                "LS-RESECT-LABEL"@,
            )
            &&& items.last() == plain(ShapeView::Text(label, at, height), "LS-RESECT-LABEL"@)
        }),
{
    lemma_rated_rays(station, knowns, residuals, places, height, i);
}

/// A transformation shows every point twice: where it was, and then where it goes.
pub proof fn law_every_move_is_drawn<P, S>(moves: Seq<(P, P)>, i: int)
    requires
        0 <= i < moves.len(),
    ensures
        ({
            let items = move_items::<P, S>(moves);
            &&& items.len() == 2 * moves.len()
            &&& items[2 * i] == plain::<P, S>(ShapeView::<P, S>::Point(moves[i].0), "LS-RTS-SRC"@)
            &&& items[2 * i + 1] == plain::<P, S>(ShapeView::<P, S>::Point(moves[i].1), "LS-RTS-DST"@)
        }),
    decreases moves.len(),
{
    let before = moves.drop_last();
    if before.len() > 0 {
        if i < before.len() {
            law_every_move_is_drawn::<P, S>(before, i);
            assert(before[i] == moves[i]);
        } else {
            law_every_move_is_drawn::<P, S>(before, 0);
        }
    } else {
        assert(move_items::<P, S>(before).len() == 0);
    }
}

/// A triangulation shows every edge of it, from node to node, on one layer and under
/// one name.
pub proof fn law_every_edge_is_drawn<P, S>(
    nodes: Seq<P>,
    edges: Seq<(usize, usize)>,
    layer: Seq<char>,
    name: Seq<char>,
    i: int,
)
    requires
        0 <= i < edges.len(),
    ensures
        tin_items::<P, S>(nodes, edges, layer, name).len() == edges.len(),
        tin_items::<P, S>(nodes, edges, layer, name)[i] == (ItemView {
            shape: ShapeView::<P, S>::Line(nodes[edges[i].0 as int], nodes[edges[i].1 as int]),
            layer,
            tag: Some((name, "TIN"@)),
        }),
{
}

/// A volume shows every edge of the upper surface, then every edge of the lower one,
/// then every segment of the line between cut and fill, each set on a layer of its
/// own, and last the result.
pub proof fn law_a_volume_shows_both_surfaces<P, S>(
    top: Tin<P>,
    bottom: Tin<P>,
    line: Seq<(P, P)>,
    label: Seq<char>,
    at: P,
    height: S,
    i: int,
)
    ensures
        ({
            let items = volume_items(top, bottom, line, label, at, height);
            let (t, b) = (top.edges@.len() as int, bottom.edges@.len() as int);
            &&& items.len() == t + b + line.len() + 1
            &&& 0 <= i < t ==> items[i] == tagged(
                ShapeView::<P, S>::Line(
                    top.nodes@[top.edges@[i].0 as int],
                    top.nodes@[top.edges@[i].1 as int],
                ),
                "LS-TIN-TOP"@,
                "TOP"@,
                "TIN"@,
            )
            &&& 0 <= i < b ==> items[t + i] == tagged(
                ShapeView::<P, S>::Line(
                    bottom.nodes@[bottom.edges@[i].0 as int],
                    bottom.nodes@[bottom.edges@[i].1 as int],
                ),
                "LS-TIN-BOTTOM"@,
                "BOTTOM"@,
                "TIN"@,
            )
            &&& 0 <= i < line.len() ==> items[t + b + i] == tagged(
                ShapeView::<P, S>::Line(line[i].0, line[i].1),
                "LS-CUTFILL"@,
                "CUTFILL"@,
                "CUTFILL"@,
            )
            &&& items.last() == tagged(
                ShapeView::Text(label, at, height),
                "LS-VOLUME-LABEL"@,
                "VOLUME"@,
                "LABEL"@,
            )
        }),
{
}

/// A volume over a datum shows every edge of the surface, then every segment of the
/// contour, and last the result.
pub proof fn law_a_datum_shows_surface_and_contour<P, S>(
    tin: Tin<P>,
    layer: Seq<char>,
    contour: Seq<(P, P)>,
    label: Seq<char>,
    at: P,
    height: S,
    i: int,
)
    ensures
        ({
            let items = datum_items(tin, layer, contour, label, at, height);
            let t = tin.edges@.len() as int;
            &&& items.len() == t + contour.len() + 1
            &&& 0 <= i < t ==> items[i] == tagged(
                ShapeView::<P, S>::Line(
                    tin.nodes@[tin.edges@[i].0 as int],
                    tin.nodes@[tin.edges@[i].1 as int],
                ),
                layer,
                "DATUM"@,
                "TIN"@,
            )
            &&& 0 <= i < contour.len() ==> items[t + i] == tagged(
                ShapeView::<P, S>::Line(contour[i].0, contour[i].1),
                "LS-DATUM"@,
                "DATUM"@,
                "CONTOUR"@,
            )
            &&& items.last() == tagged(
                ShapeView::Text(label, at, height),
                "LS-VOLUME-LABEL"@,
                "DATUM"@,
                "LABEL"@,
            )
        }),
{
}

/// Every point of a set is drawn on its layer.
pub proof fn law_every_point_is_drawn<P, S>(points: Seq<P>, layer: Seq<char>, i: int)
    requires
        0 <= i < points.len(),
    ensures
        point_items::<P, S>(points, layer).len() == points.len(),
        point_items::<P, S>(points, layer)[i] == plain::<P, S>(ShapeView::<P, S>::Point(points[i]), layer),
{
}

/// An inverse shows the line from the one point to the other, its bearing and its
/// length, each where it belongs.
pub proof fn law_an_inverse_shows_bearing_and_length<P, S>(
    from: P,
    to: P,
    bearing: (Seq<char>, P),
    distance: (Seq<char>, P),
    size: S,
)
    ensures
        ({
            let items = inverse_items(from, to, bearing, distance, size);
            &&& items.len() == 3
            &&& items[0].shape == ShapeView::<P, S>::Line(from, to)
            &&& items[1].shape == ShapeView::Text(bearing.0, bearing.1, size)
            &&& items[2].shape == ShapeView::Text(distance.0, distance.1, size)
            &&& forall|k: int| 0 <= k < 3 ==> (#[trigger] items[k]).layer == "LS-INVERSE"@
        }),
{
}

} // verus!
