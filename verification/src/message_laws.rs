//! What the library says: the figures stand where they belong, and the words around
//! them do not depend on the figures.

use vstd::prelude::*;

use crate::adjust::{
    fit_applied, resection_drawn, residuals_of, rts_report, stages_drawn, station_label, steps_of,
    write_inverse, CombinedTexts, Fit, RtsTexts, ThreePointTexts,
};
use crate::console::{Reply, Said};
use crate::dispatch::ImportView;
use crate::import::{imported_of, padded, preview_of, row};
use crate::plan::plan_report;
use crate::pnezd::Record;
use crate::reports::{
    datum_drawn, datum_label, datum_report, exact_of, grid_of, import_landxml, joined, names_of,
    no_bottom, no_datum_surface, no_top, store_surface, triangles_in, volume_drawn, volume_label,
    volume_report_of, Built, CutFill, GridVolume, MeshDrawing, Named, BUILD_FIRST,
};
use crate::results::{
    combined_lines, combined_message, datum_message, helmert_message, inverse_message, rts_message,
    surface_message, three_point_lines, three_point_message, volume_message, GridResult, RtsResult,
    HELMERT_TITLE,
};
use crate::surfaces::Surface;
use crate::text::{decimal, views};

verus! {

/// Words with figures between them: the first `n` figures and the words around them.
pub open spec fn woven_up_to(words: Seq<Seq<char>>, figures: Seq<Seq<char>>, n: nat) -> Seq<char>
    decreases n,
{
    if n == 0 {
        words[0]
    } else {
        woven_up_to(words, figures, (n - 1) as nat) + figures[n - 1] + words[n as int]
    }
}

/// A text is made of words with figures between them.
pub open spec fn is_woven(words: Seq<Seq<char>>, figures: Seq<Seq<char>>, text: Seq<char>) -> bool {
    words.len() == figures.len() + 1 && text == woven_up_to(words, figures, figures.len())
}

/// Two texts have the same words around their figures.
pub open spec fn reads_alike(
    a: Seq<char>,
    x: Seq<Seq<char>>,
    b: Seq<char>,
    y: Seq<Seq<char>>,
) -> bool {
    exists|w: Seq<Seq<char>>| #[trigger] is_woven(w, x, a) && #[trigger] is_woven(w, y, b)
}

/// What is said, however it is said.
pub open spec fn said(s: Said) -> Seq<char> {
    match s {
        Said::Info(t) => t,
        Said::Output(t) => t,
        Said::Error(t) => t,
    }
}

/// An inverse is written with its distance, its azimuth and its bearing, in this
/// order. The words around them are always the same.
pub proof fn law_inverses_read_alike(
    distance_a: &str,
    azimuth_a: &str,
    bearing_a: &str,
    distance_b: &str,
    azimuth_b: &str,
    bearing_b: &str,
    r_a: String,
    r_b: String,
)
    requires
        call_ensures(write_inverse, (distance_a, azimuth_a, bearing_a), r_a),
        call_ensures(write_inverse, (distance_b, azimuth_b, bearing_b), r_b),
    ensures
        reads_alike(
            r_a@,
            seq![distance_a@, azimuth_a@, bearing_a@],
            r_b@,
            seq![distance_b@, azimuth_b@, bearing_b@],
        ),
{
    let w = seq!["distance "@, ", azimuth "@, "\u{b0}, bearing "@, Seq::<char>::empty()];
    reveal_with_fuel(woven_up_to, 5);
    let x = seq![distance_a@, azimuth_a@, bearing_a@];
    assert(woven_up_to(w, x, 3) =~= r_a@);
    assert(is_woven(w, x, r_a@));
    let x = seq![distance_b@, azimuth_b@, bearing_b@];
    assert(woven_up_to(w, x, 3) =~= r_b@);
    assert(is_woven(w, x, r_b@));
}

/// A transformation is reported with the number of entities, as one entity only
/// where it is one, and with rotation, scale, base and goal. The words around them
/// are always the same.
pub proof fn law_transformations_are_reported_alike(
    count_a: usize,
    t_a: &RtsTexts,
    count_b: usize,
    t_b: &RtsTexts,
    r_a: Reply,
    r_b: Reply,
)
    requires
        call_ensures(rts_report, (count_a, t_a), r_a),
        call_ensures(rts_report, (count_b, t_b), r_b),
    ensures
        r_a@ is Output,
        reads_alike(
            said(r_a@),
            seq![
                decimal(count_a as nat),
                if count_a == 1 {
                    "entity"@
                } else {
                    "entities"@
                },
                t_a.rotation@,
                t_a.scale@,
                t_a.base_north@,
                t_a.base_east@,
                t_a.to_north@,
                t_a.to_east@,
            ],
            said(r_b@),
            seq![
                decimal(count_b as nat),
                if count_b == 1 {
                    "entity"@
                } else {
                    "entities"@
                },
                t_b.rotation@,
                t_b.scale@,
                t_b.base_north@,
                t_b.base_east@,
                t_b.to_north@,
                t_b.to_east@,
            ],
        ),
{
    let w = seq![
        "LS_RTS: transformed "@,
        " "@,
        " \u{2014} rot "@,
        "\u{b0} CCW+, scale "@,
        ", base ("@,
        ","@,
        ") -> ("@,
        ","@,
        ")."@,
    ];
    reveal_with_fuel(woven_up_to, 10);
    let x = seq![
        decimal(count_a as nat),
        if count_a == 1 {
            "entity"@
        } else {
            "entities"@
        },
        t_a.rotation@,
        t_a.scale@,
        t_a.base_north@,
        t_a.base_east@,
        t_a.to_north@,
        t_a.to_east@,
    ];
    assert(woven_up_to(w, x, 8) =~= said(r_a@));
    assert(is_woven(w, x, said(r_a@)));
    let x = seq![
        decimal(count_b as nat),
        if count_b == 1 {
            "entity"@
        } else {
            "entities"@
        },
        t_b.rotation@,
        t_b.scale@,
        t_b.base_north@,
        t_b.base_east@,
        t_b.to_north@,
        t_b.to_east@,
    ];
    assert(woven_up_to(w, x, 8) =~= said(r_b@));
    assert(is_woven(w, x, said(r_b@)));
}

/// An applied fit is reported with the number of entities, as one entity only where
/// it is one. The words around them are always the same.
pub proof fn law_applied_fits_are_reported_alike(
    count_a: usize,
    count_b: usize,
    r_a: Reply,
    r_b: Reply,
)
    requires
        call_ensures(fit_applied, (count_a,), r_a),
        call_ensures(fit_applied, (count_b,), r_b),
    ensures
        r_a@ is Output,
        reads_alike(
            said(r_a@),
            seq![decimal(count_a as nat), if count_a == 1 { "y"@ } else { "ies"@ }],
            said(r_b@),
            seq![decimal(count_b as nat), if count_b == 1 { "y"@ } else { "ies"@ }],
        ),
{
    let w = seq!["LS_HELMERT: applied fit to "@, " entit"@, "."@];
    reveal_with_fuel(woven_up_to, 4);
    let x = seq![decimal(count_a as nat), if count_a == 1 { "y"@ } else { "ies"@ }];
    assert(woven_up_to(w, x, 2) =~= said(r_a@));
    assert(is_woven(w, x, said(r_a@)));
    let x = seq![decimal(count_b as nat), if count_b == 1 { "y"@ } else { "ies"@ }];
    assert(woven_up_to(w, x, 2) =~= said(r_b@));
    assert(is_woven(w, x, said(r_b@)));
}

/// Drawn stages are reported with their number. The words around them are always the
/// same.
pub proof fn law_stages_are_reported_alike(
    n_a: usize,
    n_b: usize,
    r_a: Reply,
    r_b: Reply,
)
    requires
        call_ensures(stages_drawn, (n_a,), r_a),
        call_ensures(stages_drawn, (n_b,), r_b),
    ensures
        r_a@ is Output,
        reads_alike(
            said(r_a@),
            seq![decimal(n_a as nat)],
            said(r_b@),
            seq![decimal(n_b as nat)],
        ),
{
    let w = seq![
        "LS_HELMERT: drew "@,
        " stage entities (layers LS-HMT-0-SRC..3-FINAL, TARGET, RESID, PATH)."@,
    ];
    reveal_with_fuel(woven_up_to, 3);
    let x = seq![decimal(n_a as nat)];
    assert(woven_up_to(w, x, 1) =~= said(r_a@));
    assert(is_woven(w, x, said(r_a@)));
    let x = seq![decimal(n_b as nat)];
    assert(woven_up_to(w, x, 1) =~= said(r_b@));
    assert(is_woven(w, x, said(r_b@)));
}

/// A drawn resection is reported with the number of its rays. The words around them
/// are always the same.
pub proof fn law_rays_are_reported_alike(
    rays_a: usize,
    rays_b: usize,
    r_a: Reply,
    r_b: Reply,
)
    requires
        call_ensures(resection_drawn, (rays_a,), r_a),
        call_ensures(resection_drawn, (rays_b,), r_b),
    ensures
        r_a@ is Output,
        reads_alike(
            said(r_a@),
            seq![decimal(rays_a as nat)],
            said(r_b@),
            seq![decimal(rays_b as nat)],
        ),
{
    let w = seq![
        "LS_RESECT: drew station + "@,
        " ray(s) (layers LS-RESECT-STATION/KNOWN/RAYS/LABEL)."@,
    ];
    reveal_with_fuel(woven_up_to, 3);
    let x = seq![decimal(rays_a as nat)];
    assert(woven_up_to(w, x, 1) =~= said(r_a@));
    assert(is_woven(w, x, said(r_a@)));
    let x = seq![decimal(rays_b as nat)];
    assert(woven_up_to(w, x, 1) =~= said(r_b@));
    assert(is_woven(w, x, said(r_b@)));
}

/// A station is labelled with its easting and then its northing. The words around
/// them are always the same.
pub proof fn law_stations_are_labelled_alike(
    east_a: &str,
    north_a: &str,
    east_b: &str,
    north_b: &str,
    r_a: String,
    r_b: String,
)
    requires
        call_ensures(station_label, (east_a, north_a), r_a),
        call_ensures(station_label, (east_b, north_b), r_b),
    ensures
        reads_alike(
            r_a@,
            seq![east_a@, north_a@],
            r_b@,
            seq![east_b@, north_b@],
        ),
{
    let w = seq!["STA E"@, " N"@, Seq::<char>::empty()];
    reveal_with_fuel(woven_up_to, 4);
    let x = seq![east_a@, north_a@];
    assert(woven_up_to(w, x, 2) =~= r_a@);
    assert(is_woven(w, x, r_a@));
    let x = seq![east_b@, north_b@];
    assert(woven_up_to(w, x, 2) =~= r_b@);
    assert(is_woven(w, x, r_b@));
}

/// A drawn volume is reported with the edges of the upper surface, those of the
/// lower one and the segments of the line between cut and fill. The words around
/// them are always the same.
pub proof fn law_drawn_volumes_are_reported_alike(
    top_a: usize,
    bottom_a: usize,
    line_a: usize,
    top_b: usize,
    bottom_b: usize,
    line_b: usize,
    r_a: Reply,
    r_b: Reply,
)
    requires
        call_ensures(volume_drawn, (top_a, bottom_a, line_a), r_a),
        call_ensures(volume_drawn, (top_b, bottom_b, line_b), r_b),
    ensures
        r_a@ is Output,
        reads_alike(
            said(r_a@),
            seq![decimal(top_a as nat), decimal(bottom_a as nat), decimal(line_a as nat)],
            said(r_b@),
            seq![decimal(top_b as nat), decimal(bottom_b as nat), decimal(line_b as nat)],
        ),
{
    let w = seq![
        "LS_VOLUME: drew TOP TIN ("@,
        " edges), BOTTOM TIN ("@,
        " edges), cut/fill line ("@,
        " seg), result label."@,
    ];
    reveal_with_fuel(woven_up_to, 5);
    let x = seq![decimal(top_a as nat), decimal(bottom_a as nat), decimal(line_a as nat)];
    assert(woven_up_to(w, x, 3) =~= said(r_a@));
    assert(is_woven(w, x, said(r_a@)));
    let x = seq![decimal(top_b as nat), decimal(bottom_b as nat), decimal(line_b as nat)];
    assert(woven_up_to(w, x, 3) =~= said(r_b@));
    assert(is_woven(w, x, said(r_b@)));
}

/// A volume is labelled with cut, fill and net. The words around them are always the
/// same.
pub proof fn law_volumes_are_labelled_alike(
    v_a: &CutFill,
    v_b: &CutFill,
    r_a: String,
    r_b: String,
)
    requires
        call_ensures(volume_label, (v_a,), r_a),
        call_ensures(volume_label, (v_b,), r_b),
    ensures
        reads_alike(
            r_a@,
            seq![v_a.cut@, v_a.fill@, v_a.net@],
            r_b@,
            seq![v_b.cut@, v_b.fill@, v_b.net@],
        ),
{
    let w = seq!["CUT "@, "  FILL "@, "  NET "@, Seq::<char>::empty()];
    reveal_with_fuel(woven_up_to, 5);
    let x = seq![v_a.cut@, v_a.fill@, v_a.net@];
    assert(woven_up_to(w, x, 3) =~= r_a@);
    assert(is_woven(w, x, r_a@));
    let x = seq![v_b.cut@, v_b.fill@, v_b.net@];
    assert(woven_up_to(w, x, 3) =~= r_b@);
    assert(is_woven(w, x, r_b@));
}

/// A volume over a datum is labelled with the elevation before cut, fill and net.
/// The words around them are always the same.
pub proof fn law_datums_are_labelled_alike(
    elevation_a: &str,
    v_a: &CutFill,
    elevation_b: &str,
    v_b: &CutFill,
    r_a: String,
    r_b: String,
)
    requires
        call_ensures(datum_label, (elevation_a, v_a), r_a),
        call_ensures(datum_label, (elevation_b, v_b), r_b),
    ensures
        reads_alike(
            r_a@,
            seq![elevation_a@, v_a.cut@, v_a.fill@, v_a.net@],
            r_b@,
            seq![elevation_b@, v_b.cut@, v_b.fill@, v_b.net@],
        ),
{
    let w = seq!["ELEV "@, "  "@ + "CUT "@, "  FILL "@, "  NET "@, Seq::<char>::empty()];
    reveal_with_fuel(woven_up_to, 6);
    let x = seq![elevation_a@, v_a.cut@, v_a.fill@, v_a.net@];
    assert(woven_up_to(w, x, 4) =~= r_a@);
    assert(is_woven(w, x, r_a@));
    let x = seq![elevation_b@, v_b.cut@, v_b.fill@, v_b.net@];
    assert(woven_up_to(w, x, 4) =~= r_b@);
    assert(is_woven(w, x, r_b@));
}

/// A volume over a datum is reported with the elevation, cut, fill, net, the nodes
/// and the triangles. The words around them are always the same.
pub proof fn law_datums_are_reported_alike(
    elevation_a: &str,
    v_a: &CutFill,
    nodes_a: usize,
    triangles_a: usize,
    elevation_b: &str,
    v_b: &CutFill,
    nodes_b: usize,
    triangles_b: usize,
    r_a: Reply,
    r_b: Reply,
)
    requires
        call_ensures(datum_report, (elevation_a, v_a, nodes_a, triangles_a), r_a),
        call_ensures(datum_report, (elevation_b, v_b, nodes_b, triangles_b), r_b),
    ensures
        r_a@ is Output,
        reads_alike(
            said(r_a@),
            seq![
                elevation_a@,
                v_a.cut@,
                v_a.fill@,
                v_a.net@,
                decimal(nodes_a as nat),
                decimal(triangles_a as nat),
            ],
            said(r_b@),
            seq![
                elevation_b@,
                v_b.cut@,
                v_b.fill@,
                v_b.net@,
                decimal(nodes_b as nat),
                decimal(triangles_b as nat),
            ],
        ),
{
    let w = seq![
        "LS_DATUM (vs elev "@,
        "): cut "@,
        " (above), fill "@,
        " (below), net "@,
        " ["@,
        " pts, "@,
        " triangles]."@,
    ];
    reveal_with_fuel(woven_up_to, 8);
    let x = seq![
        elevation_a@,
        v_a.cut@,
        v_a.fill@,
        v_a.net@,
        decimal(nodes_a as nat),
        decimal(triangles_a as nat),
    ];
    assert(woven_up_to(w, x, 6) =~= said(r_a@));
    assert(is_woven(w, x, said(r_a@)));
    let x = seq![
        elevation_b@,
        v_b.cut@,
        v_b.fill@,
        v_b.net@,
        decimal(nodes_b as nat),
        decimal(triangles_b as nat),
    ];
    assert(woven_up_to(w, x, 6) =~= said(r_b@));
    assert(is_woven(w, x, said(r_b@)));
}

/// A drawn datum is reported with its edges and the segments of its contour. The
/// words around them are always the same.
pub proof fn law_drawn_datums_are_reported_alike(
    edges_a: usize,
    contour_a: usize,
    edges_b: usize,
    contour_b: usize,
    r_a: Reply,
    r_b: Reply,
)
    requires
        call_ensures(datum_drawn, (edges_a, contour_a), r_a),
        call_ensures(datum_drawn, (edges_b, contour_b), r_b),
    ensures
        r_a@ is Output,
        reads_alike(
            said(r_a@),
            seq![decimal(edges_a as nat), decimal(contour_a as nat)],
            said(r_b@),
            seq![decimal(edges_b as nat), decimal(contour_b as nat)],
        ),
{
    let w = seq!["LS_DATUM: drew TIN ("@, " edges), datum contour ("@, " seg), result label."@];
    reveal_with_fuel(woven_up_to, 4);
    let x = seq![decimal(edges_a as nat), decimal(contour_a as nat)];
    assert(woven_up_to(w, x, 2) =~= said(r_a@));
    assert(is_woven(w, x, said(r_a@)));
    let x = seq![decimal(edges_b as nat), decimal(contour_b as nat)];
    assert(woven_up_to(w, x, 2) =~= said(r_b@));
    assert(is_woven(w, x, said(r_b@)));
}

/// A surface is told with its name, its nodes, its triangles, its edges, its area
/// and where it went. The words around them are always the same.
pub proof fn law_surfaces_are_told_alike(
    name_a: &str,
    nodes_a: usize,
    triangles_a: usize,
    edges_a: usize,
    area_a: &str,
    out_a: &str,
    name_b: &str,
    nodes_b: usize,
    triangles_b: usize,
    edges_b: usize,
    area_b: &str,
    out_b: &str,
    r_a: String,
    r_b: String,
)
    requires
        call_ensures(surface_message, (name_a, nodes_a, triangles_a, edges_a, area_a, out_a), r_a),
        call_ensures(surface_message, (name_b, nodes_b, triangles_b, edges_b, area_b, out_b), r_b),
    ensures
        reads_alike(
            r_a@,
            seq![
                name_a@,
                decimal(nodes_a as nat),
                decimal(triangles_a as nat),
                decimal(edges_a as nat),
                area_a@,
                out_a@,
            ],
            r_b@,
            seq![
                name_b@,
                decimal(nodes_b as nat),
                decimal(triangles_b as nat),
                decimal(edges_b as nat),
                area_b@,
                out_b@,
            ],
        ),
{
    let w = seq![
        "surface \""@,
        "\": "@,
        " pts, "@,
        " triangles, "@,
        " TIN edges, plan area "@,
        " -> "@,
        Seq::<char>::empty(),
    ];
    reveal_with_fuel(woven_up_to, 8);
    let x = seq![
        name_a@,
        decimal(nodes_a as nat),
        decimal(triangles_a as nat),
        decimal(edges_a as nat),
        area_a@,
        out_a@,
    ];
    assert(woven_up_to(w, x, 6) =~= r_a@);
    assert(is_woven(w, x, r_a@));
    let x = seq![
        name_b@,
        decimal(nodes_b as nat),
        decimal(triangles_b as nat),
        decimal(edges_b as nat),
        area_b@,
        out_b@,
    ];
    assert(woven_up_to(w, x, 6) =~= r_b@);
    assert(is_woven(w, x, r_b@));
}

/// A volume over a datum is told with the surface, the elevation, cut, fill, net,
/// the nodes, the triangles, where it went and the segments of the contour. The
/// words around them are always the same.
pub proof fn law_datums_are_told_alike(
    name_a: &str,
    elevation_a: &str,
    v_a: &CutFill,
    nodes_a: usize,
    triangles_a: usize,
    out_a: &str,
    segments_a: usize,
    name_b: &str,
    elevation_b: &str,
    v_b: &CutFill,
    nodes_b: usize,
    triangles_b: usize,
    out_b: &str,
    segments_b: usize,
    r_a: String,
    r_b: String,
)
    requires
        call_ensures(datum_message, (name_a, elevation_a, v_a, nodes_a, triangles_a, out_a, segments_a), r_a),
        call_ensures(datum_message, (name_b, elevation_b, v_b, nodes_b, triangles_b, out_b, segments_b), r_b),
    ensures
        reads_alike(
            r_a@,
            seq![
                name_a@,
                elevation_a@,
                v_a.cut@,
                v_a.fill@,
                v_a.net@,
                decimal(nodes_a as nat),
                decimal(triangles_a as nat),
                out_a@,
                decimal(segments_a as nat),
            ],
            r_b@,
            seq![
                name_b@,
                elevation_b@,
                v_b.cut@,
                v_b.fill@,
                v_b.net@,
                decimal(nodes_b as nat),
                decimal(triangles_b as nat),
                out_b@,
                decimal(segments_b as nat),
            ],
        ),
{
    let w = seq![
        "datum \""@,
        "\" vs elev "@,
        ": cut "@,
        " (above), fill "@,
        " (below), net "@,
        " ["@,
        " pts, "@,
        " triangles]\nDXF -> "@,
        " (datum contour: "@,
        " seg)"@,
    ];
    reveal_with_fuel(woven_up_to, 11);
    let x = seq![
        name_a@,
        elevation_a@,
        v_a.cut@,
        v_a.fill@,
        v_a.net@,
        decimal(nodes_a as nat),
        decimal(triangles_a as nat),
        out_a@,
        decimal(segments_a as nat),
    ];
    assert(woven_up_to(w, x, 9) =~= r_a@);
    assert(is_woven(w, x, r_a@));
    let x = seq![
        name_b@,
        elevation_b@,
        v_b.cut@,
        v_b.fill@,
        v_b.net@,
        decimal(nodes_b as nat),
        decimal(triangles_b as nat),
        out_b@,
        decimal(segments_b as nat),
    ];
    assert(woven_up_to(w, x, 9) =~= r_b@);
    assert(is_woven(w, x, r_b@));
}

/// A transformation is told with its surface, its points, its figures and where it
/// went, and behind that with the files that were written besides, if any.
pub proof fn law_what_was_written_is_told_last(
    name: &str,
    points: usize,
    t: &RtsResult,
    out: &str,
    csv: &Option<String>,
    anim: &Option<String>,
    none: &Option<String>,
    r: String,
    plain: String,
)
    requires
        none is None,
        call_ensures(rts_message, (name, points, t, out, csv, anim), r),
        call_ensures(rts_message, (name, points, t, out, none, none), plain),
    ensures
        r@ == plain@ + (match csv {
            Some(p) => "; CSV -> "@ + p@,
            None => Seq::empty(),
        }) + (match anim {
            Some(p) => "; anim -> "@ + p@,
            None => Seq::empty(),
        }),
{
}

/// A fit is told with all of its steps and residuals, then with what it was applied to,
/// if anything, then with its animation, if there is one, and at the end with where
/// the stages went.
pub proof fn law_what_followed_a_fit_is_told(
    f: &Fit,
    applied: Option<(usize, &str)>,
    anim: &Option<String>,
    none: &Option<String>,
    out: &str,
    r: String,
    plain: String,
)
    requires
        none is None,
        call_ensures(helmert_message, (f, applied, anim, out), r),
        call_ensures(helmert_message, (f, None, none, out), plain),
    ensures
        exists|steps: Seq<char>|
            {
                &&& plain@ == #[trigger] (steps + "\nDXF (stages) -> "@) + out@
                &&& r@ == steps + (match applied {
                    Some((n, path)) => "\napplied to "@ + decimal(n as nat) + " points from "@ + path@,
                    None => Seq::empty(),
                }) + (match anim {
                    Some(p) => "\nanimation -> "@ + p@,
                    None => Seq::empty(),
                }) + "\nDXF (stages) -> "@ + out@
            },
{
    let steps = joined(
        seq![HELMERT_TITLE@] + steps_of(*f, true)
            + residuals_of(views(f.residuals@)),
        "\n"@,
    );
    let empty: Seq<char> = Seq::empty();
    assert(steps + empty + empty =~= steps);
    assert(plain@ == (steps + "\nDXF (stages) -> "@) + out@);
}

/// A station is told with its figures, then with its animation, if there is one, and
/// at the end with where it went, by either method.
pub proof fn law_the_animation_of_a_station_is_told(
    c: &CombinedTexts,
    t: &ThreePointTexts,
    anim: &Option<String>,
    none: &Option<String>,
    out: &str,
    r: (String, String),
    plain: (String, String),
)
    requires
        none is None,
        call_ensures(combined_message, (c, anim, out), r.0),
        call_ensures(combined_message, (c, none, out), plain.0),
        call_ensures(three_point_message, (t, anim, out), r.1),
        call_ensures(three_point_message, (t, none, out), plain.1),
    ensures
        is_told_with(r.0@, plain.0@, anim, out@),
        is_told_with(r.1@, plain.1@, anim, out@),
{
    let empty: Seq<char> = Seq::empty();
    let a = joined(combined_lines(*c), "\n"@);
    let b = joined(three_point_lines(*t), "\n"@);
    assert(a + empty =~= a);
    assert(b + empty =~= b);
    assert(plain.0@ == (a + "\nDXF -> "@) + out@);
    assert(plain.1@ == (b + "\nDXF -> "@) + out@);
}

/// A text says what another says, with an animation before where the drawing went.
pub open spec fn is_told_with(
    text: Seq<char>,
    plain: Seq<char>,
    anim: &Option<String>,
    out: Seq<char>,
) -> bool {
    exists|figures: Seq<char>|
        {
            &&& plain == #[trigger] (figures + "\nDXF -> "@) + out
            &&& text == figures + (match anim {
                Some(p) => "\nanim -> "@ + p@,
                None => Seq::empty(),
            }) + "\nDXF -> "@ + out
        }
}

/// An inverse is told as it is written, and with its animation behind that, if there is
/// one.
pub proof fn law_the_animation_of_an_inverse_is_told(
    distance: &str,
    azimuth: &str,
    bearing: &str,
    anim: &Option<String>,
    r: String,
    plain: String,
)
    requires
        call_ensures(inverse_message, (distance, azimuth, bearing, anim), r),
        call_ensures(write_inverse, (distance, azimuth, bearing), plain),
    ensures
        r@ == plain@ + (match anim {
            Some(p) => "\nanim -> "@ + p@,
            None => Seq::empty(),
        }),
{
}

/// The figures of the exact method: cut, fill, net and how many points the upper and
/// the lower surface have.
pub open spec fn are_exact_figures(v: CutFill, top: nat, bottom: nat, text: Seq<char>) -> bool {
    is_woven(
        seq![
            "volume (exact TIN overlay): cut "@,
            ", fill "@,
            ", net "@,
            " [top "@,
            " pts, bottom "@,
            " pts]"@,
        ],
        seq![v.cut@, v.fill@, v.net@, decimal(top), decimal(bottom)],
        text,
    )
}

/// A volume is told with the figures of the exact method, then with those of the grid
/// method or with the step that was no number, if a grid was asked for, and at the
/// end with where it went.
pub proof fn law_volumes_are_told(
    exact: &CutFill,
    top: usize,
    bottom: usize,
    grid: &Option<GridResult>,
    none: &Option<GridResult>,
    out: &str,
    segments: usize,
    r: String,
    plain: String,
)
    requires
        none is None,
        call_ensures(volume_message, (exact, top, bottom, grid, out, segments), r),
        call_ensures(volume_message, (exact, top, bottom, none, out, segments), plain),
    ensures
        exists|figures: Seq<char>|
            {
                let end = "\nDXF -> "@ + out@ + " (cut/fill line: "@ + decimal(segments as nat) + " seg)"@;
                &&& #[trigger] are_exact_figures(*exact, top as nat, bottom as nat, figures)
                &&& plain@ == figures + end
                &&& grid matches Some(GridResult::Ignored(s)) ==> r@ == figures
                    + "\n(ignoring invalid --grid \""@ + s@ + "\")"@ + end
                &&& grid matches Some(GridResult::Volume(g)) ==> r@ == figures + "\nvolume (grid @ "@
                    + g.step@ + "): cut "@ + g.volumes.cut@ + ", fill "@ + g.volumes.fill@ + ", net "@
                    + g.volumes.net@ + ", plan area "@ + g.area@ + ", "@ + decimal(g.cells as nat)
                    + " cells"@ + end
            },
{
    lemma_exact_figures(*exact, top as nat, bottom as nat);
    let figures = "volume "@ + exact_of(*exact, top as nat, bottom as nat);
    let seg = decimal(segments as nat);
    lemma_regroup(figures, Seq::empty(), "\nDXF -> "@, out@, " (cut/fill line: "@, seg, " seg)"@);
    assert(figures + Seq::<char>::empty() =~= figures);
    if let Some(GridResult::Ignored(s)) = grid {
        let line = "\n(ignoring invalid --grid \""@ + s@ + "\")"@;
        lemma_regroup(figures, line, "\nDXF -> "@, out@, " (cut/fill line: "@, seg, " seg)"@);
        assert(figures + line =~= figures + "\n(ignoring invalid --grid \""@ + s@ + "\")"@);
    }
    if let Some(GridResult::Volume(g)) = grid {
        let line = "\nvolume "@ + grid_of(*g);
        lemma_regroup(figures, line, "\nDXF -> "@, out@, " (cut/fill line: "@, seg, " seg)"@);
        lemma_grid_figures(figures, *g);
    }
}

proof fn lemma_exact_figures(v: CutFill, top: nat, bottom: nat)
    ensures
        are_exact_figures(v, top, bottom, "volume "@ + exact_of(v, top, bottom)),
{
    reveal_strlit("volume (exact TIN overlay): cut ");
    reveal_strlit("volume ");
    reveal_strlit("(exact TIN overlay): ");
    reveal_strlit("cut ");
    assert("volume "@ + "(exact TIN overlay): "@ + "cut "@ =~= "volume (exact TIN overlay): cut "@);
    reveal_with_fuel(woven_up_to, 7);
    let w = seq![
        "volume (exact TIN overlay): cut "@,
        ", fill "@,
        ", net "@,
        " [top "@,
        " pts, bottom "@,
        " pts]"@,
    ];
    let x = seq![v.cut@, v.fill@, v.net@, decimal(top), decimal(bottom)];
    assert(woven_up_to(w, x, 5) =~= "volume "@ + exact_of(v, top, bottom));
}

proof fn lemma_grid_figures(figures: Seq<char>, g: GridVolume)
    ensures
        figures + ("\nvolume "@ + grid_of(g)) == figures + "\nvolume (grid @ "@ + g.step@
            + "): cut "@ + g.volumes.cut@ + ", fill "@ + g.volumes.fill@ + ", net "@ + g.volumes.net@
            + ", plan area "@ + g.area@ + ", "@ + decimal(g.cells as nat) + " cells"@,
{
    reveal_strlit("cut ");
    reveal_strlit("\nvolume (grid @ ");
    reveal_strlit("\nvolume ");
    reveal_strlit("(grid @ ");
    reveal_strlit("): ");
    reveal_strlit("): cut ");
    assert("\nvolume "@ + "(grid @ "@ =~= "\nvolume (grid @ "@);
    assert("): "@ + "cut "@ =~= "): cut "@);
    assert(figures + ("\nvolume "@ + grid_of(g)) =~= figures + "\nvolume (grid @ "@ + g.step@
        + "): cut "@ + g.volumes.cut@ + ", fill "@ + g.volumes.fill@ + ", net "@ + g.volumes.net@
        + ", plan area "@ + g.area@ + ", "@ + decimal(g.cells as nat) + " cells"@);
}

proof fn lemma_regroup(
    a: Seq<char>,
    b: Seq<char>,
    c: Seq<char>,
    d: Seq<char>,
    e: Seq<char>,
    f: Seq<char>,
    g: Seq<char>,
)
    ensures
        a + b + c + d + e + f + g == a + b + (c + d + e + f + g),
{
    assert(a + b + c + d + e + f + g =~= a + b + (c + d + e + f + g));
}

/// A surface that is missing is named, with why and with the surfaces that are known.
/// All three commands say it in the same words behind the command's name, and for the
/// upper surface of a volume with advice behind that.
pub proof fn law_missing_surfaces_are_told_alike(
    token: &str,
    why: &str,
    known: &Vec<String>,
    top: Reply,
    bottom: Reply,
    datum: Reply,
)
    requires
        call_ensures(no_top, (token, why, known), top),
        call_ensures(no_bottom, (token, why, known), bottom),
        call_ensures(no_datum_surface, (token, why, known), datum),
    ensures
        top@ is Error && bottom@ is Error && datum@ is Error,
        said(top@) == said(bottom@) + BUILD_FIRST@,
        said(bottom@) == "LS_VOLUME: no surface \""@ + token@ + "\" ("@ + why@ + "). Known surfaces: ["@
            + joined(views(known@), ", "@) + "]."@,
        reads_alike(said(bottom@), seq!["LS_VOLUME"@], said(datum@), seq!["LS_DATUM"@]),
{
    reveal_strlit("");
    reveal_strlit("LS_VOLUME: no surface \"");
    reveal_strlit("LS_VOLUME");
    reveal_strlit(": no surface \"");
    let empty: Seq<char> = Seq::empty();
    assert(""@ =~= empty);
    assert("LS_VOLUME"@ + ": no surface \""@ =~= "LS_VOLUME: no surface \""@);
    let rest = ": no surface \""@ + token@ + "\" ("@ + why@ + "). Known surfaces: ["@ + joined(
        views(known@),
        ", "@,
    ) + "]."@;
    assert(said(bottom@) =~= "LS_VOLUME: no surface \""@ + token@ + "\" ("@ + why@
        + "). Known surfaces: ["@ + joined(views(known@), ", "@) + "]."@);
    assert(said(top@) =~= said(bottom@) + BUILD_FIRST@);
    reveal_with_fuel(woven_up_to, 3);
    let w = seq![empty, rest];
    assert(woven_up_to(w, seq!["LS_VOLUME"@], 1) =~= said(bottom@));
    assert(woven_up_to(w, seq!["LS_DATUM"@], 1) =~= said(datum@));
    assert(is_woven(w, seq!["LS_VOLUME"@], said(bottom@)));
    assert(is_woven(w, seq!["LS_DATUM"@], said(datum@)));
}

/// A surface that is kept is reported with its name, its nodes, its triangles, its
/// edges, its layer and its area.
pub proof fn law_kept_surfaces_are_reported<P: Copy, S>(
    name: String,
    surface: &Surface<P>,
    edges: &Vec<(usize, usize)>,
    area: &str,
    r: Built<P, S>,
)
    requires
        call_ensures(store_surface::<P, S>, (name, surface, edges, area), r),
    ensures
        r.report@ is Output,
        is_woven(
            seq![
                "LS_SURFACE: stored \""@,
                "\" \u{2014} "@,
                " pts, "@,
                " triangles, "@,
                " TIN edges on layer "@,
                "; plan area "@,
                ". (Use it in LS_VOLUME / LS_DATUM by name.)"@,
            ],
            seq![
                name@,
                decimal(surface.nodes@.len()),
                decimal(surface.triangles@.len()),
                decimal(edges@.len()),
                "LS-TIN-"@ + name@,
                area@,
            ],
            said(r.report@),
        ),
{
    reveal_with_fuel(woven_up_to, 8);
}

/// Imported surfaces are reported with how many they are, their names and how many
/// triangles they have together.
pub proof fn law_imported_surfaces_are_reported(
    path: &str,
    list: &Vec<Named>,
    drawn: Vec<MeshDrawing>,
    r: Reply,
)
    requires
        call_ensures(import_landxml, (path, true, list), Ok((drawn, r))),
    ensures
        r@ is Output,
        is_woven(
            seq![
                "LS_LANDXML: imported "@,
                " surface(s) ["@,
                "] as Mesh \u{2014} "@,
                " triangle(s) total. (Use in LS_VOLUME / LS_DATUM by name.)"@,
            ],
            seq![
                decimal(list@.len()),
                joined(Seq::new(list@.len(), |i: int| list@[i].name@), ", "@),
                decimal(triangles_in(list@)),
            ],
            said(r@),
        ),
{
    reveal_with_fuel(woven_up_to, 5);
    assert(names_of(list@) =~= Seq::new(list@.len(), |i: int| list@[i].name@));
}

/// A row of a list has the number of a point, filled up with spaces, its easting, its
/// northing and its elevation, and its description, all of it.
pub proof fn law_rows(number: Seq<char>, at: (Seq<char>, Seq<char>, Seq<char>), description: Seq<char>)
    ensures
        is_woven(
            seq!["  "@, " E "@, "  N "@, "  Z "@, "  "@, Seq::empty()],
            seq![padded(number, 8), at.0, at.1, at.2, description],
            row(number, at, description),
        ),
{
    reveal_with_fuel(woven_up_to, 7);
    let w = seq!["  "@, " E "@, "  N "@, "  Z "@, "  "@, Seq::empty()];
    let x = seq![padded(number, 8), at.0, at.1, at.2, description];
    assert(woven_up_to(w, x, 5) =~= row(number, at, description));
}

/// The head of a preview tells the path, the order of the columns, how many points
/// there are and how many lines were skipped. The order is told by which of northing
/// and easting comes first.
pub proof fn law_the_head_of_a_preview(q: ImportView, points: Seq<Record>, skipped: nat)
    ensures
        preview_of(q, points, skipped)[0] is Output,
        is_woven(
            seq![
                "LS_PNEZD preview \""@,
                "\" \u{2014} order "@,
                ": "@,
                " point(s), "@,
                " skipped. First rows:"@,
            ],
            seq![
                q.path,
                if q.format.easting < q.format.northing {
                    "PENZD"@
                } else {
                    "PNEZD"@
                },
                decimal(points.len()),
                decimal(skipped),
            ],
            said(preview_of(q, points, skipped)[0]),
        ),
{
    reveal_with_fuel(woven_up_to, 6);
}

/// What is said of an import: how many points it added and how many the session has,
/// and how many lines were skipped if any were.
pub proof fn law_what_is_said_of_an_import(added: nat, skipped: nat, total: nat)
    ensures
        imported_of(added, skipped, total) is Output,
        is_woven(
            seq![
                "LS_PNEZD: imported "@,
                " labeled point(s)"@,
                ", grouped by code. "@,
                " this session."@,
            ],
            seq![
                decimal(added),
                if skipped > 0 {
                    ", "@ + decimal(skipped) + " line(s) skipped"@
                } else {
                    Seq::empty()
                },
                decimal(total),
            ],
            said(imported_of(added, skipped, total)),
        ),
{
    reveal_with_fuel(woven_up_to, 5);
}

/// What is said of a plan: how many entities it gave on how many layers, from where,
/// and how many elements were left out if any were.
pub proof fn law_what_is_said_of_a_plan(n: nat, layers: nat, repeated: nat, source: Seq<char>)
    ensures
        plan_report(n, layers, repeated, source) is Output,
        is_woven(
            seq!["LS_IMPORTPLAN: "@, " entities on "@, " layer(s) from "@, "."@, Seq::empty()],
            seq![
                decimal(n),
                decimal(layers),
                source,
                if repeated > 0 {
                    " ("@ + decimal(repeated) + " element(s) already covered by polylines skipped)"@
                } else {
                    Seq::empty()
                },
            ],
            said(plan_report(n, layers, repeated, source)),
        ),
{
    reveal_with_fuel(woven_up_to, 6);
    let w = seq!["LS_IMPORTPLAN: "@, " entities on "@, " layer(s) from "@, "."@, Seq::empty()];
    let x = seq![
        decimal(n),
        decimal(layers),
        source,
        if repeated > 0 {
            " ("@ + decimal(repeated) + " element(s) already covered by polylines skipped)"@
        } else {
            Seq::empty()
        },
    ];
    assert(woven_up_to(w, x, 4) =~= said(plan_report(n, layers, repeated, source)));
}

/// The figures of a station in what the program prints: the scale with a warning if
/// and only if a distance is wrong, and the residuals with how many shots they are of,
/// as one shot only where it is one; the amplification with a warning if and only if
/// the station is near the circle.
pub proof fn law_figures_of_a_station(c: CombinedTexts, t: ThreePointTexts)
    ensures
        combined_lines(c)[4] == "  scale check   : "@ + c.scale@ + (if c.blunder {
            "   <-- WARNING: strays from 1.0 (distance/EDM blunder?)"@
        } else {
            Seq::empty()
        }),
        is_woven(
            seq!["  residuals     : RMS "@, " ("@, " shot"@, ")"@],
            seq![
                c.rms@,
                decimal(c.residuals@.len()),
                if c.residuals@.len() == 1 {
                    Seq::empty()
                } else {
                    "s"@
                },
            ],
            combined_lines(c)[5],
        ),
        three_point_lines(t)[5] == "  amplification  : "@ + t.amplification@ + "x"@ + (if t.danger {
            "  <-- WARNING: near danger circle"@
        } else {
            Seq::empty()
        }),
        is_woven(
            seq!["  subtended     : BPC "@, "\u{b0}, CPA "@, "\u{b0}, APB "@, "\u{b0}"@],
            seq![t.subtended.0@, t.subtended.1@, t.subtended.2@],
            three_point_lines(t)[4],
        ),
{
    reveal_with_fuel(woven_up_to, 5);
}

/// The steps of a fit show its own figures, in a report and in what the program
/// prints; the latter has formulas behind some of them.
pub proof fn law_steps_of_a_fit(f: Fit, formulas: bool)
    ensures
        steps_of(f, formulas).len() == 7,
        steps_of(f, formulas)[0] == "  step 1  source centroid : E "@ + f.source_east@ + ", N "@
            + f.source_north@,
        steps_of(f, formulas)[1] == "  step 2  target centroid : E "@ + f.target_east@ + ", N "@
            + f.target_north@,
        is_woven(
            seq!["  step 3  cross-cov sums  : Sxx "@, ", Sxy "@, ", S|d|^2 "@, Seq::empty()],
            seq![f.sxx@, f.sxy@, f.sum_sq@],
            steps_of(f, formulas)[2],
        ),
        steps_of(f, false)[3] == "  step 4  scale  s        : "@ + f.scale@,
        steps_of(f, false)[4] == "  step 5  rotation theta  : "@ + f.rotation@ + "\u{b0} CCW+"@,
        steps_of(f, false)[5] == "  step 6  translation     : E "@ + f.east@ + ", N "@ + f.north@,
        is_woven(
            seq!["  step 7  residuals       : RMS "@, ", max "@, "  ("@, " pairs)"@],
            seq![f.rms@, f.max@, decimal(f.residuals@.len())],
            steps_of(f, formulas)[6],
        ),
        forall|i: int|
            0 <= i < 7 ==> (#[trigger] steps_of(f, true)[i]).take(steps_of(f, false)[i].len() as int)
                == steps_of(f, false)[i],
{
    reveal_with_fuel(woven_up_to, 5);
    let empty: Seq<char> = Seq::empty();
    let w = seq!["  step 3  cross-cov sums  : Sxx "@, ", Sxy "@, ", S|d|^2 "@, Seq::empty()];
    assert(woven_up_to(w, seq![f.sxx@, f.sxy@, f.sum_sq@], 3) =~= steps_of(f, formulas)[2]);
    let a = "  step 4  scale  s        : "@ + f.scale@;
    let b = "  step 5  rotation theta  : "@ + f.rotation@ + "\u{b0} CCW+"@;
    let c = "  step 6  translation     : E "@ + f.east@ + ", N "@ + f.north@;
    assert(a + empty =~= a);
    assert(b + empty =~= b);
    assert(c + empty =~= c);
    assert forall|i: int| 0 <= i < 7 implies (#[trigger] steps_of(f, true)[i]).take(
        steps_of(f, false)[i].len() as int,
    ) == steps_of(f, false)[i] by {
        let s = steps_of(f, true)[i];
        let t = steps_of(f, false)[i];
        assert(s.take(t.len() as int) =~= t);
    }
}

/// The line of the grid method in the report of a volume has the figures of the grid.
pub proof fn law_the_grid_is_reported(
    top: (Seq<char>, nat),
    bottom: (Seq<char>, nat),
    exact: CutFill,
    g: GridVolume,
)
    ensures
        is_woven(
            seq![
                "LS_VOLUME "@ + "(grid @ "@,
                "): "@ + "cut "@,
                ", fill "@,
                ", net "@,
                ", plan area "@,
                ", "@,
                " cells"@ + "."@,
            ],
            seq![
                g.step@,
                g.volumes.cut@,
                g.volumes.fill@,
                g.volumes.net@,
                g.area@,
                decimal(g.cells as nat),
            ],
            said(volume_report_of(top, bottom, exact, Some(g))[2]),
        ),
{
    reveal_with_fuel(woven_up_to, 8);
    let w = seq![
        "LS_VOLUME "@ + "(grid @ "@,
        "): "@ + "cut "@,
        ", fill "@,
        ", net "@,
        ", plan area "@,
        ", "@,
        " cells"@ + "."@,
    ];
    let x = seq![
        g.step@,
        g.volumes.cut@,
        g.volumes.fill@,
        g.volumes.net@,
        g.area@,
        decimal(g.cells as nat),
    ];
    assert(woven_up_to(w, x, 6) =~= said(volume_report_of(top, bottom, exact, Some(g))[2]));
}

} // verus!
