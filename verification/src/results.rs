//! What the survey program prints and writes once the figures are known.
//!
//! A figure comes as the text that is shown for it.

use acadrust::Vector3;
use vstd::prelude::*;

use crate::adjust::{
    danger_of, inverse_of, orientation_of, residuals_of, shot_residuals, station_of, steps_of,
    subtended_of, write_danger, write_inverse, write_orientation, write_residual, write_shot,
    write_station, write_steps, write_subtended, CombinedTexts, Fit, ThreePointTexts,
};
use crate::layers::optional_view;
use crate::pnezd::{pnezd_format, read_text};
use crate::reports::{
    exact_of, grid_of, join, joined, read_of, read_surface_quiet, tin_layer, tin_layer_of,
    write_exact, write_grid, CutFill, GridVolume, SurfaceRead,
};
use crate::surfaces::{too_few_points, Surface};
use crate::text::{decimal, decimal_text, lemma_views_push, views};

verus! {

/// A text behind another, where there is one.
pub open spec fn noted(prefix: Seq<char>, s: Option<Seq<char>>) -> Seq<char> {
    match s {
        Some(t) => prefix + t,
        None => Seq::empty(),
    }
}

/// Writes a text behind another, where there is one.
fn note(prefix: &str, s: &Option<String>) -> (r: String)
    ensures
        r@ == noted(prefix@, optional_view(*s)),
{
    match s {
        Some(t) => prefix.to_string().concat(t.as_str()),
        None => String::new(),
    }
}

/// Reads a surface from the text of a file, given what it holds as LandXML where
/// it is that.
pub fn read_surface(path: &str, text: &str, landxml: Option<Option<Surface<Vector3>>>) -> (r: Result<
    SurfaceRead<Vector3>,
    String,
>)
    ensures
        match r {
            Ok(s) => read_of(text@, landxml, s),
            Err(why) => match landxml {
                Some(found) => found is None && why@ == "\""@ + path@
                    + "\": no TIN surface found in LandXML"@,
                None => {
                    let points = read_text(text@, pnezd_format()).0;
                    points.len() < 3 && why@ == too_few_points(path@, points.len())
                },
            },
        },
{
    if let Some(None) = landxml {
        return Err("\"".to_string().concat(path).concat("\": no TIN surface found in LandXML"));
    }
    read_surface_quiet(path, text, landxml)
}

/// Says that a file has no points.
pub fn no_usable_points(path: &str) -> (r: String)
    ensures
        r@ == "\""@ + path@ + "\" has no usable points"@,
{
    "\"".to_string().concat(path).concat("\" has no usable points")
}

/// Says that a file cannot be written.
pub fn unwritten(path: &str, why: &str) -> (r: String)
    ensures
        r@ == "cannot write \""@ + path@ + "\": "@ + why@,
{
    "cannot write \"".to_string().concat(path).concat("\": ").concat(why)
}

// ---------------------------------------------------------------------------
// Layers and their colours
// ---------------------------------------------------------------------------

/// A layer of the output and the number of its colour.
#[derive(Debug, PartialEq, Eq)]
pub struct Layer {
    pub name: String,
    pub colour: u8,
}

/// Layers as texts and numbers.
pub open spec fn layer_views(list: Seq<Layer>) -> Seq<(Seq<char>, u8)> {
    list.map_values(|l: Layer| (l.name@, l.colour))
}

/// Adds a layer.
fn add_layer(list: &mut Vec<Layer>, name: &str, colour: u8)
    ensures
        layer_views(final(list)@) == layer_views(old(list)@).push((name@, colour)),
{
    let ghost before = list@;
    list.push(Layer { name: name.to_string(), colour });
    assert(layer_views(list@) =~= layer_views(before).push((name@, colour)));
}

/// The layer of the points of a surface.
pub open spec fn point_layer_of(name: Seq<char>) -> Seq<char> {
    "LS-POINTS-"@ + name
}

/// Names the layer of the points of a surface.
pub fn point_layer(name: &str) -> (r: String)
    ensures
        r@ == point_layer_of(name@),
{
    "LS-POINTS-".to_string().concat(name)
}

/// The layers of a surface: its triangulation in green, its points in white.
pub fn surface_layers(name: &str) -> (r: Vec<Layer>)
    ensures
        layer_views(r@) == seq![(tin_layer_of(name@), 3u8), (point_layer_of(name@), 7u8)],
{
    let mut r: Vec<Layer> = Vec::new();
    add_layer(&mut r, tin_layer(name).as_str(), 3);
    add_layer(&mut r, point_layer(name).as_str(), 7);
    assert(layer_views(r@) =~= seq![(tin_layer_of(name@), 3u8), (point_layer_of(name@), 7u8)]);
    r
}

/// The layers of a volume.
pub open spec fn volume_layers_of() -> Seq<(Seq<char>, u8)> {
    seq![
        ("LS-TIN-TOP"@, 3u8),
        ("LS-TIN-BOTTOM"@, 1u8),
        ("LS-CUTFILL"@, 5u8),
        ("LS-VOLUME-LABEL"@, 7u8),
    ]
}

/// The layers of a volume: the surfaces in green and red, the line between cut and
/// fill in blue.
pub fn volume_layers() -> (r: Vec<Layer>)
    ensures
        layer_views(r@) == volume_layers_of(),
{
    let mut r: Vec<Layer> = Vec::new();
    add_layer(&mut r, "LS-TIN-TOP", 3);
    add_layer(&mut r, "LS-TIN-BOTTOM", 1);
    add_layer(&mut r, "LS-CUTFILL", 5);
    add_layer(&mut r, "LS-VOLUME-LABEL", 7);
    assert(layer_views(r@) =~= volume_layers_of());
    r
}

/// The layers of a volume over a datum.
pub fn datum_layers(name: &str) -> (r: Vec<Layer>)
    ensures
        layer_views(r@) == seq![
            (tin_layer_of(name@), 3u8),
            ("LS-DATUM"@, 5u8),
            ("LS-VOLUME-LABEL"@, 7u8),
        ],
{
    let mut r: Vec<Layer> = Vec::new();
    add_layer(&mut r, tin_layer(name).as_str(), 3);
    add_layer(&mut r, "LS-DATUM", 5);
    add_layer(&mut r, "LS-VOLUME-LABEL", 7);
    assert(layer_views(r@) =~= seq![
        (tin_layer_of(name@), 3u8),
        ("LS-DATUM"@, 5u8),
        ("LS-VOLUME-LABEL"@, 7u8),
    ]);
    r
}

/// The layers of a transformation.
pub fn rts_layers() -> (r: Vec<Layer>)
    ensures
        layer_views(r@) == seq![("LS-RTS-SRC"@, 8u8), ("LS-RTS-DST"@, 3u8), ("LS-RTS-BASE"@, 1u8)],
{
    let mut r: Vec<Layer> = Vec::new();
    add_layer(&mut r, "LS-RTS-SRC", 8);
    add_layer(&mut r, "LS-RTS-DST", 3);
    add_layer(&mut r, "LS-RTS-BASE", 1);
    assert(layer_views(r@) =~= seq![
        ("LS-RTS-SRC"@, 8u8),
        ("LS-RTS-DST"@, 3u8),
        ("LS-RTS-BASE"@, 1u8),
    ]);
    r
}

/// The layers of a fit, and those of the points that it is applied to.
pub open spec fn helmert_layers_of(applied: bool) -> Seq<(Seq<char>, u8)> {
    let fit = seq![
        ("LS-HMT-0-SRC"@, 8u8),
        ("LS-HMT-1-SCALED"@, 2u8),
        ("LS-HMT-2-ROTATED"@, 30u8),
        ("LS-HMT-3-FINAL"@, 3u8),
        ("LS-HMT-TARGET"@, 1u8),
        ("LS-HMT-RESID"@, 1u8),
        ("LS-HMT-PATH"@, 8u8),
        ("LS-HMT-CENTROID"@, 4u8),
        ("LS-HMT-LEGEND"@, 7u8),
        ("LS-HMT-LABEL"@, 7u8),
    ];
    if applied {
        fit + seq![("LS-RTS-SRC"@, 8u8), ("LS-RTS-DST"@, 3u8)]
    } else {
        fit
    }
}

/// The layers of a fit.
pub fn helmert_layers(applied: bool) -> (r: Vec<Layer>)
    ensures
        layer_views(r@) == helmert_layers_of(applied),
{
    let mut r: Vec<Layer> = Vec::new();
    add_layer(&mut r, "LS-HMT-0-SRC", 8);
    add_layer(&mut r, "LS-HMT-1-SCALED", 2);
    add_layer(&mut r, "LS-HMT-2-ROTATED", 30);
    add_layer(&mut r, "LS-HMT-3-FINAL", 3);
    add_layer(&mut r, "LS-HMT-TARGET", 1);
    add_layer(&mut r, "LS-HMT-RESID", 1);
    add_layer(&mut r, "LS-HMT-PATH", 8);
    add_layer(&mut r, "LS-HMT-CENTROID", 4);
    add_layer(&mut r, "LS-HMT-LEGEND", 7);
    add_layer(&mut r, "LS-HMT-LABEL", 7);
    if applied {
        add_layer(&mut r, "LS-RTS-SRC", 8);
        add_layer(&mut r, "LS-RTS-DST", 3);
    }
    assert(layer_views(r@) =~= helmert_layers_of(applied));
    r
}

/// The layers of a resection.
pub open spec fn resect_layers_of() -> Seq<(Seq<char>, u8)> {
    seq![
        ("LS-RESECT-STATION"@, 1u8),
        ("LS-RESECT-KNOWN"@, 3u8),
        ("LS-RESECT-RAYS"@, 8u8),
        ("LS-RESECT-LABEL"@, 7u8),
    ]
}

/// The layers of a resection.
pub fn resect_layers() -> (r: Vec<Layer>)
    ensures
        layer_views(r@) == resect_layers_of(),
{
    let mut r: Vec<Layer> = Vec::new();
    add_layer(&mut r, "LS-RESECT-STATION", 1);
    add_layer(&mut r, "LS-RESECT-KNOWN", 3);
    add_layer(&mut r, "LS-RESECT-RAYS", 8);
    add_layer(&mut r, "LS-RESECT-LABEL", 7);
    assert(layer_views(r@) =~= resect_layers_of());
    r
}

// ---------------------------------------------------------------------------
// Messages
// ---------------------------------------------------------------------------

/// What `surface` prints.
pub fn surface_message(
    name: &str,
    nodes: usize,
    triangles: usize,
    edges: usize,
    area: &str,
    out: &str,
) -> (r: String)
    ensures
        r@ == "surface \""@ + name@ + "\": "@ + decimal(nodes as nat) + " pts, "@ + decimal(
            triangles as nat,
        ) + " triangles, "@ + decimal(edges as nat) + " TIN edges, plan area "@ + area@ + " -> "@ + out@,
{
    "surface \"".to_string().concat(name).concat("\": ").concat(decimal_text(nodes).as_str()).concat(
        " pts, ",
    ).concat(decimal_text(triangles).as_str()).concat(" triangles, ").concat(
        decimal_text(edges).as_str(),
    ).concat(" TIN edges, plan area ").concat(area).concat(" -> ").concat(out)
}

/// What `volume` makes of its grid step.
#[derive(Debug, PartialEq, Eq)]
pub enum GridResult {
    Volume(GridVolume),
    /// The text was no positive number.
    Ignored(String),
}

/// The grid method in what `volume` prints.
pub open spec fn grid_line(g: Option<GridResult>) -> Seq<char> {
    match g {
        None => Seq::empty(),
        Some(GridResult::Volume(v)) => "\nvolume "@ + grid_of(v),
        Some(GridResult::Ignored(s)) => "\n(ignoring invalid --grid \""@ + s@ + "\")"@,
    }
}

/// Writes the grid method for what `volume` prints.
fn write_grid_line(g: &Option<GridResult>) -> (r: String)
    ensures
        r@ == grid_line(*g),
{
    match g {
        None => String::new(),
        Some(GridResult::Volume(v)) => "\nvolume ".to_string().concat(write_grid(v).as_str()),
        Some(GridResult::Ignored(s)) => "\n(ignoring invalid --grid \"".to_string().concat(
            s.as_str(),
        ).concat("\")"),
    }
}

/// What `volume` prints.
pub fn volume_message(
    exact: &CutFill,
    top: usize,
    bottom: usize,
    grid: &Option<GridResult>,
    out: &str,
    segments: usize,
) -> (r: String)
    ensures
        r@ == "volume "@ + exact_of(*exact, top as nat, bottom as nat) + grid_line(*grid) + "\nDXF -> "@
            + out@ + " (cut/fill line: "@ + decimal(segments as nat) + " seg)"@,
{
    "volume ".to_string().concat(write_exact(exact, top, bottom).as_str()).concat(
        write_grid_line(grid).as_str(),
    ).concat("\nDXF -> ").concat(out).concat(" (cut/fill line: ").concat(
        decimal_text(segments).as_str(),
    ).concat(" seg)")
}

/// What `datum` prints.
pub open spec fn datum_message_of(
    name: Seq<char>,
    elevation: Seq<char>,
    v: CutFill,
    nodes: nat,
    triangles: nat,
    out: Seq<char>,
    segments: nat,
) -> Seq<char> {
    "datum \""@ + name + "\" vs elev "@ + elevation + ": cut "@ + v.cut@ + " (above), fill "@ + v.fill@
        + " (below), net "@ + v.net@ + " ["@ + decimal(nodes) + " pts, "@ + decimal(triangles)
        + " triangles]\nDXF -> "@ + out + " (datum contour: "@ + decimal(segments) + " seg)"@
}

/// What `datum` prints.
pub fn datum_message(
    name: &str,
    elevation: &str,
    v: &CutFill,
    nodes: usize,
    triangles: usize,
    out: &str,
    segments: usize,
) -> (r: String)
    ensures
        r@ == datum_message_of(
            name@,
            elevation@,
            *v,
            nodes as nat,
            triangles as nat,
            out@,
            segments as nat,
        ),
{
    "datum \"".to_string().concat(name).concat("\" vs elev ").concat(elevation).concat(": cut ").concat(
        v.cut.as_str(),
    ).concat(" (above), fill ").concat(v.fill.as_str()).concat(" (below), net ").concat(
        v.net.as_str(),
    ).concat(" [").concat(decimal_text(nodes).as_str()).concat(" pts, ").concat(
        decimal_text(triangles).as_str(),
    ).concat(" triangles]\nDXF -> ").concat(out).concat(" (datum contour: ").concat(
        decimal_text(segments).as_str(),
    ).concat(" seg)")
}

/// A transformation of points as texts: what it does, and what it does to the
/// first point.
#[derive(Debug, PartialEq, Eq)]
pub struct RtsResult {
    pub scale: String,
    pub rotation: String,
    pub base_north: String,
    pub base_east: String,
    pub to_north: String,
    pub to_east: String,
    pub from_east: String,
    pub from_north: String,
    pub moved_east: String,
    pub moved_north: String,
}

/// What `rts` prints.
pub open spec fn rts_message_of(
    name: Seq<char>,
    points: nat,
    t: RtsResult,
    out: Seq<char>,
    csv: Option<Seq<char>>,
    anim: Option<Seq<char>>,
) -> Seq<char> {
    "rts \""@ + name + "\": "@ + decimal(points) + " pts, scale "@ + t.scale@ + ", rotation "@
        + t.rotation@ + "\u{b0} (CCW+), base ("@ + t.base_north@ + ","@ + t.base_east@ + ")->("@
        + t.to_north@ + ","@ + t.to_east@ + ")\ne.g. (E "@ + t.from_east@ + ", N "@ + t.from_north@
        + ") -> (E "@ + t.moved_east@ + ", N "@ + t.moved_north@ + ")\nDXF -> "@ + out + noted(
        "; CSV -> "@,
        csv,
    ) + noted("; anim -> "@, anim)
}

/// What `rts` prints.
pub fn rts_message(
    name: &str,
    points: usize,
    t: &RtsResult,
    out: &str,
    csv: &Option<String>,
    anim: &Option<String>,
) -> (r: String)
    ensures
        r@ == rts_message_of(name@, points as nat, *t, out@, optional_view(*csv), optional_view(*anim)),
{
    "rts \"".to_string().concat(name).concat("\": ").concat(decimal_text(points).as_str()).concat(
        " pts, scale ",
    ).concat(t.scale.as_str()).concat(", rotation ").concat(t.rotation.as_str()).concat(
        "\u{b0} (CCW+), base (",
    ).concat(t.base_north.as_str()).concat(",").concat(t.base_east.as_str()).concat(")->(").concat(
        t.to_north.as_str(),
    ).concat(",").concat(t.to_east.as_str()).concat(")\ne.g. (E ").concat(
        t.from_east.as_str(),
    ).concat(", N ").concat(t.from_north.as_str()).concat(") -> (E ").concat(
        t.moved_east.as_str(),
    ).concat(", N ").concat(t.moved_north.as_str()).concat(")\nDXF -> ").concat(out).concat(
        note("; CSV -> ", csv).as_str(),
    ).concat(note("; anim -> ", anim).as_str())
}

/// A point of a written file: number, northing, easting, elevation, description.
pub fn csv_line(number: &str, north: &str, east: &str, elevation: &str, description: &str) -> (r: String)
    ensures
        r@ == number@ + ","@ + north@ + ","@ + east@ + ","@ + elevation@ + ","@ + description@ + "\n"@,
{
    number.to_string().concat(",").concat(north).concat(",").concat(east).concat(",").concat(
        elevation,
    ).concat(",").concat(description).concat("\n")
}

/// The head of what `helmert` prints.
pub const HELMERT_TITLE: &'static str = "helmert \u{2014} 2D 4-parameter conformal (Rotate/Translate/Scale)";

/// What `helmert` prints: the steps with their formulas, all residuals, and what
/// was written.
pub open spec fn helmert_message_of(
    f: Fit,
    applied: Option<(nat, Seq<char>)>,
    anim: Option<Seq<char>>,
    out: Seq<char>,
) -> Seq<char> {
    let points = match applied {
        Some((n, path)) => "\napplied to "@ + decimal(n) + " points from "@ + path,
        None => Seq::empty(),
    };
    joined(
        seq![HELMERT_TITLE@] + steps_of(f, true) + residuals_of(views(f.residuals@)),
        "\n"@,
    ) + points + noted("\nanimation -> "@, anim) + "\nDXF (stages) -> "@ + out
}

/// Adds the residuals of pairs to some lines.
fn add_residuals(lines: &mut Vec<String>, residuals: &Vec<String>)
    ensures
        views(final(lines)@) == views(old(lines)@) + residuals_of(views(residuals@)),
{
    let ghost before = views(lines@);
    let ghost rows = residuals_of(views(residuals@));
    let mut i: usize = 0;
    assert(before + rows.take(0) =~= before);
    while i < residuals.len()
        invariant
            i <= residuals.len(),
            rows == residuals_of(views(residuals@)),
            views(lines@) =~= before + rows.take(i as int),
        decreases residuals.len() - i,
    {
        let line = write_residual(i, residuals[i].as_str());
        proof {
            lemma_views_push(lines@, line);
            assert(views(residuals@)[i as int] == residuals@[i as int]@);
            assert(rows.take(i + 1) =~= rows.take(i as int).push(rows[i as int]));
        }
        lines.push(line);
        i += 1;
    }
    assert(rows.take(i as int) =~= rows);
}

/// What `helmert` prints.
pub fn helmert_message(
    f: &Fit,
    applied: Option<(usize, &str)>,
    anim: &Option<String>,
    out: &str,
) -> (r: String)
    ensures
        r@ == helmert_message_of(
            *f,
            match applied {
                Some((n, path)) => Some((n as nat, path@)),
                None => None,
            },
            optional_view(*anim),
            out@,
        ),
{
    let mut lines: Vec<String> = Vec::new();
    lines.push(HELMERT_TITLE.to_string());
    assert(views(lines@) =~= seq![HELMERT_TITLE@]);
    let mut steps = write_steps(f, true);
    let ghost first = lines@;
    let ghost second = steps@;
    lines.append(&mut steps);
    assert(views(lines@) =~= views(first) + views(second));
    add_residuals(&mut lines, &f.residuals);
    let points = match applied {
        Some((n, path)) => "\napplied to ".to_string().concat(decimal_text(n).as_str()).concat(
            " points from ",
        ).concat(path),
        None => String::new(),
    };
    join(&lines, "\n").concat(points.as_str()).concat(note("\nanimation -> ", anim).as_str()).concat(
        "\nDXF (stages) -> ",
    ).concat(out)
}

/// The head of what `resect` prints.
pub const RESECT_TITLE: &'static str = "resect \u{2014} free-station resection";

/// The lines of a station by the combined method.
pub open spec fn combined_lines(t: CombinedTexts) -> Seq<Seq<char>> {
    let warning = if t.blunder {
        "   <-- WARNING: strays from 1.0 (distance/EDM blunder?)"@
    } else {
        Seq::empty()
    };
    let plural = if t.residuals@.len() == 1 {
        Seq::empty()
    } else {
        "s"@
    };
    seq![
        RESECT_TITLE@,
        "  method        : combined (direction + distance, least-squares)"@,
        station_of(t.east@, t.north@),
        orientation_of(t.orientation@),
        "  scale check   : "@ + t.scale@ + warning,
        "  residuals     : RMS "@ + t.rms@ + " ("@ + decimal(t.residuals@.len()) + " shot"@ + plural
            + ")"@,
    ] + shot_residuals(t.residuals@)
}

/// The lines of a station by the three-point method.
pub open spec fn three_point_lines(t: ThreePointTexts) -> Seq<Seq<char>> {
    seq![
        RESECT_TITLE@,
        "  method        : angle-only three-point (Tienstra)"@,
        station_of(t.east@, t.north@),
        orientation_of(t.orientation@),
        subtended_of(t),
        "  amplification  : "@ + t.amplification@ + "x"@ + danger_of(t.danger),
    ]
}

/// What `resect` prints, given the lines of its station.
pub open spec fn resect_message_of(lines: Seq<Seq<char>>, anim: Option<Seq<char>>, out: Seq<char>) -> Seq<
    char,
> {
    joined(lines, "\n"@) + noted("\nanim -> "@, anim) + "\nDXF -> "@ + out
}

/// What `resect` prints of a station by the combined method.
pub fn combined_message(t: &CombinedTexts, anim: &Option<String>, out: &str) -> (r: String)
    ensures
        r@ == resect_message_of(combined_lines(*t), optional_view(*anim), out@),
{
    let warning = if t.blunder {
        "   <-- WARNING: strays from 1.0 (distance/EDM blunder?)".to_string()
    } else {
        String::new()
    };
    let plural = if t.residuals.len() == 1 {
        String::new()
    } else {
        "s".to_string()
    };
    let mut lines: Vec<String> = Vec::new();
    lines.push(RESECT_TITLE.to_string());
    lines.push("  method        : combined (direction + distance, least-squares)".to_string());
    lines.push(write_station(t.east.as_str(), t.north.as_str()));
    lines.push(write_orientation(t.orientation.as_str()));
    lines.push("  scale check   : ".to_string().concat(t.scale.as_str()).concat(warning.as_str()));
    lines.push(
        "  residuals     : RMS ".to_string().concat(t.rms.as_str()).concat(" (").concat(
            decimal_text(t.residuals.len()).as_str(),
        ).concat(" shot").concat(plural.as_str()).concat(")"),
    );
    let ghost before = views(lines@);
    let ghost rows = shot_residuals(t.residuals@);
    let mut i: usize = 0;
    assert(before + rows.take(0) =~= before);
    while i < t.residuals.len()
        invariant
            i <= t.residuals.len(),
            rows == shot_residuals(t.residuals@),
            views(lines@) =~= before + rows.take(i as int),
        decreases t.residuals.len() - i,
    {
        let shot = &t.residuals[i];
        let line = write_shot(shot.0.as_str(), shot.1.as_str());
        proof {
            lemma_views_push(lines@, line);
            assert(rows.take(i + 1) =~= rows.take(i as int).push(rows[i as int]));
        }
        lines.push(line);
        i += 1;
    }
    proof {
        assert(rows.take(i as int) =~= rows);
        assert(views(lines@) =~= combined_lines(*t));
    }
    join(&lines, "\n").concat(note("\nanim -> ", anim).as_str()).concat("\nDXF -> ").concat(out)
}

/// What `resect` prints of a station by the three-point method.
pub fn three_point_message(t: &ThreePointTexts, anim: &Option<String>, out: &str) -> (r: String)
    ensures
        r@ == resect_message_of(three_point_lines(*t), optional_view(*anim), out@),
{
    let mut lines: Vec<String> = Vec::new();
    lines.push(RESECT_TITLE.to_string());
    lines.push("  method        : angle-only three-point (Tienstra)".to_string());
    lines.push(write_station(t.east.as_str(), t.north.as_str()));
    lines.push(write_orientation(t.orientation.as_str()));
    lines.push(write_subtended(t));
    lines.push(
        "  amplification  : ".to_string().concat(t.amplification.as_str()).concat("x").concat(
            write_danger(t.danger).as_str(),
        ),
    );
    assert(views(lines@) =~= three_point_lines(*t));
    join(&lines, "\n").concat(note("\nanim -> ", anim).as_str()).concat("\nDXF -> ").concat(out)
}

/// What `inverse` prints.
pub fn inverse_message(distance: &str, azimuth: &str, bearing: &str, anim: &Option<String>) -> (r: String)
    ensures
        r@ == inverse_of(distance@, azimuth@, bearing@) + noted("\nanim -> "@, optional_view(*anim)),
{
    write_inverse(distance, azimuth, bearing).concat(note("\nanim -> ", anim).as_str())
}

} // verus!
