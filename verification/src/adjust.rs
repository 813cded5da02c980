//! Transformations, fits and resections: which method applies, and what is said of
//! the result.
//!
//! A figure comes as the text that is shown for it.

use acadrust::CadDocument;
use vstd::prelude::*;

use crate::console::{info, lemma_replies_push, replies, Reply, Said};
use crate::entities::{document_entities, entities_in, referred};
use crate::report_laws::law_method_by_distances;
use crate::text::{chars_of, decimal, decimal_text, views};

verus! {

/// A text with spaces before it, up to a width.
pub open spec fn aligned(s: Seq<char>, width: nat) -> Seq<char>
    decreases width - s.len(),
{
    if s.len() >= width {
        s
    } else {
        aligned(seq![' '] + s, width)
    }
}

/// Puts spaces before a text, up to a width.
pub fn align(s: &str, width: usize) -> (r: String)
    ensures
        r@ == aligned(s@, width as nat),
{
    let mut n = chars_of(s).len();
    let mut r = s.to_string();
    proof {
        reveal_strlit(" ");
        assert(" "@ =~= seq![' ']);
    }
    while n < width
        invariant
            n == r@.len(),
            " "@ == seq![' '],
            aligned(r@, width as nat) == aligned(s@, width as nat),
        decreases width - n,
    {
        r = " ".to_string().concat(r.as_str());
        n += 1;
    }
    r
}

// ---------------------------------------------------------------------------
// LS_INVERSE and LS_RTS
// ---------------------------------------------------------------------------

/// Reports an inverse.
pub fn inverse_report(distance: &str, azimuth: &str, bearing: &str) -> (r: Reply)
    ensures
        r@ == Said::Output("LS_INVERSE: "@ + inverse_of(distance@, azimuth@, bearing@)),
{
    Reply::Output("LS_INVERSE: ".to_string().concat(write_inverse(distance, azimuth, bearing).as_str()))
}

/// An inverse in a report.
pub open spec fn inverse_of(distance: Seq<char>, azimuth: Seq<char>, bearing: Seq<char>) -> Seq<char> {
    "distance "@ + distance + ", azimuth "@ + azimuth + "\u{b0}, bearing "@ + bearing
}

/// Writes an inverse for a report.
pub fn write_inverse(distance: &str, azimuth: &str, bearing: &str) -> (r: String)
    ensures
        r@ == inverse_of(distance@, azimuth@, bearing@),
{
    "distance ".to_string().concat(distance).concat(", azimuth ").concat(azimuth).concat(
        "\u{b0}, bearing ",
    ).concat(bearing)
}

/// What is said where there is nothing to transform.
pub const NOTHING_TO_TRANSFORM: &'static str = "LS_RTS: no entities in the drawing to transform.";

/// Tests whether a drawing has entities to transform.
pub fn check_drawing(doc: &CadDocument) -> (r: Result<(), Reply>)
    ensures
        match r {
            Ok(_) => document_entities(*doc).len() > 0,
            Err(reply) => document_entities(*doc).len() == 0 && reply@ == Said::Info(
                NOTHING_TO_TRANSFORM@,
            ),
        },
{
    let list = entities_in(doc);
    assert(referred(list@).len() == list@.len());
    if list.len() == 0 {
        Err(info(NOTHING_TO_TRANSFORM))
    } else {
        Ok(())
    }
}

/// A transformation as texts: rotation, scale, the base and where it goes.
#[derive(Debug, PartialEq, Eq)]
pub struct RtsTexts {
    pub rotation: String,
    pub scale: String,
    pub base_north: String,
    pub base_east: String,
    pub to_north: String,
    pub to_east: String,
}

/// What `LS_RTS` says when it is done.
pub open spec fn rts_report_of(count: nat, t: RtsTexts) -> Said {
    let noun = if count == 1 {
        "entity"@
    } else {
        "entities"@
    };
    Said::Output(
        "LS_RTS: transformed "@ + decimal(count) + " "@ + noun + " \u{2014} rot "@ + t.rotation@
            + "\u{b0} CCW+, scale "@ + t.scale@ + ", base ("@ + t.base_north@ + ","@ + t.base_east@
            + ") -> ("@ + t.to_north@ + ","@ + t.to_east@ + ")."@,
    )
}

/// `LS_RTS`: reports a transformation of a number of entities.
pub fn rts_report(count: usize, t: &RtsTexts) -> (r: Reply)
    ensures
        r@ == rts_report_of(count as nat, *t),
{
    let noun = if count == 1 {
        "entity"
    } else {
        "entities"
    };
    Reply::Output(
        "LS_RTS: transformed ".to_string().concat(decimal_text(count).as_str()).concat(" ").concat(
            noun,
        ).concat(" \u{2014} rot ").concat(t.rotation.as_str()).concat("\u{b0} CCW+, scale ").concat(
            t.scale.as_str(),
        ).concat(", base (").concat(t.base_north.as_str()).concat(",").concat(
            t.base_east.as_str(),
        ).concat(") -> (").concat(t.to_north.as_str()).concat(",").concat(t.to_east.as_str()).concat(
            ").",
        ),
    )
}

// ---------------------------------------------------------------------------
// LS_HELMERT
// ---------------------------------------------------------------------------

/// The pairs of a file that are too few for a fit.
pub open spec fn too_few_pairs(path: Seq<char>, n: nat) -> Seq<char> {
    "\""@ + path + "\" has "@ + decimal(n) + " control pair(s); need at least 2"@
}

/// Tests whether there are pairs enough for a fit: two or more.
pub fn check_pairs(path: &str, n: usize) -> (r: Result<(), String>)
    ensures
        match r {
            Ok(_) => n >= 2,
            Err(why) => n < 2 && why@ == too_few_pairs(path@, n as nat),
        },
{
    if n >= 2 {
        Ok(())
    } else {
        Err(
            "\"".to_string().concat(path).concat("\" has ").concat(decimal_text(n).as_str()).concat(
                " control pair(s); need at least 2",
            ),
        )
    }
}

/// Says in a command why there are too few pairs or too few shots.
pub fn refuse(command: &str, why: &str) -> (r: Reply)
    ensures
        r@ == Said::Error(command@ + ": "@ + why@ + "."@),
{
    Reply::Error(command.to_string().concat(": ").concat(why).concat("."))
}

/// Says in a command what went wrong with a file or a computation.
pub fn failed(command: &str, why: &str) -> (r: Reply)
    ensures
        r@ == Said::Error(command@ + ": "@ + why@),
{
    Reply::Error(command.to_string().concat(": ").concat(why))
}

/// Says of a file why it cannot be used.
pub fn in_file(path: &str, why: &str) -> (r: String)
    ensures
        r@ == "\""@ + path@ + "\": "@ + why@,
{
    "\"".to_string().concat(path).concat("\": ").concat(why)
}

/// Says where an animation was written.
pub fn animation_written(path: &str) -> (r: Reply)
    ensures
        r@ == Said::Output("LS animation -> "@ + path@ + " (open in a browser)"@),
{
    Reply::Output("LS animation -> ".to_string().concat(path).concat(" (open in a browser)"))
}

/// Says that an animation could not be written, and why.
pub fn animation_failed(why: &str) -> (r: Reply)
    ensures
        r@ == Said::Error("LS animation: cannot write SVG: "@ + why@),
{
    Reply::Error("LS animation: cannot write SVG: ".to_string().concat(why))
}

/// A fit as texts.
#[derive(Debug, PartialEq, Eq)]
pub struct Fit {
    pub source_east: String,
    pub source_north: String,
    pub target_east: String,
    pub target_north: String,
    pub sxx: String,
    pub sxy: String,
    pub sum_sq: String,
    pub scale: String,
    pub rotation: String,
    pub east: String,
    pub north: String,
    pub rms: String,
    pub max: String,
    pub residuals: Vec<String>,
}

/// The steps of a fit, each on a line. The formulas stand behind the steps where
/// they are wanted.
pub open spec fn steps_of(f: Fit, formulas: bool) -> Seq<Seq<char>> {
    let scale = if formulas {
        "   (hypot(a,b); a=Sxx/S|d|^2, b=Sxy/S|d|^2)"@
    } else {
        Seq::empty()
    };
    let rotation = if formulas {
        "   (atan2(b,a))"@
    } else {
        Seq::empty()
    };
    let translation = if formulas {
        "   (centroid_dst - s*R*centroid_src)"@
    } else {
        Seq::empty()
    };
    seq![
        "  step 1  source centroid : E "@ + f.source_east@ + ", N "@ + f.source_north@,
        "  step 2  target centroid : E "@ + f.target_east@ + ", N "@ + f.target_north@,
        "  step 3  cross-cov sums  : Sxx "@ + f.sxx@ + ", Sxy "@ + f.sxy@ + ", S|d|^2 "@ + f.sum_sq@,
        "  step 4  scale  s        : "@ + f.scale@ + scale,
        "  step 5  rotation theta  : "@ + f.rotation@ + "\u{b0} CCW+"@ + rotation,
        "  step 6  translation     : E "@ + f.east@ + ", N "@ + f.north@ + translation,
        "  step 7  residuals       : RMS "@ + f.rms@ + ", max "@ + f.max@ + "  ("@ + decimal(
            f.residuals@.len(),
        ) + " pairs)"@,
    ]
}

/// The residual of a pair in a report.
pub open spec fn residual_of(i: nat, residual: Seq<char>) -> Seq<char> {
    "            pair "@ + aligned(decimal(i + 1), 2) + ": "@ + residual
}

/// The residuals of pairs in a report.
pub open spec fn residuals_of(residuals: Seq<Seq<char>>) -> Seq<Seq<char>> {
    Seq::new(residuals.len(), |i: int| residual_of(i as nat, residuals[i]))
}

/// Writes the steps of a fit.
pub(crate) fn write_steps(f: &Fit, formulas: bool) -> (r: Vec<String>)
    ensures
        views(r@) == steps_of(*f, formulas),
{
    let (scale, rotation, translation) = if formulas {
        (
            "   (hypot(a,b); a=Sxx/S|d|^2, b=Sxy/S|d|^2)",
            "   (atan2(b,a))",
            "   (centroid_dst - s*R*centroid_src)",
        )
    } else {
        ("", "", "")
    };
    proof {
        reveal_strlit("");
        assert(""@ =~= Seq::empty());
    }
    let mut r: Vec<String> = Vec::new();
    r.push(
        "  step 1  source centroid : E ".to_string().concat(f.source_east.as_str()).concat(
            ", N ",
        ).concat(f.source_north.as_str()),
    );
    r.push(
        "  step 2  target centroid : E ".to_string().concat(f.target_east.as_str()).concat(
            ", N ",
        ).concat(f.target_north.as_str()),
    );
    r.push(
        "  step 3  cross-cov sums  : Sxx ".to_string().concat(f.sxx.as_str()).concat(", Sxy ").concat(
            f.sxy.as_str(),
        ).concat(", S|d|^2 ").concat(f.sum_sq.as_str()),
    );
    r.push("  step 4  scale  s        : ".to_string().concat(f.scale.as_str()).concat(scale));
    r.push(
        "  step 5  rotation theta  : ".to_string().concat(f.rotation.as_str()).concat(
            "\u{b0} CCW+",
        ).concat(rotation),
    );
    r.push(
        "  step 6  translation     : E ".to_string().concat(f.east.as_str()).concat(", N ").concat(
            f.north.as_str(),
        ).concat(translation),
    );
    r.push(
        "  step 7  residuals       : RMS ".to_string().concat(f.rms.as_str()).concat(", max ").concat(
            f.max.as_str(),
        ).concat("  (").concat(decimal_text(f.residuals.len()).as_str()).concat(" pairs)"),
    );
    assert(views(r@) =~= steps_of(*f, formulas));
    r
}

/// Writes the residual of a pair.
pub(crate) fn write_residual(i: usize, residual: &str) -> (r: String)
    requires
        i < usize::MAX,
    ensures
        r@ == residual_of(i as nat, residual@),
{
    "            pair ".to_string().concat(
        align(decimal_text(i + 1).as_str(), 2).as_str(),
    ).concat(": ").concat(residual)
}

/// Texts as results.
pub open spec fn outputs(lines: Seq<Seq<char>>) -> Seq<Said> {
    lines.map_values(|s: Seq<char>| Said::Output(s))
}

/// The first of some texts, as many as are wanted.
pub open spec fn at_most<A>(list: Seq<A>, n: nat) -> Seq<A> {
    if list.len() <= n {
        list
    } else {
        list.take(n as int)
    }
}

/// The head of the report of a fit.
pub const HELMERT_HEAD: &'static str = "LS_HELMERT \u{2014} 2D 4-parameter conformal (Rotate/Translate/Scale):";

/// What `LS_HELMERT` says of a fit: its steps, and the residual of every pair.
pub open spec fn helmert_report_of(f: Fit) -> Seq<Said> {
    seq![Said::Output(HELMERT_HEAD@)] + outputs(steps_of(f, false)) + outputs(
        residuals_of(views(f.residuals@)),
    )
}

/// `LS_HELMERT`: reports a fit.
pub fn helmert_report(f: &Fit) -> (r: Vec<Reply>)
    ensures
        replies(r@) == helmert_report_of(*f),
{
    let mut r: Vec<Reply> = Vec::new();
    r.push(Reply::Output(HELMERT_HEAD.to_string()));
    let ghost head = seq![Said::Output(HELMERT_HEAD@)];
    let steps = write_steps(f, false);
    let ghost all_steps = outputs(steps_of(*f, false));
    let mut i: usize = 0;
    assert(replies(r@) =~= head + all_steps.take(0));
    while i < steps.len()
        invariant
            i <= steps.len(),
            views(steps@) == steps_of(*f, false),
            all_steps == outputs(steps_of(*f, false)),
            replies(r@) =~= head + all_steps.take(i as int),
        decreases steps.len() - i,
    {
        let line = Reply::Output(steps[i].clone());
        proof {
            lemma_replies_push(r@, line);
            assert(views(steps@)[i as int] == steps@[i as int]@);
            assert(all_steps.take(i + 1) =~= all_steps.take(i as int).push(all_steps[i as int]));
        }
        r.push(line);
        i += 1;
    }
    assert(views(steps@).len() == steps@.len());
    assert(all_steps.take(i as int) =~= all_steps);
    let ghost before = replies(r@);
    let ghost rows = outputs(residuals_of(views(f.residuals@)));
    let mut j: usize = 0;
    assert(before + rows.take(0) =~= before);
    while j < f.residuals.len()
        invariant
            j <= f.residuals.len(),
            rows == outputs(residuals_of(views(f.residuals@))),
            replies(r@) =~= before + rows.take(j as int),
        decreases f.residuals.len() - j,
    {
        let line = Reply::Output(write_residual(j, f.residuals[j].as_str()));
        proof {
            lemma_replies_push(r@, line);
            assert(views(f.residuals@)[j as int] == f.residuals@[j as int]@);
            assert(rows.take(j + 1) =~= rows.take(j as int).push(rows[j as int]));
        }
        r.push(line);
        j += 1;
    }
    assert(rows.take(j as int) =~= rows);
    r
}

/// Says how many entities show the stages of a fit.
pub fn stages_drawn(n: usize) -> (r: Reply)
    ensures
        r@ == Said::Output(
            "LS_HELMERT: drew "@ + decimal(n as nat)
                + " stage entities (layers LS-HMT-0-SRC..3-FINAL, TARGET, RESID, PATH)."@,
        ),
{
    Reply::Output(
        "LS_HELMERT: drew ".to_string().concat(decimal_text(n).as_str()).concat(
            " stage entities (layers LS-HMT-0-SRC..3-FINAL, TARGET, RESID, PATH).",
        ),
    )
}

/// Says to how many entities a fit was applied.
pub fn fit_applied(count: usize) -> (r: Reply)
    ensures
        r@ == Said::Output(
            "LS_HELMERT: applied fit to "@ + decimal(count as nat) + " entit"@ + (if count == 1 {
                "y"@
            } else {
                "ies"@
            }) + "."@,
        ),
{
    Reply::Output(
        "LS_HELMERT: applied fit to ".to_string().concat(decimal_text(count).as_str()).concat(
            " entit",
        ).concat(
            if count == 1 {
                "y"
            } else {
                "ies"
            },
        ).concat("."),
    )
}

// ---------------------------------------------------------------------------
// LS_RESECT
// ---------------------------------------------------------------------------

/// How a station is found.
#[derive(Debug, Clone, Copy, PartialEq, Eq, Structural)]
pub enum Method {
    /// From directions and distances, by least squares.
    Combined,
    /// From the directions to three points.
    ThreePoint,
}

/// How many shots carry a distance.
pub open spec fn measured(shots: Seq<bool>) -> nat
    decreases shots.len(),
{
    if shots.len() == 0 {
        0
    } else {
        measured(shots.drop_last()) + if shots.last() {
            1nat
        } else {
            0nat
        }
    }
}

/// Counts the shots that carry a distance.
fn count_measured(shots: &Vec<bool>) -> (n: usize)
    ensures
        n == measured(shots@),
        n <= shots@.len(),
{
    let mut n: usize = 0;
    let mut i: usize = 0;
    assert(shots@.take(0) =~= Seq::empty());
    while i < shots.len()
        invariant
            i <= shots.len(),
            n <= i,
            n == measured(shots@.take(i as int)),
        decreases shots.len() - i,
    {
        assert(shots@.take(i + 1).drop_last() =~= shots@.take(i as int));
        if shots[i] {
            n += 1;
        }
        i += 1;
    }
    assert(shots@.take(i as int) =~= shots@);
    n
}

/// Shots that are too few for a resection.
pub open spec fn too_few_shots(path: Seq<char>, n: nat) -> Seq<char> {
    "\""@ + path + "\" has "@ + decimal(n) + " usable shot(s); need at least 2"@
}

/// Shots that no method takes.
pub open spec fn unsuited_shots(n: nat, measured: nat) -> Seq<char> {
    "need >=2 distance shots (combined) or exactly 3 angle shots (three-point); got "@ + decimal(n)
        + " shots, "@ + decimal(measured) + " with distances"@
}

/// Which method takes some shots, or why none does. Two distances or more allow
/// the combined method; without any, three shots allow the other.
pub open spec fn method_of(path: Seq<char>, shots: Seq<bool>) -> Result<Method, Seq<char>> {
    if shots.len() < 2 {
        Err(too_few_shots(path, shots.len()))
    } else if measured(shots) >= 2 {
        Ok(Method::Combined)
    } else if shots.len() == 3 && measured(shots) == 0 {
        Ok(Method::ThreePoint)
    } else {
        Err(unsuited_shots(shots.len(), measured(shots)))
    }
}

/// Chooses the method for the shots of a file, given which of them carry a
/// distance.
pub fn choose_method(path: &str, shots: &Vec<bool>) -> (r: Result<Method, String>)
    ensures
        match r {
            Ok(m) => method_of(path@, shots@) == Ok::<Method, Seq<char>>(m),
            Err(why) => method_of(path@, shots@) == Err::<Method, Seq<char>>(why@),
        },
        r == Ok::<Method, String>(Method::Combined) <==> exists|i: int, j: int|
            0 <= i < j < shots@.len() && #[trigger] shots@[i] && #[trigger] shots@[j],
        r == Ok::<Method, String>(Method::ThreePoint) <==> shots@ == seq![false, false, false],
{
    proof {
        law_method_by_distances(path@, shots@);
    }
    if shots.len() < 2 {
        return Err(
            "\"".to_string().concat(path).concat("\" has ").concat(
                decimal_text(shots.len()).as_str(),
            ).concat(" usable shot(s); need at least 2"),
        );
    }
    let n = count_measured(shots);
    if n >= 2 {
        Ok(Method::Combined)
    } else if shots.len() == 3 && n == 0 {
        Ok(Method::ThreePoint)
    } else {
        Err(
            "need >=2 distance shots (combined) or exactly 3 angle shots (three-point); got ".to_string().concat(
                decimal_text(shots.len()).as_str(),
            ).concat(" shots, ").concat(decimal_text(n).as_str()).concat(" with distances"),
        )
    }
}

/// A station by the combined method, as texts.
#[derive(Debug, PartialEq, Eq)]
pub struct CombinedTexts {
    pub east: String,
    pub north: String,
    pub orientation: String,
    pub scale: String,
    /// The scale is so far from one that a distance must be wrong.
    pub blunder: bool,
    pub rms: String,
    /// The names of the shots and their residuals.
    pub residuals: Vec<(String, String)>,
}

/// A station by the three-point method, as texts.
#[derive(Debug, PartialEq, Eq)]
pub struct ThreePointTexts {
    pub east: String,
    pub north: String,
    pub orientation: String,
    pub subtended: (String, String, String),
    pub amplification: String,
    /// The station is near the circle through the three points.
    pub danger: bool,
}

/// The station in a report.
pub open spec fn station_of(east: Seq<char>, north: Seq<char>) -> Seq<char> {
    "  station (E,N) : "@ + east + ", "@ + north
}

/// The orientation in a report.
pub open spec fn orientation_of(orientation: Seq<char>) -> Seq<char> {
    "  orientation   : "@ + orientation + "\u{b0}  (grid azimuth = reading + orientation)"@
}

/// The residual of a shot in a report.
pub open spec fn shot_residual(name: Seq<char>, residual: Seq<char>) -> Seq<char> {
    "            "@ + aligned(name, 6) + ": "@ + residual
}

/// The residuals of shots in a report.
pub open spec fn shot_residuals(list: Seq<(String, String)>) -> Seq<Seq<char>> {
    list.map_values(|s: (String, String)| shot_residual(s.0@, s.1@))
}

/// The subtended angles in a report.
pub open spec fn subtended_of(t: ThreePointTexts) -> Seq<char> {
    "  subtended     : BPC "@ + t.subtended.0@ + "\u{b0}, CPA "@ + t.subtended.1@ + "\u{b0}, APB "@
        + t.subtended.2@ + "\u{b0}"@
}

/// The warning that comes with a station near the danger circle.
pub open spec fn danger_of(danger: bool) -> Seq<char> {
    if danger {
        "  <-- WARNING: near danger circle"@
    } else {
        Seq::empty()
    }
}

/// Writes the station for a report.
pub(crate) fn write_station(east: &str, north: &str) -> (r: String)
    ensures
        r@ == station_of(east@, north@),
{
    "  station (E,N) : ".to_string().concat(east).concat(", ").concat(north)
}

/// Writes the orientation for a report.
pub(crate) fn write_orientation(orientation: &str) -> (r: String)
    ensures
        r@ == orientation_of(orientation@),
{
    "  orientation   : ".to_string().concat(orientation).concat(
        "\u{b0}  (grid azimuth = reading + orientation)",
    )
}

/// Writes the residual of a shot for a report.
pub(crate) fn write_shot(name: &str, residual: &str) -> (r: String)
    ensures
        r@ == shot_residual(name@, residual@),
{
    "            ".to_string().concat(align(name, 6).as_str()).concat(": ").concat(residual)
}

/// Writes the subtended angles for a report.
pub(crate) fn write_subtended(t: &ThreePointTexts) -> (r: String)
    ensures
        r@ == subtended_of(*t),
{
    "  subtended     : BPC ".to_string().concat(t.subtended.0.as_str()).concat(
        "\u{b0}, CPA ",
    ).concat(t.subtended.1.as_str()).concat("\u{b0}, APB ").concat(t.subtended.2.as_str()).concat(
        "\u{b0}",
    )
}

/// Writes the warning that comes with a station near the danger circle.
pub(crate) fn write_danger(danger: bool) -> (r: String)
    ensures
        r@ == danger_of(danger),
{
    if danger {
        "  <-- WARNING: near danger circle".to_string()
    } else {
        String::new()
    }
}

/// What `LS_RESECT` says of a station by the combined method: the figures, and the
/// residuals of the first twelve shots.
pub open spec fn combined_report_of(t: CombinedTexts) -> Seq<Said> {
    let warning = if t.blunder {
        "  <-- WARNING: strays from 1.0 (distance/EDM blunder?)"@
    } else {
        Seq::empty()
    };
    outputs(
        seq![
            "LS_RESECT \u{2014} combined (direction + distance, least-squares):"@,
            station_of(t.east@, t.north@),
            orientation_of(t.orientation@),
            "  scale check   : "@ + t.scale@ + warning,
            "  residuals RMS : "@ + t.rms@ + " ("@ + decimal(t.residuals@.len()) + " shots)"@,
        ],
    ) + outputs(shot_residuals(at_most(t.residuals@, 12)))
}

/// `LS_RESECT`: reports a station by the combined method.
pub fn combined_report(t: &CombinedTexts) -> (r: Vec<Reply>)
    ensures
        replies(r@) == combined_report_of(*t),
{
    let mut r: Vec<Reply> = Vec::new();
    r.push(
        Reply::Output(
            "LS_RESECT \u{2014} combined (direction + distance, least-squares):".to_string(),
        ),
    );
    r.push(Reply::Output(write_station(t.east.as_str(), t.north.as_str())));
    r.push(Reply::Output(write_orientation(t.orientation.as_str())));
    let warning = if t.blunder {
        "  <-- WARNING: strays from 1.0 (distance/EDM blunder?)".to_string()
    } else {
        String::new()
    };
    r.push(
        Reply::Output(
            "  scale check   : ".to_string().concat(t.scale.as_str()).concat(warning.as_str()),
        ),
    );
    r.push(
        Reply::Output(
            "  residuals RMS : ".to_string().concat(t.rms.as_str()).concat(" (").concat(
                decimal_text(t.residuals.len()).as_str(),
            ).concat(" shots)"),
        ),
    );
    let ghost before = replies(r@);
    let upto: usize = if t.residuals.len() <= 12 {
        t.residuals.len()
    } else {
        12
    };
    let ghost shown = at_most(t.residuals@, 12);
    let ghost rows = outputs(shot_residuals(shown));
    let mut i: usize = 0;
    assert(before + rows.take(0) =~= before);
    while i < upto
        invariant
            i <= upto <= t.residuals.len(),
            upto == shown.len(),
            shown == at_most(t.residuals@, 12),
            rows == outputs(shot_residuals(shown)),
            replies(r@) =~= before + rows.take(i as int),
        decreases upto - i,
    {
        let shot = &t.residuals[i];
        let line = Reply::Output(write_shot(shot.0.as_str(), shot.1.as_str()));
        proof {
            lemma_replies_push(r@, line);
            assert(shown[i as int] == t.residuals@[i as int]);
            assert(rows.take(i + 1) =~= rows.take(i as int).push(rows[i as int]));
        }
        r.push(line);
        i += 1;
    }
    proof {
        assert(rows.take(i as int) =~= rows);
        assert(replies(r@) =~= combined_report_of(*t));
    }
    r
}

/// What `LS_RESECT` says of a station by the three-point method.
pub open spec fn three_point_report_of(t: ThreePointTexts) -> Seq<Said> {
    outputs(
        seq![
            "LS_RESECT \u{2014} angle-only three-point (Tienstra):"@,
            station_of(t.east@, t.north@),
            orientation_of(t.orientation@),
            subtended_of(t),
            "  amplification : "@ + t.amplification@ + "x"@ + danger_of(t.danger),
        ],
    )
}

/// `LS_RESECT`: reports a station by the three-point method.
pub fn three_point_report(t: &ThreePointTexts) -> (r: Vec<Reply>)
    ensures
        replies(r@) == three_point_report_of(*t),
{
    let mut r: Vec<Reply> = Vec::new();
    r.push(Reply::Output("LS_RESECT \u{2014} angle-only three-point (Tienstra):".to_string()));
    r.push(Reply::Output(write_station(t.east.as_str(), t.north.as_str())));
    r.push(Reply::Output(write_orientation(t.orientation.as_str())));
    r.push(Reply::Output(write_subtended(t)));
    r.push(
        Reply::Output(
            "  amplification : ".to_string().concat(t.amplification.as_str()).concat("x").concat(
                write_danger(t.danger).as_str(),
            ),
        ),
    );
    assert(replies(r@) =~= three_point_report_of(*t));
    r
}

/// The caption of the picture of a combined resection.
pub fn combined_caption(orientation: &str, scale: &str, rms: &str) -> (r: String)
    ensures
        r@ == "combined resection \u{b7} orient "@ + orientation@ + "\u{b0} \u{b7} scale "@ + scale@
            + " \u{b7} RMS "@ + rms@,
{
    "combined resection \u{b7} orient ".to_string().concat(orientation).concat(
        "\u{b0} \u{b7} scale ",
    ).concat(scale).concat(" \u{b7} RMS ").concat(rms)
}

/// The caption of the picture of a three-point resection.
pub fn three_point_caption(orientation: &str, amplification: &str) -> (r: String)
    ensures
        r@ == "angle-only three-point \u{b7} orient "@ + orientation@
            + "\u{b0} \u{b7} amplification "@ + amplification@ + "x"@,
{
    "angle-only three-point \u{b7} orient ".to_string().concat(orientation).concat(
        "\u{b0} \u{b7} amplification ",
    ).concat(amplification).concat("x")
}

/// The label of a station in the drawing.
pub fn station_label(east: &str, north: &str) -> (r: String)
    ensures
        r@ == "STA E"@ + east@ + " N"@ + north@,
{
    "STA E".to_string().concat(east).concat(" N").concat(north)
}

/// Says what `LS_RESECT` has drawn.
pub fn resection_drawn(rays: usize) -> (r: Reply)
    ensures
        r@ == Said::Output(
            "LS_RESECT: drew station + "@ + decimal(rays as nat)
                + " ray(s) (layers LS-RESECT-STATION/KNOWN/RAYS/LABEL)."@,
        ),
{
    Reply::Output(
        "LS_RESECT: drew station + ".to_string().concat(decimal_text(rays).as_str()).concat(
            " ray(s) (layers LS-RESECT-STATION/KNOWN/RAYS/LABEL).",
        ),
    )
}

} // verus!
