//! What each subcommand of the survey program is asked to do.

use vstd::prelude::*;

use crate::cli::{
    bad_pair, flag_views, get, is_double, opt, output_of, pair_of, parse_ne, split_args, split_of,
    value_of, Arguments,
};
use crate::layers::optional_view;
use crate::number::{is_positive, read_double, Double, Sign};
use crate::text::{lemma_views_push, same, views};

verus! {

/// The positionals among the words of a subcommand.
pub open spec fn positionals(args: Seq<Seq<char>>, flags: Seq<Seq<char>>) -> Seq<Seq<char>> {
    split_of(args, flags).0
}

/// The options among the words of a subcommand.
pub open spec fn options(args: Seq<Seq<char>>, flags: Seq<Seq<char>>) -> Seq<(Seq<char>, Seq<char>)> {
    split_of(args, flags).1
}

/// How a surface is made.
pub const SURFACE_HELP: &'static str = "usage: surface <points.csv> [-o out.dxf]";

/// How a volume is computed.
pub const VOLUME_HELP: &'static str = "usage: volume <top.csv> <bottom.csv> [--grid step] [-o out.dxf]";

/// How a surface is compared with a datum.
pub const DATUM_HELP: &'static str = "usage: datum <surface> <elevation> [-o out.dxf]";

/// How points are transformed.
pub const RTS_HELP: &'static str = "usage: rts <points.csv> --base <N,E> [--to <N,E>] [--rot deg] [--scale s]";

/// How a fit is made.
pub const HELMERT_HELP: &'static str = "usage: helmert <pairs.csv> [--apply points.csv] [--anim out.svg] [-o out.dxf]";

/// How a station is found.
pub const RESECT_HELP: &'static str = "usage: resect <shots.csv> [--anim out.svg] [-o out.dxf]";

/// How two points are inversed.
pub const INVERSE_HELP: &'static str = "usage: inverse <N1> <E1> <N2> <E2> [--anim out.svg]";

/// Cuts the words of a subcommand whose only option is where the output goes.
fn with_output(args: &[String]) -> (a: Arguments)
    ensures
        a@ == split_of(views(args@), output_flags()),
{
    let flags: Vec<&str> = vec!["-o", "--out"];
    assert(flag_views(flags@) =~= output_flags());
    split_args(args, flags.as_slice())
}

/// The flags that say where the output goes.
pub open spec fn output_flags() -> Seq<Seq<char>> {
    seq!["-o"@, "--out"@]
}

// ---------------------------------------------------------------------------
// surface, volume and datum
// ---------------------------------------------------------------------------

/// A surface to make of a file.
#[derive(Debug, PartialEq, Eq)]
pub struct SurfacePlan {
    pub path: String,
    pub out: Option<String>,
}

/// `surface <points.csv> [-o out.dxf]`.
pub fn plan_surface(args: &[String]) -> (r: Result<SurfacePlan, String>)
    ensures
        ({
            let p = positionals(views(args@), output_flags());
            match r {
                Ok(q) => p.len() > 0 && q.path@ == p[0] && optional_view(q.out) == output_of(
                    options(views(args@), output_flags()),
                ),
                Err(why) => p.len() == 0 && why@ == SURFACE_HELP@,
            }
        }),
{
    let a = with_output(args);
    assert(a@.0.len() == a.positionals@.len());
    if a.positionals.len() == 0 {
        return Err(SURFACE_HELP.to_string());
    }
    Ok(SurfacePlan { path: a.positionals[0].clone(), out: opt(&a) })
}

/// A step of the grid method.
#[derive(Debug, PartialEq, Eq)]
pub enum GridStep {
    /// The text of a positive number.
    Step(String),
    /// A text that is none.
    Invalid(String),
}

/// A volume to compute between the surfaces of two files.
#[derive(Debug, PartialEq, Eq)]
pub struct VolumePlan {
    pub top: String,
    pub bottom: String,
    pub grid: Option<GridStep>,
    pub out: String,
}

/// The flags of `volume` that take a value.
pub open spec fn volume_flags() -> Seq<Seq<char>> {
    seq!["-o"@, "--out"@, "--grid"@]
}

/// A step is what an option asks for.
pub open spec fn is_step(g: Option<GridStep>, asked: Option<Seq<char>>) -> bool {
    match asked {
        None => g is None,
        Some(s) => if is_positive(s) {
            g matches Some(GridStep::Step(t)) && t@ == s
        } else {
            g matches Some(GridStep::Invalid(t)) && t@ == s
        },
    }
}

/// `volume <top.csv> <bottom.csv> [--grid step] [-o out.dxf]`.
pub fn plan_volume(args: &[String]) -> (r: Result<VolumePlan, String>)
    ensures
        ({
            let p = positionals(views(args@), volume_flags());
            let o = options(views(args@), volume_flags());
            match r {
                Ok(q) => {
                    &&& p.len() >= 2
                    &&& q.top@ == p[0]
                    &&& q.bottom@ == p[1]
                    &&& is_step(q.grid, value_of(o, "grid"@))
                    &&& q.out@ == match output_of(o) {
                        Some(path) => path,
                        None => "volume.dxf"@,
                    }
                },
                Err(why) => p.len() < 2 && why@ == VOLUME_HELP@,
            }
        }),
{
    let flags: Vec<&str> = vec!["-o", "--out", "--grid"];
    assert(flag_views(flags@) =~= volume_flags());
    let a = split_args(args, flags.as_slice());
    assert(a@.0.len() == a.positionals@.len());
    if a.positionals.len() < 2 {
        return Err(VOLUME_HELP.to_string());
    }
    let grid = match get(&a, "grid") {
        None => None,
        Some(s) => match read_double(s.as_str()) {
            Double::Infinite { negative: false } => Some(GridStep::Step(s)),
            Double::Finite { sign: Sign::Positive } => Some(GridStep::Step(s)),
            _ => Some(GridStep::Invalid(s)),
        },
    };
    let out = match opt(&a) {
        Some(path) => path,
        None => "volume.dxf".to_string(),
    };
    Ok(VolumePlan { top: a.positionals[0].clone(), bottom: a.positionals[1].clone(), grid, out })
}

/// A surface to compare with a datum.
#[derive(Debug, PartialEq, Eq)]
pub struct DatumPlan {
    pub path: String,
    /// The text of a number.
    pub elevation: String,
    pub out: Option<String>,
}

/// What is said where the elevation is no number.
pub const BAD_ELEVATION: &'static str = "elevation must be a number";

/// `datum <surface> <elevation> [-o out.dxf]`.
pub fn plan_datum(args: &[String]) -> (r: Result<DatumPlan, String>)
    ensures
        ({
            let p = positionals(views(args@), output_flags());
            match r {
                Ok(q) => p.len() >= 2 && is_double(p[1]) && q.path@ == p[0] && q.elevation@ == p[1]
                    && optional_view(q.out) == output_of(options(views(args@), output_flags())),
                Err(why) => if p.len() < 2 {
                    why@ == DATUM_HELP@
                } else {
                    !is_double(p[1]) && why@ == BAD_ELEVATION@
                },
            }
        }),
{
    let a = with_output(args);
    assert(a@.0.len() == a.positionals@.len());
    if a.positionals.len() < 2 {
        return Err(DATUM_HELP.to_string());
    }
    match read_double(a.positionals[1].as_str()) {
        Double::Malformed => Err(BAD_ELEVATION.to_string()),
        _ => Ok(
            DatumPlan {
                path: a.positionals[0].clone(),
                elevation: a.positionals[1].clone(),
                out: opt(&a),
            },
        ),
    }
}

// ---------------------------------------------------------------------------
// rts
// ---------------------------------------------------------------------------

/// Points to transform about a base.
#[derive(Debug, PartialEq, Eq)]
pub struct RtsPlan {
    pub path: String,
    /// Northing and easting of the base.
    pub base: (String, String),
    /// Where the base goes.
    pub to: (String, String),
    pub rotation: String,
    pub scale: String,
    pub csv: Option<String>,
    pub anim: Option<String>,
    pub teach: bool,
    pub out: Option<String>,
}

/// A transformation of points as texts.
pub struct RtsView {
    pub path: Seq<char>,
    pub base: (Seq<char>, Seq<char>),
    pub to: (Seq<char>, Seq<char>),
    pub rotation: Seq<char>,
    pub scale: Seq<char>,
    pub csv: Option<Seq<char>>,
    pub anim: Option<Seq<char>>,
    pub teach: bool,
    pub out: Option<Seq<char>>,
}

impl View for RtsPlan {
    type V = RtsView;

    open spec fn view(&self) -> RtsView {
        RtsView {
            path: self.path@,
            base: (self.base.0@, self.base.1@),
            to: (self.to.0@, self.to.1@),
            rotation: self.rotation@,
            scale: self.scale@,
            csv: optional_view(self.csv),
            anim: optional_view(self.anim),
            teach: self.teach,
            out: optional_view(self.out),
        }
    }
}

/// The flags of `rts` that take a value.
pub open spec fn rts_flags() -> Seq<Seq<char>> {
    seq!["-o"@, "--out"@, "--csv"@, "--base"@, "--to"@, "--rot"@, "--scale"@, "--anim"@]
}

/// A number that an option may give, or what it is without the option.
pub open spec fn number_or(
    options: Seq<(Seq<char>, Seq<char>)>,
    key: Seq<char>,
    default: Seq<char>,
) -> Option<Seq<char>> {
    match value_of(options, key) {
        None => Some(default),
        Some(s) => if is_double(s) {
            Some(s)
        } else {
            None
        },
    }
}

/// What is said where there is no base.
pub const NO_BASE: &'static str = "rts needs --base <N,E>";

/// What is said where the rotation is no number.
pub const BAD_ROTATION: &'static str = "rot must be a number";

/// What is said where the scale is no number.
pub const BAD_SCALE: &'static str = "scale must be a number";

/// The word that asks for an exaggerated picture.
pub open spec fn teaches(args: Seq<Seq<char>>) -> bool {
    args.contains("--teach"@)
}

/// What `rts` is asked to do, or why it is refused.
pub open spec fn rts_of(args: Seq<Seq<char>>) -> Result<RtsView, Seq<char>> {
    let p = positionals(args, rts_flags());
    let o = options(args, rts_flags());
    if p.len() == 0 {
        Err(RTS_HELP@)
    } else {
        match value_of(o, "base"@) {
            None => Err(NO_BASE@),
            Some(b) => match pair_of(b) {
                None => Err(bad_pair(b)),
                Some(base) => {
                    let to = match value_of(o, "to"@) {
                        None => Some(base),
                        Some(t) => pair_of(t),
                    };
                    let rotation = number_or(o, "rot"@, "0"@);
                    let scale = number_or(o, "scale"@, "1"@);
                    if to is None {
                        Err(bad_pair(value_of(o, "to"@)->0))
                    } else if rotation is None {
                        Err(BAD_ROTATION@)
                    } else if scale is None {
                        Err(BAD_SCALE@)
                    } else {
                        Ok(
                            RtsView {
                                path: p[0],
                                base,
                                to: to->0,
                                rotation: rotation->0,
                                scale: scale->0,
                                csv: value_of(o, "csv"@),
                                anim: value_of(o, "anim"@),
                                teach: teaches(args),
                                out: output_of(o),
                            },
                        )
                    }
                },
            },
        }
    }
}

/// Looks for a word.
fn has_arg(args: &[String], word: &str) -> (r: bool)
    ensures
        r == views(args@).contains(word@),
{
    let mut i: usize = 0;
    while i < args.len()
        invariant
            i <= args.len(),
            forall|j: int| 0 <= j < i ==> #[trigger] views(args@)[j] != word@,
        decreases args.len() - i,
    {
        if same(args[i].as_str(), word) {
            assert(views(args@)[i as int] == word@);
            return true;
        }
        assert(views(args@)[i as int] != word@);
        i += 1;
    }
    false
}

/// Reads a number that an option may give.
fn number_option(a: &Arguments, key: &str, default: &str) -> (r: Option<String>)
    ensures
        optional_view(r) == number_or(a@.1, key@, default@),
{
    match get(a, key) {
        None => Some(default.to_string()),
        Some(s) => match read_double(s.as_str()) {
            Double::Malformed => None,
            _ => Some(s),
        },
    }
}

/// `rts <points.csv> --base N,E [--to N,E] [--rot deg] [--scale s]`: the base stays
/// where it is unless told, and nothing is turned or scaled unless asked.
pub fn plan_rts(args: &[String]) -> (r: Result<RtsPlan, String>)
    ensures
        match r {
            Ok(q) => rts_of(views(args@)) == Ok::<RtsView, Seq<char>>(q@),
            Err(why) => rts_of(views(args@)) == Err::<RtsView, Seq<char>>(why@),
        },
{
    let flags: Vec<&str> = vec![
        "-o",
        "--out",
        "--csv",
        "--base",
        "--to",
        "--rot",
        "--scale",
        "--anim",
    ];
    assert(flag_views(flags@) =~= rts_flags());
    let a = split_args(args, flags.as_slice());
    assert(a@.0.len() == a.positionals@.len());
    if a.positionals.len() == 0 {
        return Err(RTS_HELP.to_string());
    }
    let base = match get(&a, "base") {
        None => return Err(NO_BASE.to_string()),
        Some(b) => match parse_ne(b.as_str()) {
            Ok(base) => base,
            Err(why) => return Err(why),
        },
    };
    let to = match get(&a, "to") {
        None => (base.0.clone(), base.1.clone()),
        Some(t) => match parse_ne(t.as_str()) {
            Ok(to) => to,
            Err(why) => return Err(why),
        },
    };
    let rotation = match number_option(&a, "rot", "0") {
        Some(s) => s,
        None => return Err(BAD_ROTATION.to_string()),
    };
    let scale = match number_option(&a, "scale", "1") {
        Some(s) => s,
        None => return Err(BAD_SCALE.to_string()),
    };
    Ok(
        RtsPlan {
            path: a.positionals[0].clone(),
            base,
            to,
            rotation,
            scale,
            csv: get(&a, "csv"),
            anim: get(&a, "anim"),
            teach: has_arg(args, "--teach"),
            out: opt(&a),
        },
    )
}

// ---------------------------------------------------------------------------
// helmert, resect and inverse
// ---------------------------------------------------------------------------

/// A fit to make of control pairs.
#[derive(Debug, PartialEq, Eq)]
pub struct HelmertPlan {
    pub path: String,
    pub apply: Option<String>,
    pub csv: Option<String>,
    pub anim: Option<String>,
    pub teach: bool,
    pub out: Option<String>,
}

/// The flags of `helmert` that take a value.
pub open spec fn helmert_flags() -> Seq<Seq<char>> {
    seq!["-o"@, "--out"@, "--csv"@, "--apply"@, "--anim"@]
}

/// `helmert <pairs.csv> [--apply points.csv] [--anim out.svg] [-o out.dxf]`.
pub fn plan_helmert(args: &[String]) -> (r: Result<HelmertPlan, String>)
    ensures
        ({
            let p = positionals(views(args@), helmert_flags());
            let o = options(views(args@), helmert_flags());
            match r {
                Ok(q) => {
                    &&& p.len() > 0
                    &&& q.path@ == p[0]
                    &&& optional_view(q.apply) == value_of(o, "apply"@)
                    &&& optional_view(q.csv) == value_of(o, "csv"@)
                    &&& optional_view(q.anim) == value_of(o, "anim"@)
                    &&& q.teach == teaches(views(args@))
                    &&& optional_view(q.out) == output_of(o)
                },
                Err(why) => p.len() == 0 && why@ == HELMERT_HELP@,
            }
        }),
{
    let flags: Vec<&str> = vec!["-o", "--out", "--csv", "--apply", "--anim"];
    assert(flag_views(flags@) =~= helmert_flags());
    let a = split_args(args, flags.as_slice());
    assert(a@.0.len() == a.positionals@.len());
    if a.positionals.len() == 0 {
        return Err(HELMERT_HELP.to_string());
    }
    Ok(
        HelmertPlan {
            path: a.positionals[0].clone(),
            apply: get(&a, "apply"),
            csv: get(&a, "csv"),
            anim: get(&a, "anim"),
            teach: has_arg(args, "--teach"),
            out: opt(&a),
        },
    )
}

/// A station to find from shots.
#[derive(Debug, PartialEq, Eq)]
pub struct ResectPlan {
    pub path: String,
    pub anim: Option<String>,
    pub out: Option<String>,
}

/// The flags of `resect` that take a value.
pub open spec fn resect_flags() -> Seq<Seq<char>> {
    seq!["-o"@, "--out"@, "--anim"@]
}

/// `resect <shots.csv> [--anim out.svg] [-o out.dxf]`.
pub fn plan_resect(args: &[String]) -> (r: Result<ResectPlan, String>)
    ensures
        ({
            let p = positionals(views(args@), resect_flags());
            let o = options(views(args@), resect_flags());
            match r {
                Ok(q) => p.len() > 0 && q.path@ == p[0] && optional_view(q.anim) == value_of(o, "anim"@)
                    && optional_view(q.out) == output_of(o),
                Err(why) => p.len() == 0 && why@ == RESECT_HELP@,
            }
        }),
{
    let flags: Vec<&str> = vec!["-o", "--out", "--anim"];
    assert(flag_views(flags@) =~= resect_flags());
    let a = split_args(args, flags.as_slice());
    assert(a@.0.len() == a.positionals@.len());
    if a.positionals.len() == 0 {
        return Err(RESECT_HELP.to_string());
    }
    Ok(ResectPlan { path: a.positionals[0].clone(), anim: get(&a, "anim"), out: opt(&a) })
}

/// Two points to inverse: the texts of N1, E1, N2 and E2.
#[derive(Debug, PartialEq, Eq)]
pub struct InversePlan {
    pub coordinates: Vec<String>,
    pub anim: Option<String>,
}

/// The flags of `inverse` that take a value.
pub open spec fn inverse_flags() -> Seq<Seq<char>> {
    seq!["--anim"@, "-o"@, "--out"@]
}

/// The predicate "is a number".
pub open spec fn numeric() -> spec_fn(Seq<char>) -> bool {
    |s: Seq<char>| is_double(s)
}

/// `inverse <N1> <E1> <N2> <E2> [--anim out.svg]`: takes the first four numbers,
/// and passes over words that are none. The picture goes where the output goes, or
/// else where `--anim` says.
pub fn plan_inverse(args: &[String]) -> (r: Result<InversePlan, String>)
    ensures
        ({
            let n = positionals(views(args@), inverse_flags()).filter(numeric());
            let o = options(views(args@), inverse_flags());
            match r {
                Ok(q) => {
                    &&& n.len() >= 4
                    &&& views(q.coordinates@) == n.take(4)
                    &&& optional_view(q.anim) == (if output_of(o) is Some {
                        output_of(o)
                    } else {
                        value_of(o, "anim"@)
                    })
                },
                Err(why) => n.len() < 4 && why@ == INVERSE_HELP@,
            }
        }),
{
    let flags: Vec<&str> = vec!["--anim", "-o", "--out"];
    assert(flag_views(flags@) =~= inverse_flags());
    let a = split_args(args, flags.as_slice());
    let ghost all = a@.0;
    let mut numbers: Vec<String> = Vec::new();
    let mut i: usize = 0;
    proof {
        reveal(Seq::filter);
        assert(all.take(0).filter(numeric()) =~= Seq::empty());
    }
    while i < a.positionals.len()
        invariant
            i <= a.positionals.len(),
            all == views(a.positionals@),
            views(numbers@) =~= all.take(i as int).filter(numeric()),
        decreases a.positionals.len() - i,
    {
        let s = a.positionals[i].clone();
        proof {
            reveal(Seq::filter);
            assert(all.take(i + 1).drop_last() =~= all.take(i as int));
            assert(all.take(i + 1).last() == s@);
            lemma_views_push(numbers@, s);
        }
        match read_double(s.as_str()) {
            Double::Malformed => {},
            _ => {
                numbers.push(s);
            },
        }
        i += 1;
    }
    assert(all.take(i as int) =~= all);
    assert(views(numbers@).len() == numbers@.len());
    if numbers.len() < 4 {
        return Err(INVERSE_HELP.to_string());
    }
    let ghost found = views(numbers@);
    numbers.truncate(4);
    assert(views(numbers@) =~= found.take(4));
    let anim = match opt(&a) {
        Some(path) => Some(path),
        None => get(&a, "anim"),
    };
    Ok(InversePlan { coordinates: numbers, anim })
}

} // verus!
