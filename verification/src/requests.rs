//! What the commands with words for arguments ask for, and how a request that
//! cannot be met is answered.

use vstd::prelude::*;
use vstd::slice::slice_subrange;

use crate::console::{info, Reply, Said};
use crate::dispatch::{argument, argument_in};
use crate::number::{double_of, is_finite, is_positive, read_double, Double, Sign};
use crate::request_laws::{are_the_surfaces, law_the_first_two_names_are_the_surfaces};
use crate::text::{
    chars_of, decimal, decimal_text, lemma_views_push, lower_text, lowered, same_but_case,
    same_ignoring_case, split_words, string_of, trim, trimmed, views, words,
};

verus! {

/// The words behind the verb of a command.
pub open spec fn arguments(cmd: Seq<char>) -> Seq<Seq<char>> {
    let w = words(cmd);
    if w.len() == 0 {
        w
    } else {
        w.skip(1)
    }
}

/// Cuts a command into its words.
fn words_of(cmd: &str) -> (r: Vec<String>)
    ensures
        views(r@) == words(cmd@),
{
    let v = chars_of(cmd);
    split_words(v.as_slice())
}

/// Drops the verb of a command.
fn without_verb(all: &Vec<String>) -> (r: Vec<String>)
    ensures
        views(r@) == (if views(all@).len() == 0 {
            views(all@)
        } else {
            views(all@).skip(1)
        }),
{
    let mut r: Vec<String> = Vec::new();
    let mut i: usize = 1;
    if all.len() == 0 {
        assert(views(r@) =~= views(all@));
        return r;
    }
    while i < all.len()
        invariant
            1 <= i <= all.len(),
            views(r@) =~= views(all@).subrange(1, i as int),
        decreases all.len() - i,
    {
        let s = all[i].clone();
        proof {
            lemma_views_push(r@, s);
        }
        r.push(s);
        i += 1;
    }
    assert(views(r@) =~= views(all@).skip(1));
    r
}

/// A word that equals a keyword but for its case occurs among some words.
pub open spec fn mentions(w: Seq<Seq<char>>, keyword: Seq<char>) -> bool {
    exists|i: int| 0 <= i < w.len() && same_but_case(#[trigger] w[i], keyword)
}

/// Looks for a keyword.
pub(crate) fn has_word(w: &Vec<String>, keyword: &str) -> (r: bool)
    ensures
        r == mentions(views(w@), keyword@),
{
    let mut i: usize = 0;
    while i < w.len()
        invariant
            i <= w.len(),
            forall|j: int| 0 <= j < i ==> !same_but_case(#[trigger] views(w@)[j], keyword@),
        decreases w.len() - i,
    {
        if same_ignoring_case(w[i].as_str(), keyword) {
            assert(same_but_case(views(w@)[i as int], keyword@));
            return true;
        }
        assert(!same_but_case(views(w@)[i as int], keyword@));
        i += 1;
    }
    false
}

/// The first word that no finite number can be read from.
pub open spec fn first_unreadable(w: Seq<Seq<char>>) -> Option<Seq<char>>
    decreases w.len(),
{
    if w.len() == 0 {
        None
    } else if !is_finite(w[0]) {
        Some(w[0])
    } else {
        first_unreadable(w.skip(1))
    }
}

/// Looks for the first word that no finite number can be read from.
fn find_unreadable(w: &Vec<String>) -> (r: Option<usize>)
    ensures
        match r {
            Some(i) => i < w@.len() && first_unreadable(views(w@)) == Some(views(w@)[i as int]),
            None => first_unreadable(views(w@)) is None,
        },
{
    let mut i: usize = 0;
    assert(views(w@).skip(0) =~= views(w@));
    while i < w.len()
        invariant
            i <= w.len(),
            first_unreadable(views(w@).skip(i as int)) == first_unreadable(views(w@)),
        decreases w.len() - i,
    {
        let finite = match read_double(w[i].as_str()) {
            Double::Finite { .. } => true,
            _ => false,
        };
        assert(views(w@).skip(i as int)[0] == w@[i as int]@);
        assert(views(w@).skip(i as int).skip(1) =~= views(w@).skip(i + 1));
        if !finite {
            return Some(i);
        }
        i += 1;
    }
    None
}

// ---------------------------------------------------------------------------
// LS_INVERSE
// ---------------------------------------------------------------------------

/// How two coordinates are inversed.
pub const INVERSE_USAGE: &'static str = "Usage: LS_INVERSE <N1> <E1> <N2> <E2> [draw] [anim]";

/// Two points to inverse: the texts of N1, E1, N2 and E2.
#[derive(Debug, Clone, PartialEq, Eq)]
pub struct InverseRequest {
    pub coordinates: Vec<String>,
    pub draw: bool,
    pub anim: bool,
}

/// A keyword of the command, as against a coordinate.
pub open spec fn is_inverse_keyword(w: Seq<char>) -> bool {
    same_but_case(w, "draw"@) || same_but_case(w, "anim"@)
}

/// The predicate "is meant as a coordinate".
pub open spec fn coordinate() -> spec_fn(Seq<char>) -> bool {
    |w: Seq<char>| !is_inverse_keyword(w)
}

/// Why a request is refused, if it is.
pub open spec fn inverse_refusal(cmd: Seq<char>) -> Option<Said> {
    let given = arguments(cmd).filter(coordinate());
    if arguments(cmd).len() == 0 {
        Some(Said::Info(INVERSE_USAGE@))
    } else if first_unreadable(given) is Some {
        Some(
            Said::Error(
                "LS_INVERSE: \""@ + first_unreadable(given)->0 + "\" is not a finite number. "@
                    + INVERSE_USAGE@,
            ),
        )
    } else if given.len() != 4 {
        Some(
            Said::Error(
                "LS_INVERSE: expected 4 coordinates, got "@ + decimal(given.len()) + ". "@
                    + INVERSE_USAGE@,
            ),
        )
    } else {
        None
    }
}

/// Keeps the words that are meant as coordinates.
fn coordinates_in(w: &Vec<String>) -> (r: Vec<String>)
    ensures
        views(r@) == views(w@).filter(coordinate()),
{
    let mut r: Vec<String> = Vec::new();
    let mut i: usize = 0;
    proof {
        reveal(Seq::filter);
        assert(views(w@).take(0).filter(coordinate()) =~= Seq::empty());
    }
    while i < w.len()
        invariant
            i <= w.len(),
            views(r@) =~= views(w@).take(i as int).filter(coordinate()),
        decreases w.len() - i,
    {
        let s = w[i].clone();
        let keyword = same_ignoring_case(s.as_str(), "draw") || same_ignoring_case(
            s.as_str(),
            "anim",
        );
        proof {
            reveal(Seq::filter);
            assert(views(w@).take(i + 1).drop_last() =~= views(w@).take(i as int));
            lemma_views_push(r@, s);
        }
        if !keyword {
            r.push(s);
        }
        i += 1;
    }
    assert(views(w@).take(i as int) =~= views(w@));
    r
}

/// `LS_INVERSE <N1> <E1> <N2> <E2> [draw] [anim]`: takes four finite coordinates
/// and nothing else beside the keywords.
pub fn inverse_request(cmd: &str) -> (r: Result<InverseRequest, Reply>)
    ensures
        match r {
            Ok(q) => {
                &&& inverse_refusal(cmd@) is None
                &&& views(q.coordinates@) == arguments(cmd@).filter(coordinate())
                &&& q.draw == mentions(words(cmd@), "draw"@)
                &&& q.anim == mentions(words(cmd@), "anim"@)
            },
            Err(reply) => inverse_refusal(cmd@) == Some(reply@),
        },
{
    let all = words_of(cmd);
    let args = without_verb(&all);
    if args.len() == 0 {
        assert(views(args@).len() == 0);
        return Err(info(INVERSE_USAGE));
    }
    assert(views(args@).len() > 0);
    let given = coordinates_in(&args);
    if let Some(i) = find_unreadable(&given) {
        return Err(
            Reply::Error(
                "LS_INVERSE: \"".to_string().concat(given[i].as_str()).concat(
                    "\" is not a finite number. ",
                ).concat(INVERSE_USAGE),
            ),
        );
    }
    assert(views(given@).len() == given@.len());
    if given.len() != 4 {
        return Err(
            Reply::Error(
                "LS_INVERSE: expected 4 coordinates, got ".to_string().concat(
                    decimal_text(given.len()).as_str(),
                ).concat(". ").concat(INVERSE_USAGE),
            ),
        );
    }
    Ok(
        InverseRequest {
            coordinates: given,
            draw: has_word(&all, "draw"),
            anim: has_word(&all, "anim"),
        },
    )
}

// ---------------------------------------------------------------------------
// LS_VOLUME
// ---------------------------------------------------------------------------

/// How a volume is computed.
pub const VOLUME_USAGE: &'static str = "Usage: LS_VOLUME [<top> <bottom>] [grid_step] [draw]  \u{2014} names of imported surfaces (or file paths); defaults to top/bottom.";

/// Two surfaces, by name or path, and how their volume is computed.
#[derive(Debug, Clone, PartialEq, Eq)]
pub struct VolumeRequest {
    pub top: String,
    pub bottom: String,
    /// The text of the step of the grid method, where that is asked for too.
    pub grid: Option<String>,
    pub draw: bool,
}

/// The predicate "names a surface": neither the keyword nor a number.
pub open spec fn surface_word() -> spec_fn(Seq<char>) -> bool {
    |w: Seq<char>| !same_but_case(w, "draw"@) && double_of(w) == Double::Malformed
}

/// The grid step among some words: the last positive number.
pub open spec fn grid_step(w: Seq<Seq<char>>) -> Option<Seq<char>>
    decreases w.len(),
{
    if w.len() == 0 {
        None
    } else if !same_but_case(w.last(), "draw"@) && is_positive(w.last()) {
        Some(w.last())
    } else {
        grid_step(w.drop_last())
    }
}

/// `LS_VOLUME [<top> <bottom>] [grid_step] [draw]`: takes the first two names, or
/// the surfaces `top` and `bottom` where none is given. A single name is refused.
pub fn volume_request(cmd: &str) -> (r: Result<VolumeRequest, Reply>)
    ensures
        ({
            let names = arguments(cmd@).filter(surface_word());
            match r {
                Ok(q) => {
                    &&& names.len() != 1
                    &&& q.top@ == (if names.len() == 0 { "top"@ } else { names[0] })
                    &&& q.bottom@ == (if names.len() == 0 { "bottom"@ } else { names[1] })
                    &&& forall|i: int, j: int| #[trigger]
                        are_the_surfaces(arguments(cmd@), i, j) ==> q.top@ == arguments(cmd@)[i]
                            && q.bottom@ == arguments(cmd@)[j]
                    &&& match q.grid {
                        Some(g) => grid_step(arguments(cmd@)) == Some(g@),
                        None => grid_step(arguments(cmd@)) is None,
                    }
                    &&& q.draw == mentions(arguments(cmd@), "draw"@)
                },
                Err(reply) => names.len() == 1 && reply@ == Said::Info(VOLUME_USAGE@),
            }
        }),
{
    let all = words_of(cmd);
    let args = without_verb(&all);
    let mut names: Vec<String> = Vec::new();
    let mut grid: Option<String> = None;
    let mut i: usize = 0;
    let ghost w = views(args@);
    proof {
        reveal(Seq::filter);
        assert(w.take(0).filter(surface_word()) =~= Seq::empty());
    }
    while i < args.len()
        invariant
            i <= args.len(),
            w == views(args@),
            views(names@) =~= w.take(i as int).filter(surface_word()),
            match grid {
                Some(g) => grid_step(w.take(i as int)) == Some(g@),
                None => grid_step(w.take(i as int)) is None,
            },
        decreases args.len() - i,
    {
        let s = args[i].clone();
        proof {
            reveal(Seq::filter);
            assert(w.take(i + 1).drop_last() =~= w.take(i as int));
            assert(w.take(i + 1).last() == s@);
            lemma_views_push(names@, s);
        }
        if !same_ignoring_case(s.as_str(), "draw") {
            match read_double(s.as_str()) {
                Double::Malformed => names.push(s),
                Double::Infinite { negative: false } => {
                    grid = Some(s);
                },
                Double::Finite { sign: Sign::Positive } => {
                    grid = Some(s);
                },
                _ => {},
            }
        }
        i += 1;
    }
    assert(w.take(i as int) =~= w);
    assert(views(names@).len() == names@.len());
    proof {
        assert forall|i: int, j: int| #[trigger] are_the_surfaces(w, i, j) implies w.filter(
            surface_word(),
        ).len() >= 2 && w.filter(surface_word())[0] == w[i] && w.filter(surface_word())[1] == w[j] by {
            law_the_first_two_names_are_the_surfaces(w, i, j);
        }
    }
    if names.len() == 1 {
        return Err(info(VOLUME_USAGE));
    }
    let draw = has_word(&args, "draw");
    if names.len() == 0 {
        Ok(VolumeRequest { top: "top".to_string(), bottom: "bottom".to_string(), grid, draw })
    } else {
        Ok(VolumeRequest { top: names[0].clone(), bottom: names[1].clone(), grid, draw })
    }
}

// ---------------------------------------------------------------------------
// LS_DATUM
// ---------------------------------------------------------------------------

/// How a surface is compared with a datum.
pub const DATUM_USAGE: &'static str = "Usage: LS_DATUM <surface.csv|xml> <elevation>";

/// A surface, by name or path, and the text of an elevation.
#[derive(Debug, Clone, PartialEq, Eq)]
pub struct DatumRequest {
    pub surface: String,
    pub elevation: String,
}

/// Why a request is refused, if it is.
pub open spec fn datum_refusal(cmd: Seq<char>) -> Option<Said> {
    let args = arguments(cmd);
    if args.len() < 2 {
        Some(Said::Info(DATUM_USAGE@))
    } else if double_of(args[1]) == Double::Malformed {
        Some(Said::Info("LS_DATUM: elevation must be a number, got \""@ + args[1] + "\""@))
    } else {
        None
    }
}

/// `LS_DATUM <surface> <elevation>`: takes a surface and a number.
pub fn datum_request(cmd: &str) -> (r: Result<DatumRequest, Reply>)
    ensures
        match r {
            Ok(q) => datum_refusal(cmd@) is None && q.surface@ == arguments(cmd@)[0] && q.elevation@
                == arguments(cmd@)[1],
            Err(reply) => datum_refusal(cmd@) == Some(reply@),
        },
{
    let all = words_of(cmd);
    let args = without_verb(&all);
    assert(views(args@).len() == args@.len());
    if args.len() < 2 {
        return Err(info(DATUM_USAGE));
    }
    if read_double(args[1].as_str()) == Double::Malformed {
        return Err(
            Reply::Info(
                "LS_DATUM: elevation must be a number, got \"".to_string().concat(
                    args[1].as_str(),
                ).concat("\""),
            ),
        );
    }
    Ok(DatumRequest { surface: args[0].clone(), elevation: args[1].clone() })
}

// ---------------------------------------------------------------------------
// LS_RTS
// ---------------------------------------------------------------------------

/// How a drawing is rotated, translated and scaled.
pub const RTS_USAGE: &'static str = "Usage: LS_RTS <baseN> <baseE> <rot_deg> <scale> [<toN> <toE>]";

/// The texts of a base point, a rotation, a scale and where the base goes.
#[derive(Debug, Clone, PartialEq, Eq)]
pub struct RtsRequest {
    pub base_n: String,
    pub base_e: String,
    pub rotation: String,
    pub scale: String,
    pub to_n: String,
    pub to_e: String,
}

/// Why a transformation is refused.
#[derive(Debug, Clone, PartialEq, Eq)]
pub enum RtsRefusal {
    Because(Reply),
    /// The scale is not above zero.
    Scale(String),
}

/// Why a request is refused before its scale is looked at, if it is.
pub open spec fn rts_refusal(cmd: Seq<char>) -> Option<Said> {
    let args = arguments(cmd);
    if args.len() == 0 {
        Some(Said::Info(RTS_USAGE@))
    } else if args.len() != 4 && args.len() != 6 {
        Some(
            Said::Error(
                "LS_RTS: expected 4 or 6 arguments, got "@ + decimal(args.len()) + ". "@ + RTS_USAGE@,
            ),
        )
    } else if first_unreadable(args) is Some {
        Some(
            Said::Error(
                "LS_RTS: \""@ + first_unreadable(args)->0 + "\" is not a finite number. "@
                    + RTS_USAGE@,
            ),
        )
    } else {
        None
    }
}

/// `LS_RTS <baseN> <baseE> <rot_deg> <scale> [<toN> <toE>]`: takes four or six
/// finite numbers, with a scale above zero. Without a goal the base stays.
pub fn rts_request(cmd: &str) -> (r: Result<RtsRequest, RtsRefusal>)
    ensures
        ({
            let args = arguments(cmd@);
            match r {
                Ok(q) => {
                    &&& rts_refusal(cmd@) is None
                    &&& is_positive(args[3])
                    &&& q.base_n@ == args[0]
                    &&& q.base_e@ == args[1]
                    &&& q.rotation@ == args[2]
                    &&& q.scale@ == args[3]
                    &&& q.to_n@ == (if args.len() == 6 { args[4] } else { args[0] })
                    &&& q.to_e@ == (if args.len() == 6 { args[5] } else { args[1] })
                },
                Err(RtsRefusal::Because(reply)) => rts_refusal(cmd@) == Some(reply@),
                Err(RtsRefusal::Scale(s)) => rts_refusal(cmd@) is None && !is_positive(args[3]) && s@
                    == args[3],
            }
        }),
{
    let all = words_of(cmd);
    let args = without_verb(&all);
    assert(views(args@).len() == args@.len());
    if args.len() == 0 {
        return Err(RtsRefusal::Because(info(RTS_USAGE)));
    }
    if args.len() != 4 && args.len() != 6 {
        return Err(
            RtsRefusal::Because(
                Reply::Error(
                    "LS_RTS: expected 4 or 6 arguments, got ".to_string().concat(
                        decimal_text(args.len()).as_str(),
                    ).concat(". ").concat(RTS_USAGE),
                ),
            ),
        );
    }
    if let Some(i) = find_unreadable(&args) {
        return Err(
            RtsRefusal::Because(
                Reply::Error(
                    "LS_RTS: \"".to_string().concat(args[i].as_str()).concat(
                        "\" is not a finite number. ",
                    ).concat(RTS_USAGE),
                ),
            ),
        );
    }
    let positive = match read_double(args[3].as_str()) {
        Double::Infinite { negative } => !negative,
        Double::Finite { sign } => sign == Sign::Positive,
        _ => false,
    };
    if !positive {
        return Err(RtsRefusal::Scale(args[3].clone()));
    }
    let (n, e): (usize, usize) = if args.len() == 6 {
        (4, 5)
    } else {
        (0, 1)
    };
    Ok(
        RtsRequest {
            base_n: args[0].clone(),
            base_e: args[1].clone(),
            rotation: args[2].clone(),
            scale: args[3].clone(),
            to_n: args[n].clone(),
            to_e: args[e].clone(),
        },
    )
}

/// Refuses a scale; `shown` is the scale as a number.
pub fn refuse_scale(shown: &str) -> (r: Reply)
    ensures
        r@ == Said::Error("LS_RTS: scale must be positive, got "@ + shown@ + "."@),
{
    Reply::Error("LS_RTS: scale must be positive, got ".to_string().concat(shown).concat("."))
}

// ---------------------------------------------------------------------------
// LS_HELMERT, LS_RESECT and the commands that take a path alone
// ---------------------------------------------------------------------------

/// How a Helmert fit is made.
pub const HELMERT_USAGE: &'static str = "Usage: LS_HELMERT <pairs_file> [apply|stages|anim|teach]  (lines: srcN, srcE, dstN, dstE; 'stages' draws the steps, 'apply' transforms the drawing, 'anim'/'teach' export an animated SVG explainer)";

/// How a resection is made.
pub const RESECT_USAGE: &'static str = "Usage: LS_RESECT <shots.csv> [anim]  (lines: knownN, knownE, direction_deg, distance, name; blank distance = angle-only; 'anim' exports an animated-SVG explainer)";

/// How a surface is built.
pub const SURFACE_USAGE: &'static str = "Usage: LS_SURFACE <points.csv>  (PNEZD point file)";

/// How a LandXML surface is imported.
pub const LANDXML_USAGE: &'static str = "Usage: LS_LANDXML <path-to-surface.xml>  (LandXML TIN surface)";

/// How a plan is imported.
pub const PLAN_USAGE: &'static str = "Usage: LS_IMPORTPLAN <path-to-plan.json>";

/// What follows the report of a fit.
#[derive(Debug, Clone, Copy, PartialEq, Eq, Structural)]
pub enum HelmertMode {
    Report,
    Apply,
    Stages,
    Anim,
    Teach,
}

/// A file of control pairs, and what follows the report.
#[derive(Debug, Clone, PartialEq, Eq)]
pub struct HelmertRequest {
    pub path: String,
    pub mode: HelmertMode,
}

/// A text that ends with a keyword, whatever its case.
pub open spec fn ends_with(s: Seq<char>, keyword: Seq<char>) -> bool {
    s.len() >= keyword.len() && lower_text(s).skip(s.len() - keyword.len()) == keyword
}

/// What stands before a keyword at the end.
pub open spec fn before(s: Seq<char>, keyword: Seq<char>) -> Seq<char> {
    trim(s.take(s.len() - keyword.len()))
}

/// The path and the mode that an argument asks for.
pub open spec fn helmert_of(s: Seq<char>) -> (Seq<char>, HelmertMode) {
    if ends_with(s, " apply"@) {
        (before(s, " apply"@), HelmertMode::Apply)
    } else if ends_with(s, " stages"@) {
        (before(s, " stages"@), HelmertMode::Stages)
    } else if ends_with(s, " teach"@) {
        (before(s, " teach"@), HelmertMode::Teach)
    } else if ends_with(s, " anim"@) {
        (before(s, " anim"@), HelmertMode::Anim)
    } else {
        (s, HelmertMode::Report)
    }
}

/// Takes a keyword off the end of a text, if it is there.
fn cut_keyword(s: &[char], keyword: &str) -> (r: Option<String>)
    ensures
        match r {
            Some(path) => ends_with(s@, keyword@) && path@ == before(s@, keyword@),
            None => !ends_with(s@, keyword@),
        },
{
    let k = chars_of(keyword);
    if s.len() < k.len() {
        return None;
    }
    let at = s.len() - k.len();
    let low = lowered(s);
    let tail = slice_subrange(low.as_slice(), at, s.len());
    assert(tail@ =~= lower_text(s@).skip(at as int));
    if crate::text::same_chars(tail, k.as_slice()) {
        let head = slice_subrange(s, 0, at);
        assert(head@ =~= s@.take(at as int));
        Some(string_of(trimmed(head)))
    } else {
        None
    }
}

/// `LS_HELMERT <pairs_file> [apply|stages|anim|teach]`: takes a path, which may
/// contain spaces, and a keyword at its end.
pub fn helmert_request(cmd: &str) -> (r: Result<HelmertRequest, Reply>)
    ensures
        match r {
            Ok(q) => argument(cmd@).len() > 0 && (q.path@, q.mode) == helmert_of(argument(cmd@)),
            Err(reply) => argument(cmd@).len() == 0 && reply@ == Said::Info(HELMERT_USAGE@),
        },
{
    let v = chars_of(cmd);
    let rest = argument_in(v.as_slice());
    if rest.len() == 0 {
        return Err(info(HELMERT_USAGE));
    }
    if let Some(path) = cut_keyword(rest, " apply") {
        Ok(HelmertRequest { path, mode: HelmertMode::Apply })
    } else if let Some(path) = cut_keyword(rest, " stages") {
        Ok(HelmertRequest { path, mode: HelmertMode::Stages })
    } else if let Some(path) = cut_keyword(rest, " teach") {
        Ok(HelmertRequest { path, mode: HelmertMode::Teach })
    } else if let Some(path) = cut_keyword(rest, " anim") {
        Ok(HelmertRequest { path, mode: HelmertMode::Anim })
    } else {
        Ok(HelmertRequest { path: string_of(rest), mode: HelmertMode::Report })
    }
}

/// A file of shots, and whether an animation is asked for.
#[derive(Debug, Clone, PartialEq, Eq)]
pub struct ResectRequest {
    pub path: String,
    pub anim: bool,
}

/// `LS_RESECT <shots> [anim]`: takes a path, which may contain spaces, and a
/// keyword at its end.
pub fn resect_request(cmd: &str) -> (r: Result<ResectRequest, Reply>)
    ensures
        ({
            let s = argument(cmd@);
            match r {
                Ok(q) => {
                    &&& s.len() > 0
                    &&& q.anim == ends_with(s, " anim"@)
                    &&& q.path@ == (if ends_with(s, " anim"@) {
                        before(s, " anim"@)
                    } else {
                        s
                    })
                },
                Err(reply) => s.len() == 0 && reply@ == Said::Info(RESECT_USAGE@),
            }
        }),
{
    let v = chars_of(cmd);
    let rest = argument_in(v.as_slice());
    if rest.len() == 0 {
        return Err(info(RESECT_USAGE));
    }
    match cut_keyword(rest, " anim") {
        Some(path) => Ok(ResectRequest { path, anim: true }),
        None => Ok(ResectRequest { path: string_of(rest), anim: false }),
    }
}

/// A command whose argument is a path alone: takes the path, or says how the
/// command is used.
pub fn path_request(cmd: &str, usage: &str) -> (r: Result<String, Reply>)
    ensures
        match r {
            Ok(path) => argument(cmd@).len() > 0 && path@ == argument(cmd@),
            Err(reply) => argument(cmd@).len() == 0 && reply@ == Said::Info(usage@),
        },
{
    let v = chars_of(cmd);
    let rest = argument_in(v.as_slice());
    if rest.len() == 0 {
        Err(info(usage))
    } else {
        Ok(string_of(rest))
    }
}

} // verus!
