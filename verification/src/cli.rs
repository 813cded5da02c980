//! The command line of the survey program: what its arguments ask for.

use vstd::prelude::*;

use crate::layers::{
    is_ascii_text, is_named_after, layer_stem, optional_view, smalls, unicode_smalls,
};
use crate::number::{double_of, read_double, Double};
use crate::text::{
    chars_of, exactly, find_char, lemma_first_where, lemma_views_push, lower_text, same, split_all, string_of,
    trim, trimmed, views,
};

verus! {

/// How the program is used.
pub const USAGE: &'static str = "landsurvey-cli \u{2014} headless survey engine + DXF preview\n\nUSAGE:\n  landsurvey-cli surface <points.csv|landxml> [-o out.dxf]\n  landsurvey-cli volume  <top> <bottom> [--grid <step>] [-o out.dxf]\n  landsurvey-cli datum   <surface> <elevation> [-o out.dxf]\n  landsurvey-cli rts     <points.csv> --base <N,E> [--to <N,E>] [--rot <deg>] [--scale <s>] [--anim out.svg] [--teach] [--csv out.csv] [-o out.dxf]\n  landsurvey-cli helmert <pairs.csv> [--apply <points.csv>] [--anim out.svg] [--teach] [--csv out.csv] [-o out.dxf]\n  landsurvey-cli resect  <shots.csv> [-o out.dxf]\n  landsurvey-cli inverse <N1> <E1> <N2> <E2> [--anim out.svg]\n\nSurface inputs are PNEZD CSV (point, northing, easting, elevation, desc) or\nLandXML (auto-detected). rts = Rotate/Translate/Scale about a base point (CCW+);\n--to translates the base to a new location. DXF layers: LS-TIN-*, LS-CUTFILL/\nLS-DATUM, LS-RTS-SRC/DST, LS-*-LABEL.";

/// A subcommand of the program.
#[derive(Debug, Clone, Copy, PartialEq, Eq, Structural)]
pub enum Subcommand {
    Surface,
    Volume,
    Datum,
    Rts,
    Helmert,
    Resect,
    Inverse,
    /// Say how the program is used.
    Help,
}

/// The subcommand of a name, if it is one.
pub open spec fn subcommand_of(name: Seq<char>) -> Option<Subcommand> {
    if name == "surface"@ {
        Some(Subcommand::Surface)
    } else if name == "volume"@ {
        Some(Subcommand::Volume)
    } else if name == "datum"@ {
        Some(Subcommand::Datum)
    } else if name == "rts"@ {
        Some(Subcommand::Rts)
    } else if name == "helmert"@ {
        Some(Subcommand::Helmert)
    } else if name == "resect"@ {
        Some(Subcommand::Resect)
    } else if name == "inverse"@ {
        Some(Subcommand::Inverse)
    } else if name == ""@ || name == "-h"@ || name == "--help"@ || name == "help"@ {
        Some(Subcommand::Help)
    } else {
        None
    }
}

/// The name of the subcommand among some arguments: the first, or nothing.
pub open spec fn named(args: Seq<Seq<char>>) -> Seq<char> {
    if args.len() == 0 {
        ""@
    } else {
        args[0]
    }
}

/// Finds the subcommand that the arguments name, or says that there is no such.
pub fn route(args: &[String]) -> (r: Result<Subcommand, String>)
    ensures
        match r {
            Ok(c) => subcommand_of(named(views(args@))) == Some(c),
            Err(why) => subcommand_of(named(views(args@))) is None && why@ == "unknown subcommand \""@
                + named(views(args@)) + "\"\n\n"@ + USAGE@,
        },
{
    let name: &str = if args.len() == 0 {
        ""
    } else {
        args[0].as_str()
    };
    assert(views(args@).len() == args@.len());
    assert(name@ == named(views(args@)));
    if same(name, "surface") {
        Ok(Subcommand::Surface)
    } else if same(name, "volume") {
        Ok(Subcommand::Volume)
    } else if same(name, "datum") {
        Ok(Subcommand::Datum)
    } else if same(name, "rts") {
        Ok(Subcommand::Rts)
    } else if same(name, "helmert") {
        Ok(Subcommand::Helmert)
    } else if same(name, "resect") {
        Ok(Subcommand::Resect)
    } else if same(name, "inverse") {
        Ok(Subcommand::Inverse)
    } else if same(name, "") || same(name, "-h") || same(name, "--help") || same(name, "help") {
        Ok(Subcommand::Help)
    } else {
        Err(
            "unknown subcommand \"".to_string().concat(name).concat("\"\n\n").concat(USAGE),
        )
    }
}

// ---------------------------------------------------------------------------
// Positionals and options
// ---------------------------------------------------------------------------

/// The arguments of a subcommand: those that stand alone, and the flags with their
/// values, in order.
#[derive(Debug, PartialEq, Eq)]
pub struct Arguments {
    pub positionals: Vec<String>,
    pub options: Vec<(String, String)>,
}

/// Options as texts.
pub open spec fn option_views(options: Seq<(String, String)>) -> Seq<(Seq<char>, Seq<char>)> {
    options.map_values(|o: (String, String)| (o.0@, o.1@))
}

impl View for Arguments {
    type V = (Seq<Seq<char>>, Seq<(Seq<char>, Seq<char>)>);

    open spec fn view(&self) -> (Seq<Seq<char>>, Seq<(Seq<char>, Seq<char>)>) {
        (views(self.positionals@), option_views(self.options@))
    }
}

/// The texts of some flags.
pub open spec fn flag_views(flags: Seq<&str>) -> Seq<Seq<char>> {
    flags.map_values(|f: &str| f@)
}

/// A flag without its dashes.
pub open spec fn undashed(flag: Seq<char>) -> Seq<char>
    decreases flag.len(),
{
    if flag.len() > 0 && flag[0] == '-' {
        undashed(flag.skip(1))
    } else {
        flag
    }
}

/// The arguments among some words: a flag takes the word behind it for its value.
/// A flag at the end has none, and stands alone.
pub open spec fn split_of(args: Seq<Seq<char>>, flags: Seq<Seq<char>>) -> (
    Seq<Seq<char>>,
    Seq<(Seq<char>, Seq<char>)>,
)
    decreases args.len(),
{
    if args.len() == 0 {
        (Seq::empty(), Seq::empty())
    } else if flags.contains(args[0]) && args.len() >= 2 {
        let (p, o) = split_of(args.skip(2), flags);
        (p, seq![(undashed(args[0]), args[1])] + o)
    } else {
        let (p, o) = split_of(args.skip(1), flags);
        (seq![args[0]] + p, o)
    }
}

/// Tests whether a word is one of some flags.
fn is_flag(word: &str, flags: &[&str]) -> (r: bool)
    ensures
        r == flag_views(flags@).contains(word@),
{
    let mut i: usize = 0;
    while i < flags.len()
        invariant
            i <= flags.len(),
            forall|j: int| 0 <= j < i ==> #[trigger] flag_views(flags@)[j] != word@,
        decreases flags.len() - i,
    {
        if same(flags[i], word) {
            assert(flag_views(flags@)[i as int] == word@);
            return true;
        }
        assert(flag_views(flags@)[i as int] != word@);
        i += 1;
    }
    false
}

/// Takes the dashes off a flag.
fn undash(flag: &str) -> (r: String)
    ensures
        r@ == undashed(flag@),
{
    let v = chars_of(flag);
    let mut i: usize = 0;
    assert(v@.skip(0) =~= v@);
    while i < v.len() && v[i] == '-'
        invariant
            i <= v.len(),
            v@ == flag@,
            undashed(v@.skip(i as int)) == undashed(flag@),
        decreases v.len() - i,
    {
        assert(v@.skip(i as int).skip(1) =~= v@.skip(i + 1));
        i += 1;
    }
    let rest = vstd::slice::slice_subrange(v.as_slice(), i, v.len());
    assert(rest@ =~= v@.skip(i as int));
    string_of(rest)
}

/// Splits the words of a subcommand into positionals and options, given the flags
/// that take a value.
pub fn split_args(args: &[String], value_flags: &[&str]) -> (r: Arguments)
    ensures
        r@ == split_of(views(args@), flag_views(value_flags@)),
{
    let ghost all = views(args@);
    let ghost flags = flag_views(value_flags@);
    let mut positionals: Vec<String> = Vec::new();
    let mut options: Vec<(String, String)> = Vec::new();
    let mut i: usize = 0;
    proof {
        assert(all.skip(0) =~= all);
        assert(views(positionals@) + split_of(all, flags).0 =~= split_of(all, flags).0);
        assert(option_views(options@) + split_of(all, flags).1 =~= split_of(all, flags).1);
    }
    while i < args.len()
        invariant
            i <= args.len(),
            all == views(args@),
            flags == flag_views(value_flags@),
            views(positionals@) + split_of(all.skip(i as int), flags).0 == split_of(all, flags).0,
            option_views(options@) + split_of(all.skip(i as int), flags).1 == split_of(all, flags).1,
        decreases args.len() - i,
    {
        let ghost here = all.skip(i as int);
        let ghost before = options@;
        assert(here[0] == args@[i as int]@);
        if is_flag(args[i].as_str(), value_flags) && args.len() - i >= 2 {
            let key = undash(args[i].as_str());
            let value = args[i + 1].clone();
            options.push((key, value));
            proof {
                let rest = split_of(all.skip(i + 2), flags);
                assert(here[1] == args@[i + 1]@);
                assert(here.skip(2) =~= all.skip(i + 2));
                assert(option_views(options@) =~= option_views(before).push((key@, value@)));
                assert(option_views(options@) + rest.1 =~= option_views(before) + (seq![
                    (key@, value@),
                ] + rest.1));
            }
            i += 2;
        } else {
            let word = args[i].clone();
            proof {
                let rest = split_of(all.skip(i + 1), flags);
                assert(here.skip(1) =~= all.skip(i + 1));
                lemma_views_push(positionals@, word);
                assert(views(positionals@).push(word@) + rest.0 =~= views(positionals@) + (seq![
                    word@,
                ] + rest.0));
            }
            positionals.push(word);
            i += 1;
        }
    }
    proof {
        assert(all.skip(i as int) =~= Seq::empty());
        assert(views(positionals@) =~= split_of(all, flags).0);
        assert(option_views(options@) =~= split_of(all, flags).1);
    }
    Arguments { positionals, options }
}

/// Every word is a positional, a flag or the value of one.
pub proof fn law_every_word_is_used(args: Seq<Seq<char>>, flags: Seq<Seq<char>>)
    ensures
        split_of(args, flags).0.len() + 2 * split_of(args, flags).1.len() == args.len(),
    decreases args.len(),
{
    if args.len() > 0 {
        if flags.contains(args[0]) && args.len() >= 2 {
            law_every_word_is_used(args.skip(2), flags);
        } else {
            law_every_word_is_used(args.skip(1), flags);
        }
    }
}

/// The value of an option: the last that is given.
pub open spec fn value_of(options: Seq<(Seq<char>, Seq<char>)>, key: Seq<char>) -> Option<Seq<char>>
    decreases options.len(),
{
    if options.len() == 0 {
        None
    } else if options.last().0 == key {
        Some(options.last().1)
    } else {
        value_of(options.drop_last(), key)
    }
}

/// No flag at the end of some words waits for its value.
pub open spec fn is_complete(args: Seq<Seq<char>>, flags: Seq<Seq<char>>) -> bool
    decreases args.len(),
{
    if args.len() == 0 {
        true
    } else if flags.contains(args[0]) {
        args.len() >= 2 && is_complete(args.skip(2), flags)
    } else {
        is_complete(args.skip(1), flags)
    }
}

/// An option with its value may stand before, between and behind the other words:
/// the positionals are what they are without it. Its value holds unless it is given
/// again behind it, and the other options are what they were.
pub proof fn law_an_option_stands_anywhere(
    before: Seq<Seq<char>>,
    behind: Seq<Seq<char>>,
    flags: Seq<Seq<char>>,
    flag: Seq<char>,
    value: Seq<char>,
    key: Seq<char>,
)
    requires
        flags.contains(flag),
        is_complete(before, flags),
    ensures
        ({
            let (p, o) = split_of(before + behind, flags);
            let (q, r) = split_of(before + seq![flag, value] + behind, flags);
            &&& q == p
            &&& value_of(r, key) == (if key != undashed(flag) {
                value_of(o, key)
            } else if value_of(split_of(behind, flags).1, key) is Some {
                value_of(split_of(behind, flags).1, key)
            } else {
                Some(value)
            })
        }),
{
    let tail = seq![flag, value] + behind;
    let first = seq![(undashed(flag), value)];
    let o = split_of(before, flags).1;
    let r = split_of(behind, flags).1;
    assert(tail.skip(2) =~= behind);
    assert(tail[0] == flag && tail[1] == value);
    assert(before + seq![flag, value] + behind =~= before + tail);
    lemma_split_behind(before, behind, flags);
    lemma_split_behind(before, tail, flags);
    lemma_value_behind(o, r, key);
    lemma_value_behind(first, r, key);
    lemma_value_behind(o, first + r, key);
    assert(first.drop_last() =~= Seq::empty());
    assert(value_of(first.drop_last(), key) is None);
}

/// Words behind complete ones are split on their own.
proof fn lemma_split_behind(before: Seq<Seq<char>>, behind: Seq<Seq<char>>, flags: Seq<Seq<char>>)
    requires
        is_complete(before, flags),
    ensures
        split_of(before + behind, flags) == (
            split_of(before, flags).0 + split_of(behind, flags).0,
            split_of(before, flags).1 + split_of(behind, flags).1,
        ),
    decreases before.len(),
{
    let all = before + behind;
    let (p, o) = split_of(before, flags);
    let (q, r) = split_of(behind, flags);
    if before.len() == 0 {
        assert(all =~= behind);
        assert(p + q =~= q);
        assert(o + r =~= r);
    } else if flags.contains(before[0]) {
        lemma_split_behind(before.skip(2), behind, flags);
        assert(all.skip(2) =~= before.skip(2) + behind);
        assert(all[0] == before[0] && all[1] == before[1]);
        assert(split_of(all, flags).1 =~= o + r);
    } else {
        lemma_split_behind(before.skip(1), behind, flags);
        assert(all.skip(1) =~= before.skip(1) + behind);
        assert(all[0] == before[0]);
        assert(split_of(all, flags).0 =~= p + q);
    }
}

/// Options behind others come first.
proof fn lemma_value_behind(
    before: Seq<(Seq<char>, Seq<char>)>,
    behind: Seq<(Seq<char>, Seq<char>)>,
    key: Seq<char>,
)
    ensures
        value_of(before + behind, key) == (if value_of(behind, key) is Some {
            value_of(behind, key)
        } else {
            value_of(before, key)
        }),
    decreases behind.len(),
{
    let all = before + behind;
    if behind.len() == 0 {
        assert(all =~= before);
    } else {
        lemma_value_behind(before, behind.drop_last(), key);
        assert(all.drop_last() =~= before + behind.drop_last());
        assert(all.last() == behind.last());
    }
}

/// Looks up the value of an option.
pub fn get(a: &Arguments, key: &str) -> (r: Option<String>)
    ensures
        optional_view(r) == value_of(a@.1, key@),
{
    let ghost all = option_views(a.options@);
    let mut n = a.options.len();
    assert(all.take(n as int) =~= all);
    while n > 0
        invariant
            n <= a.options.len(),
            all == option_views(a.options@),
            value_of(all.take(n as int), key@) == value_of(all, key@),
        decreases n,
    {
        let o = &a.options[n - 1];
        proof {
            assert(all.take(n as int).last() == (o.0@, o.1@));
            assert(all.take(n as int).drop_last() =~= all.take(n - 1));
        }
        if same(o.0.as_str(), key) {
            return Some(o.1.clone());
        }
        n -= 1;
    }
    None
}

/// Where the output goes, if the options say so: `-o` before `--out`.
pub open spec fn output_of(options: Seq<(Seq<char>, Seq<char>)>) -> Option<Seq<char>> {
    match value_of(options, "o"@) {
        Some(p) => Some(p),
        None => value_of(options, "out"@),
    }
}

/// Looks up where the output goes.
pub fn opt(a: &Arguments) -> (r: Option<String>)
    ensures
        optional_view(r) == output_of(a@.1),
{
    match get(a, "o") {
        Some(p) => Some(p),
        None => get(a, "out"),
    }
}

/// Names the surface or the point set in a file.
pub fn stem(path: &str) -> (r: String)
    ensures
        is_named_after(r@, path@),
{
    layer_stem(path)
}

/// Where the output goes: where the options say, or else to a file in small
/// letters after the input.
pub open spec fn destination(out: Option<Seq<char>>, name: Seq<char>, suffix: Seq<char>) -> Seq<char> {
    match out {
        Some(p) => p,
        None => unicode_smalls(name) + suffix,
    }
}

/// Finds out where the output goes.
pub fn output_path(out: &Option<String>, name: &str, suffix: &str) -> (r: String)
    ensures
        r@ == destination(optional_view(*out), name@, suffix@),
        out is None && is_ascii_text(name@) ==> r@ == lower_text(name@) + suffix@,
{
    match out {
        Some(p) => p.clone(),
        None => smalls(name).concat(suffix),
    }
}

// ---------------------------------------------------------------------------
// Pairs of coordinates
// ---------------------------------------------------------------------------

/// A number of any kind, finite or not.
pub open spec fn is_double(s: Seq<char>) -> bool {
    double_of(s) != Double::Malformed
}

/// The two numbers of a pair, if it is one: what stands before the first comma,
/// and what stands between it and the next.
pub open spec fn pair_of(s: Seq<char>) -> Option<(Seq<char>, Seq<char>)> {
    let parts = split_all(s, ',');
    if parts.len() >= 2 && is_double(trim(parts[0])) && is_double(trim(parts[1])) {
        Some((trim(parts[0]), trim(parts[1])))
    } else {
        None
    }
}

/// Why a pair is refused.
pub open spec fn bad_pair(s: Seq<char>) -> Seq<char> {
    "bad N,E pair \""@ + s + "\""@
}

/// Tests whether a text is a number of any kind.
fn is_number(s: &str) -> (r: bool)
    ensures
        r == is_double(s@),
{
    match read_double(s) {
        Double::Malformed => false,
        _ => true,
    }
}

/// Reads a pair of northing and easting.
pub fn parse_ne(s: &str) -> (r: Result<(String, String), String>)
    ensures
        match r {
            Ok((n, e)) => pair_of(s@) == Some((n@, e@)),
            Err(why) => pair_of(s@) is None && why@ == bad_pair(s@),
        },
{
    let v = chars_of(s);
    let all = v.as_slice();
    let k = find_char(all, ',');
    proof {
        lemma_first_where(all@, exactly(','));
        reveal_with_fuel(split_all, 3);
    }
    if k < all.len() {
        let first = vstd::slice::slice_subrange(all, 0, k);
        let rest = vstd::slice::slice_subrange(all, k + 1, all.len());
        let j = find_char(rest, ',');
        let second = vstd::slice::slice_subrange(rest, 0, j);
        proof {
            lemma_first_where(rest@, exactly(','));
            assert(first@ =~= all@.take(k as int));
            assert(rest@ =~= all@.skip(k + 1));
            assert(second@ =~= rest@.take(j as int));
            if j == rest@.len() {
                assert(second@ =~= rest@);
            }
            assert(split_all(s@, ',')[0] == first@);
            assert(split_all(s@, ',')[1] == second@);
        }
        let n = string_of(trimmed(first));
        let e = string_of(trimmed(second));
        if is_number(n.as_str()) && is_number(e.as_str()) {
            return Ok((n, e));
        }
    }
    Err("bad N,E pair \"".to_string().concat(s).concat("\""))
}

} // verus!
