//! What the survey program does on a command line, call by call.

use vstd::prelude::*;

use crate::cli::{
    flag_views, get, is_complete, is_double, opt, output_path, parse_ne, route, split_args,
    split_of, undashed, Arguments, Subcommand,
};
use crate::layers::is_ascii_text;
use crate::number::is_positive;
use crate::plans::{
    helmert_flags, inverse_flags, output_flags, plan_datum, plan_helmert, plan_inverse,
    plan_resect, plan_rts, plan_surface, plan_volume, resect_flags, rts_flags, volume_flags,
    DatumPlan, GridStep, HelmertPlan, InversePlan, ResectPlan, RtsPlan, SurfacePlan, VolumePlan,
};
use crate::program_laws::{
    law_a_pair_is_two_numbers, law_a_transformation_by_its_options,
    law_a_transformation_does_what_is_asked,
    law_an_inverse_passes_over_other_words, law_flags_that_take_a_value,
    law_the_last_value_holds, law_words_alone_are_positionals, lemma_absent, lemma_adds,
    lemma_keys,
};
use crate::text::{lower_text, trim, views};

verus! {

/// A pair is read as what stands before the comma and what stands behind it.
pub proof fn law_reading_a_pair(
    s: &str,
    r: Result<(String, String), String>,
    a: Seq<char>,
    b: Seq<char>,
)
    requires
        call_ensures(parse_ne, (s,), r),
        s@ == a + seq![','] + b,
        !a.contains(','),
        !b.contains(','),
    ensures
        r is Ok <==> is_double(trim(a)) && is_double(trim(b)),
        r matches Ok((n, e)) ==> n@ == trim(a) && e@ == trim(b),
{
    law_a_pair_is_two_numbers(a, b, Seq::empty());
}

/// The surfaces of a volume on a command line without options are its first two words,
/// in that order; fewer are refused. The output then goes to `volume.dxf`, and no grid
/// is computed.
pub proof fn law_planning_a_volume(args: &[String], r: Result<VolumePlan, String>)
    requires
        call_ensures(plan_volume, (args,), r),
        forall|i: int|
            0 <= i < args@.len() ==> (#[trigger] args@[i])@ != "-o"@ && args@[i]@ != "--out"@ && args@[i]@
                != "--grid"@,
    ensures
        r is Ok <==> args@.len() >= 2,
        r matches Ok(q) ==> q.top@ == args@[0]@ && q.bottom@ == args@[1]@ && q.grid is None && q.out@
            == "volume.dxf"@,
{
    let flags = volume_flags();
    let w = views(args@);
    assert forall|i: int| 0 <= i < w.len() - 1 implies !flags.contains(#[trigger] w[i]) by {
        assert(w[i] == args@[i]@);
        law_flags_that_take_a_value(w[i]);
    }
    law_words_alone_are_positionals(w, flags);
    let o = split_of(w, flags).1;
    law_the_last_value_holds(o, "grid"@, 0);
    law_the_last_value_holds(o, "o"@, 0);
    law_the_last_value_holds(o, "out"@, 0);
}

/// The surface of a datum on a command line without options is its first word, and
/// the elevation its second, which must be a number.
pub proof fn law_planning_a_datum(args: &[String], r: Result<DatumPlan, String>)
    requires
        call_ensures(plan_datum, (args,), r),
        forall|i: int| 0 <= i < args@.len() ==> (#[trigger] args@[i])@ != "-o"@ && args@[i]@ != "--out"@,
    ensures
        r is Ok <==> args@.len() >= 2 && is_double(args@[1]@),
        r matches Ok(q) ==> q.path@ == args@[0]@ && q.elevation@ == args@[1]@ && q.out is None,
{
    let flags = output_flags();
    let w = views(args@);
    assert forall|i: int| 0 <= i < w.len() - 1 implies !flags.contains(#[trigger] w[i]) by {
        assert(w[i] == args@[i]@);
        law_flags_that_take_a_value(w[i]);
    }
    law_words_alone_are_positionals(w, flags);
    let o = split_of(w, flags).1;
    law_the_last_value_holds(o, "o"@, 0);
    law_the_last_value_holds(o, "out"@, 0);
}

/// The path of a surface on a command line without options is its first word.
pub proof fn law_planning_a_surface(args: &[String], r: Result<SurfacePlan, String>)
    requires
        call_ensures(plan_surface, (args,), r),
        forall|i: int| 0 <= i < args@.len() ==> (#[trigger] args@[i])@ != "-o"@ && args@[i]@ != "--out"@,
    ensures
        r is Ok <==> args@.len() >= 1,
        r matches Ok(q) ==> q.path@ == args@[0]@ && q.out is None,
{
    let flags = output_flags();
    let w = views(args@);
    assert forall|i: int| 0 <= i < w.len() - 1 implies !flags.contains(#[trigger] w[i]) by {
        assert(w[i] == args@[i]@);
        law_flags_that_take_a_value(w[i]);
    }
    law_words_alone_are_positionals(w, flags);
    let o = split_of(w, flags).1;
    law_the_last_value_holds(o, "o"@, 0);
    law_the_last_value_holds(o, "out"@, 0);
}

/// Where the output of a surface goes is the word behind its option.
pub proof fn law_planning_where_a_surface_goes(
    args: &[String],
    r: Result<SurfacePlan, String>,
    path: Seq<char>,
    flag: Seq<char>,
    out: Seq<char>,
)
    requires
        call_ensures(plan_surface, (args,), r),
        views(args@) == seq![path, flag, out],
        flag == "-o"@ || flag == "--out"@,
        path != "-o"@ && path != "--out"@,
    ensures
        r matches Ok(q) && q.path@ == path && (q.out matches Some(o) && o@ == out),
{
    let f = output_flags();
    law_flags_that_take_a_value(path);
    law_flags_that_take_a_value(flag);
    lemma_keys();
    lemma_one(path, f);
    lemma_adds(seq![path], f, flag, out);
    assert(seq![path] + seq![flag, out] =~= seq![path, flag, out]);
    let o = split_of(views(args@), f).1;
    assert(o =~= seq![(undashed(flag), out)]);
    law_the_last_value_holds(o, "o"@, 0);
    law_the_last_value_holds(o, "out"@, 0);
}

/// One word that is no flag.
proof fn lemma_one(path: Seq<char>, flags: Seq<Seq<char>>)
    requires
        !flags.contains(path),
    ensures
        is_complete(seq![path], flags),
        split_of(seq![path], flags).0 == seq![path],
        split_of(seq![path], flags).1.len() == 0,
{
    let a = seq![path];
    let none: Seq<Seq<char>> = Seq::empty();
    law_words_alone_are_positionals(a, flags);
    assert(a.skip(1) =~= none);
    assert(is_complete(none, flags));
}

/// A volume with a grid takes the step that its option gives, if that is a positive
/// number, and keeps what it gives if it is none.
pub proof fn law_planning_a_grid(
    args: &[String],
    r: Result<VolumePlan, String>,
    top: Seq<char>,
    bottom: Seq<char>,
    step: Seq<char>,
    out: Seq<char>,
)
    requires
        call_ensures(plan_volume, (args,), r),
        views(args@) == seq![top, bottom, "--grid"@, step, "-o"@, out],
        top != "-o"@ && top != "--out"@ && top != "--grid"@,
        bottom != "-o"@ && bottom != "--out"@ && bottom != "--grid"@,
    ensures
        r matches Ok(q) && q.top@ == top && q.bottom@ == bottom && q.out@ == out && if is_positive(step) {
            q.grid matches Some(GridStep::Step(t)) && t@ == step
        } else {
            q.grid matches Some(GridStep::Invalid(t)) && t@ == step
        },
{
    let f = volume_flags();
    law_flags_that_take_a_value(top);
    law_flags_that_take_a_value(bottom);
    law_flags_that_take_a_value("--grid"@);
    law_flags_that_take_a_value("-o"@);
    lemma_keys();
    let none: Seq<Seq<char>> = Seq::empty();
    let a = seq![top, bottom];
    law_words_alone_are_positionals(a, f);
    assert(a.skip(1) =~= seq![bottom]);
    lemma_one(bottom, f);
    assert(is_complete(a, f));
    lemma_adds(a, f, "--grid"@, step);
    let b = a + seq!["--grid"@, step];
    lemma_adds(b, f, "-o"@, out);
    assert(b + seq!["-o"@, out] =~= seq![top, bottom, "--grid"@, step, "-o"@, out]);
    let o = split_of(views(args@), f).1;
    assert(o =~= seq![("grid"@, step), ("o"@, out)]);
    law_the_last_value_holds(o, "grid"@, 0);
    law_the_last_value_holds(o, "o"@, 1);
    law_the_last_value_holds(o, "out"@, 0);
}

/// A transformation on a command line does what its options say, and no more.
pub proof fn law_planning_a_transformation(
    args: &[String],
    r: Result<RtsPlan, String>,
    path: Seq<char>,
    base: (Seq<char>, Seq<char>),
    to: (Seq<char>, Seq<char>),
    rotation: Seq<char>,
    scale: Seq<char>,
)
    requires
        call_ensures(plan_rts, (args,), r),
        !rts_flags().contains(path),
        !base.0.contains(',') && !base.1.contains(','),
        !to.0.contains(',') && !to.1.contains(','),
        views(args@) == seq![
            path,
            "--base"@,
            base.0 + seq![','] + base.1,
            "--to"@,
            to.0 + seq![','] + to.1,
            "--rot"@,
            rotation,
            "--scale"@,
            scale,
        ],
    ensures
        r is Ok <==> is_double(trim(base.0)) && is_double(trim(base.1)) && is_double(trim(to.0))
            && is_double(trim(to.1)) && is_double(rotation) && is_double(scale),
        r matches Ok(q) ==> {
            &&& q.path@ == path
            &&& q.base.0@ == trim(base.0) && q.base.1@ == trim(base.1)
            &&& q.to.0@ == trim(to.0) && q.to.1@ == trim(to.1)
            &&& q.rotation@ == rotation
            &&& q.scale@ == scale
        },
{
    let none: Seq<char> = Seq::empty();
    law_a_pair_is_two_numbers(base.0, base.1, none);
    law_a_pair_is_two_numbers(to.0, to.1, none);
    law_a_transformation_by_its_options(
        path,
        base.0 + seq![','] + base.1,
        to.0 + seq![','] + to.1,
        rotation,
        scale,
    );
}

/// What a transformation is not asked for, it does not do: without a goal the base
/// stays, without a rotation nothing is turned, without a scale nothing is scaled,
/// and nothing is written or shown.
pub proof fn law_planning_no_more_than_asked(args: &[String], r: Result<RtsPlan, String>)
    requires
        call_ensures(plan_rts, (args,), r),
    ensures
        !views(args@).contains("--base"@) ==> r is Err,
        r matches Ok(q) ==> {
            let w = views(args@);
            &&& !w.contains("--to"@) ==> q.to.0@ == q.base.0@ && q.to.1@ == q.base.1@
            &&& !w.contains("--rot"@) ==> q.rotation@ == "0"@
            &&& !w.contains("--scale"@) ==> q.scale@ == "1"@
            &&& !w.contains("--csv"@) ==> q.csv is None
            &&& !w.contains("--anim"@) ==> q.anim is None
            &&& !w.contains("-o"@) && !w.contains("--out"@) ==> q.out is None
            &&& q.teach <==> w.contains("--teach"@)
        },
{
    law_a_transformation_does_what_is_asked(views(args@));
}

/// A fit on a command line takes each file from the option of its name.
pub proof fn law_planning_a_fit(
    args: &[String],
    r: Result<HelmertPlan, String>,
    path: Seq<char>,
    apply: Seq<char>,
    csv: Seq<char>,
    anim: Seq<char>,
    out: Seq<char>,
)
    requires
        call_ensures(plan_helmert, (args,), r),
        !helmert_flags().contains(path),
        views(args@) == seq![path, "--apply"@, apply, "--csv"@, csv, "--anim"@, anim, "-o"@, out],
    ensures
        r matches Ok(q) && {
            &&& q.path@ == path
            &&& q.apply matches Some(s) && s@ == apply
            &&& q.csv matches Some(s) && s@ == csv
            &&& q.anim matches Some(s) && s@ == anim
            &&& q.out matches Some(s) && s@ == out
            &&& q.teach <==> views(args@).contains("--teach"@)
        },
{
    let f = helmert_flags();
    law_flags_that_take_a_value("--apply"@);
    law_flags_that_take_a_value("--csv"@);
    law_flags_that_take_a_value("--anim"@);
    law_flags_that_take_a_value("-o"@);
    lemma_keys();
    lemma_one(path, f);
    let a = seq![path];
    let b = a + seq!["--apply"@, apply];
    let c = b + seq!["--csv"@, csv];
    let d = c + seq!["--anim"@, anim];
    lemma_adds(a, f, "--apply"@, apply);
    lemma_adds(b, f, "--csv"@, csv);
    lemma_adds(c, f, "--anim"@, anim);
    lemma_adds(d, f, "-o"@, out);
    assert(d + seq!["-o"@, out] =~= views(args@));
    let o = split_of(views(args@), f).1;
    assert(o =~= seq![("apply"@, apply), ("csv"@, csv), ("anim"@, anim), ("o"@, out)]);
    law_the_last_value_holds(o, "apply"@, 0);
    law_the_last_value_holds(o, "csv"@, 1);
    law_the_last_value_holds(o, "anim"@, 2);
    law_the_last_value_holds(o, "o"@, 3);
}

/// A fit that is not asked to apply, to write or to show anything does not.
pub proof fn law_planning_a_fit_alone(args: &[String], r: Result<HelmertPlan, String>)
    requires
        call_ensures(plan_helmert, (args,), r),
    ensures
        r matches Ok(q) ==> {
            let w = views(args@);
            &&& !w.contains("--apply"@) ==> q.apply is None
            &&& !w.contains("--csv"@) ==> q.csv is None
            &&& !w.contains("--anim"@) ==> q.anim is None
            &&& !w.contains("-o"@) && !w.contains("--out"@) ==> q.out is None
            &&& q.teach <==> w.contains("--teach"@)
        },
        args@.len() == 0 ==> r is Err,
{
    let w = views(args@);
    let f = helmert_flags();
    lemma_keys();
    assert(f[0] == "-o"@ && f[1] == "--out"@ && f[2] == "--csv"@ && f[3] == "--apply"@ && f[4]
        == "--anim"@);
    if !w.contains("--apply"@) {
        lemma_absent(w, f, "apply"@, "--apply"@);
    }
    if !w.contains("--csv"@) {
        lemma_absent(w, f, "csv"@, "--csv"@);
    }
    if !w.contains("--anim"@) {
        lemma_absent(w, f, "anim"@, "--anim"@);
    }
    if !w.contains("-o"@) {
        lemma_absent(w, f, "o"@, "-o"@);
    }
    if !w.contains("--out"@) {
        lemma_absent(w, f, "out"@, "--out"@);
    }
}

/// A resection on a command line takes its path from the first word and its animation
/// and its output from their options.
pub proof fn law_planning_a_resection(
    args: &[String],
    r: Result<ResectPlan, String>,
    path: Seq<char>,
    anim: Seq<char>,
    out: Seq<char>,
)
    requires
        call_ensures(plan_resect, (args,), r),
        !resect_flags().contains(path),
        views(args@) == seq![path] || views(args@) == seq![path, "--anim"@, anim, "-o"@, out],
    ensures
        r matches Ok(q) && q.path@ == path && if args@.len() == 1 {
            q.anim is None && q.out is None
        } else {
            &&& q.anim matches Some(s) && s@ == anim
            &&& q.out matches Some(s) && s@ == out
        },
{
    let f = resect_flags();
    law_flags_that_take_a_value("--anim"@);
    law_flags_that_take_a_value("-o"@);
    lemma_keys();
    lemma_one(path, f);
    assert(views(args@).len() == args@.len());
    let a = seq![path];
    if args@.len() == 1 {
        let o = split_of(a, f).1;
        law_the_last_value_holds(o, "anim"@, 0);
        law_the_last_value_holds(o, "o"@, 0);
        law_the_last_value_holds(o, "out"@, 0);
    } else {
        let b = a + seq!["--anim"@, anim];
        lemma_adds(a, f, "--anim"@, anim);
        lemma_adds(b, f, "-o"@, out);
        assert(b + seq!["-o"@, out] =~= views(args@));
        let o = split_of(views(args@), f).1;
        assert(o =~= seq![("anim"@, anim), ("o"@, out)]);
        law_the_last_value_holds(o, "anim"@, 0);
        law_the_last_value_holds(o, "o"@, 1);
    }
}

/// An inverse on a command line without options is taken between the first four of
/// its words that are numbers, in their order, and is refused where there are fewer.
pub proof fn law_planning_an_inverse(args: &[String], r: Result<InversePlan, String>, at: Seq<int>)
    requires
        call_ensures(plan_inverse, (args,), r),
        forall|i: int|
            0 <= i < args@.len() ==> (#[trigger] args@[i])@ != "-o"@ && args@[i]@ != "--out"@ && args@[i]@
                != "--anim"@,
        forall|m: int, n: int| 0 <= m < n < at.len() ==> #[trigger] at[m] < #[trigger] at[n],
        forall|m: int| 0 <= m < at.len() ==> 0 <= #[trigger] at[m] < args@.len(),
        forall|i: int|
            0 <= i < args@.len() ==> (at.contains(i) <==> is_double((#[trigger] args@[i])@)),
    ensures
        r is Ok <==> at.len() >= 4,
        r matches Ok(q) ==> {
            &&& q.coordinates@.len() == 4
            &&& forall|m: int| 0 <= m < 4 ==> (#[trigger] q.coordinates@[m])@ == args@[at[m]]@
            &&& q.anim is None
        },
{
    let f = inverse_flags();
    let w = views(args@);
    assert forall|i: int| 0 <= i < w.len() - 1 implies !f.contains(#[trigger] w[i]) by {
        assert(w[i] == args@[i]@);
        law_flags_that_take_a_value(w[i]);
    }
    law_words_alone_are_positionals(w, f);
    assert forall|i: int| 0 <= i < w.len() implies (at.contains(i) <==> is_double(#[trigger] w[i])) by {
        assert(w[i] == args@[i]@);
    }
    law_an_inverse_passes_over_other_words(w, at);
    let o = split_of(w, f).1;
    law_the_last_value_holds(o, "o"@, 0);
    law_the_last_value_holds(o, "out"@, 0);
    law_the_last_value_holds(o, "anim"@, 0);
    if let Ok(q) = r {
        assert(views(q.coordinates@).len() == q.coordinates@.len());
        assert forall|m: int| 0 <= m < 4 implies (#[trigger] q.coordinates@[m])@ == args@[at[m]]@ by {
            assert(views(q.coordinates@)[m] == q.coordinates@[m]@);
            assert(w[at[m]] == args@[at[m]]@);
        }
    }
}

/// Each subcommand is called by the first word, and by no other.
pub proof fn law_routing(args: &[String], r: Result<Subcommand, String>)
    requires
        call_ensures(route, (args,), r),
    ensures
        args@.len() == 0 ==> r == Ok::<Subcommand, String>(Subcommand::Help),
        args@.len() > 0 && args@[0]@ == "surface"@ ==> r == Ok::<Subcommand, String>(Subcommand::Surface),
        args@.len() > 0 && args@[0]@ == "volume"@ ==> r == Ok::<Subcommand, String>(Subcommand::Volume),
        args@.len() > 0 && args@[0]@ == "datum"@ ==> r == Ok::<Subcommand, String>(Subcommand::Datum),
        args@.len() > 0 && args@[0]@ == "rts"@ ==> r == Ok::<Subcommand, String>(Subcommand::Rts),
        args@.len() > 0 && args@[0]@ == "helmert"@ ==> r == Ok::<Subcommand, String>(Subcommand::Helmert),
        args@.len() > 0 && args@[0]@ == "resect"@ ==> r == Ok::<Subcommand, String>(Subcommand::Resect),
        args@.len() > 0 && args@[0]@ == "inverse"@ ==> r == Ok::<Subcommand, String>(Subcommand::Inverse),
        r == Ok::<Subcommand, String>(Subcommand::Help) <==> args@.len() == 0 || args@[0]@.len() == 0
            || args@[0]@ == "-h"@ || args@[0]@ == "--help"@ || args@[0]@ == "help"@,
        r matches Ok(c) ==> args@.len() == 0 || c == Subcommand::Help || args@[0]@ == "surface"@
            || args@[0]@ == "volume"@ || args@[0]@ == "datum"@ || args@[0]@ == "rts"@ || args@[0]@
            == "helmert"@ || args@[0]@ == "resect"@ || args@[0]@ == "inverse"@,
{
    reveal_strlit("");
    reveal_strlit("help");
    reveal_strlit("-h");
    reveal_strlit("--help");
    reveal_strlit("surface");
    reveal_strlit("volume");
    reveal_strlit("datum");
    reveal_strlit("rts");
    reveal_strlit("helmert");
    reveal_strlit("resect");
    reveal_strlit("inverse");
    assert("surface"@.len() == 7 && "surface"@[0] == 's');
    assert("helmert"@.len() == 7 && "helmert"@[0] == 'h');
    assert("inverse"@.len() == 7 && "inverse"@[0] == 'i');
    assert("volume"@.len() == 6 && "volume"@[0] == 'v');
    assert("resect"@.len() == 6 && "resect"@[0] == 'r');
    assert("datum"@.len() == 5);
    assert("rts"@.len() == 3);
    assert("help"@.len() == 4 && "-h"@.len() == 2);
    assert("--help"@.len() == 6 && "--help"@[0] == '-');
    assert(""@.len() == 0);
    if args@.len() > 0 && args@[0]@.len() == 0 {
        assert(args@[0]@ =~= ""@);
    }
    if args@.len() > 0 {
        assert(views(args@)[0] == args@[0]@);
    }
}

/// Where an output goes: where the option says, and else to a file with the name in
/// small letters.
pub proof fn law_where_to_write(out: &Option<String>, name: &str, suffix: &str, r: String)
    requires
        call_ensures(output_path, (out, name, suffix), r),
    ensures
        out matches Some(p) ==> r@ == p@,
        out is None && is_ascii_text(name@) ==> r@ == lower_text(name@) + suffix@,
{
}

/// Words are split from options: what stands behind a flag is its value, and the last
/// value of an option is the one that is read.
pub proof fn law_splitting_and_reading(
    args: &[String],
    flags: &[&str],
    a: &Arguments,
    key: &str,
    r: Option<String>,
    word: Seq<char>,
    flag: Seq<char>,
    value: Seq<char>,
)
    requires
        call_ensures(split_args, (args, flags), *a),
        call_ensures(get, (a, key), r),
        views(args@) == seq![word, flag, value],
        flag_views(flags@).contains(flag),
        !flag_views(flags@).contains(word),
    ensures
        a.positionals@.len() == 1,
        a.positionals@[0]@ == word,
        key@ == undashed(flag) ==> (r matches Some(s) && s@ == value),
        key@ != undashed(flag) ==> r is None,
{
    let f = flag_views(flags@);
    lemma_one(word, f);
    lemma_adds(seq![word], f, flag, value);
    assert(seq![word] + seq![flag, value] =~= views(args@));
    let o = split_of(views(args@), f).1;
    assert(o =~= seq![(undashed(flag), value)]);
    law_the_last_value_holds(o, key@, 0);
    assert(views(a.positionals@).len() == a.positionals@.len());
    assert(views(a.positionals@)[0] == a.positionals@[0]@);
}

/// The output of split words goes where `-o` says, and else where `--out` says.
pub proof fn law_reading_the_output(
    a: &Arguments,
    short: Option<String>,
    long: Option<String>,
    r: Option<String>,
)
    requires
        call_ensures(get, (a, "o"), short),
        call_ensures(get, (a, "out"), long),
        call_ensures(opt, (a,), r),
    ensures
        short matches Some(p) ==> (r matches Some(q) && q@ == p@),
        short is None ==> (long matches Some(p) ==> (r matches Some(q) && q@ == p@)),
        short is None && long is None ==> r is None,
{
}

} // verus!
