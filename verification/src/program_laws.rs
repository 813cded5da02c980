//! What holds of every command line of the survey program.

use vstd::prelude::*;

use crate::cli::{
    destination, is_complete, is_double, output_of, pair_of, split_of, subcommand_of, undashed,
    value_of, Subcommand,
};
use crate::plans::{
    helmert_flags, inverse_flags, numeric, output_flags, resect_flags, rts_flags, rts_of,
    volume_flags,
};
use crate::request_laws::lemma_filter_places;
use crate::text::{split_all, trim};
use crate::text_laws::law_pieces;

verus! {

/// Each subcommand has one name; only help has several, and nothing is one of them.
pub proof fn law_a_name_calls_one_subcommand(a: Seq<char>, b: Seq<char>)
    requires
        subcommand_of(a) is Some,
        subcommand_of(a) == subcommand_of(b),
        subcommand_of(a) != Some(Subcommand::Help),
    ensures
        a == b,
{
}

/// Words none of which is a flag are all positionals, and a flag as the last word,
/// with no value behind it, is one too.
pub proof fn law_words_alone_are_positionals(args: Seq<Seq<char>>, flags: Seq<Seq<char>>)
    requires
        forall|i: int| 0 <= i < args.len() - 1 ==> !flags.contains(#[trigger] args[i]),
    ensures
        split_of(args, flags).0 == args,
        split_of(args, flags).1.len() == 0,
    decreases args.len(),
{
    if args.len() > 0 {
        let rest = args.skip(1);
        assert forall|i: int| 0 <= i < rest.len() - 1 implies !flags.contains(#[trigger] rest[i]) by {
            assert(rest[i] == args[i + 1]);
        }
        law_words_alone_are_positionals(rest, flags);
        if args.len() >= 2 {
            assert(!flags.contains(args[0]));
        }
        assert(seq![args[0]] + rest =~= args);
    }
}

/// A flag is known by what stands behind its dashes, however many there are.
pub proof fn law_dashes_are_taken_off(dashes: Seq<char>, name: Seq<char>)
    requires
        forall|i: int| 0 <= i < dashes.len() ==> #[trigger] dashes[i] == '-',
        name.len() > 0 ==> name[0] != '-',
    ensures
        undashed(dashes + name) == name,
    decreases dashes.len(),
{
    let all = dashes + name;
    if dashes.len() > 0 {
        assert(all[0] == dashes[0]);
        assert(all.skip(1) =~= dashes.skip(1) + name);
        law_dashes_are_taken_off(dashes.skip(1), name);
    } else {
        assert(all =~= name);
    }
}

/// The value of an option is the one that is given last; there is none where the
/// option is not given.
pub proof fn law_the_last_value_holds(
    options: Seq<(Seq<char>, Seq<char>)>,
    key: Seq<char>,
    i: int,
)
    ensures
        0 <= i < options.len() && options[i].0 == key && (forall|j: int|
            i < j < options.len() ==> (#[trigger] options[j]).0 != key) ==> value_of(options, key)
            == Some(options[i].1),
        value_of(options, key) is None <==> forall|j: int|
            0 <= j < options.len() ==> (#[trigger] options[j]).0 != key,
    decreases options.len(),
{
    if options.len() > 0 {
        let before = options.drop_last();
        let last = options.len() - 1;
        law_the_last_value_holds(before, key, i);
        if options[last].0 != key {
            if 0 <= i < options.len() && options[i].0 == key && (forall|j: int|
                i < j < options.len() ==> (#[trigger] options[j]).0 != key) {
                assert(before[i] == options[i]);
                assert forall|j: int| i < j < before.len() implies (#[trigger] before[j]).0 != key by {
                    assert(before[j] == options[j]);
                }
            }
            if value_of(options, key) is None {
                assert forall|j: int| 0 <= j < options.len() implies (#[trigger] options[j]).0 != key by {
                    if j < last {
                        assert(before[j] == options[j]);
                    }
                }
            }
            if forall|j: int| 0 <= j < options.len() ==> (#[trigger] options[j]).0 != key {
                assert forall|j: int| 0 <= j < before.len() implies (#[trigger] before[j]).0 != key by {
                    assert(before[j] == options[j]);
                }
            }
        }
    }
}

/// An option comes from a flag among the words, with its value behind it.
pub proof fn law_options_come_from_flags(args: Seq<Seq<char>>, flags: Seq<Seq<char>>, i: int)
    requires
        0 <= i < split_of(args, flags).1.len(),
    ensures
        exists|k: int|
            0 <= k < args.len() - 1 && flags.contains(#[trigger] args[k]) && split_of(args, flags).1[i]
                == (undashed(args[k]), args[k + 1]),
    decreases args.len(),
{
    if args.len() > 0 {
        let o = split_of(args, flags).1;
        if flags.contains(args[0]) && args.len() >= 2 {
            if i == 0 {
                assert(o[0] == (undashed(args[0]), args[1]));
            } else {
                let rest = args.skip(2);
                law_options_come_from_flags(rest, flags, i - 1);
                let k = choose|k: int|
                    0 <= k < rest.len() - 1 && flags.contains(#[trigger] rest[k]) && split_of(rest, flags).1[i
                        - 1] == (undashed(rest[k]), rest[k + 1]);
                assert(rest[k] == args[k + 2] && rest[k + 1] == args[k + 2 + 1]);
                assert(flags.contains(args[k + 2]));
            }
        } else {
            let rest = args.skip(1);
            law_options_come_from_flags(rest, flags, i);
            let k = choose|k: int|
                0 <= k < rest.len() - 1 && flags.contains(#[trigger] rest[k]) && split_of(rest, flags).1[i]
                    == (undashed(rest[k]), rest[k + 1]);
            assert(rest[k] == args[k + 1] && rest[k + 1] == args[k + 1 + 1]);
            assert(flags.contains(args[k + 1]));
        }
    }
}

/// The output goes where `-o` says, and else where `--out` says.
pub proof fn law_where_the_output_goes(
    options: Seq<(Seq<char>, Seq<char>)>,
    name: Seq<char>,
    suffix: Seq<char>,
)
    ensures
        value_of(options, "o"@) is Some ==> output_of(options) == value_of(options, "o"@),
        value_of(options, "o"@) is None ==> output_of(options) == value_of(options, "out"@),
        output_of(options) matches Some(p) ==> destination(output_of(options), name, suffix) == p,
{
}

/// A pair is what stands before a comma and what stands behind it, up to another
/// comma, both trimmed, if numbers can be read from both; without a comma there is
/// none.
pub proof fn law_a_pair_is_two_numbers(a: Seq<char>, b: Seq<char>, more: Seq<char>)
    requires
        !a.contains(','),
        !b.contains(','),
    ensures
        ({
            let pair = if is_double(trim(a)) && is_double(trim(b)) {
                Some((trim(a), trim(b)))
            } else {
                None
            };
            &&& pair_of(a + seq![','] + b) == pair
            &&& pair_of(a + seq![','] + (b + seq![','] + more)) == pair
            &&& pair_of(a) is None
        }),
{
    let c = b + seq![','] + more;
    law_pieces(a, ',', b);
    law_pieces(a, ',', c);
    law_pieces(b, ',', more);
    assert(split_all(a + seq![','] + c, ',')[1] == b);
    assert(split_all(a + seq![','] + b, ',')[1] == b);
}

/// The flags that take a value, subcommand by subcommand.
pub proof fn law_flags_that_take_a_value(w: Seq<char>)
    ensures
        output_flags().contains(w) <==> w == "-o"@ || w == "--out"@,
        volume_flags().contains(w) <==> w == "-o"@ || w == "--out"@ || w == "--grid"@,
        resect_flags().contains(w) <==> w == "-o"@ || w == "--out"@ || w == "--anim"@,
        inverse_flags().contains(w) <==> w == "-o"@ || w == "--out"@ || w == "--anim"@,
        helmert_flags().contains(w) <==> w == "-o"@ || w == "--out"@ || w == "--csv"@ || w
            == "--apply"@ || w == "--anim"@,
        rts_flags().contains(w) <==> w == "-o"@ || w == "--out"@ || w == "--csv"@ || w == "--base"@
            || w == "--to"@ || w == "--rot"@ || w == "--scale"@ || w == "--anim"@,
{
    let f = output_flags();
    assert(f[0] == "-o"@ && f[1] == "--out"@);
    let f = volume_flags();
    assert(f[0] == "-o"@ && f[1] == "--out"@ && f[2] == "--grid"@);
    let f = resect_flags();
    assert(f[0] == "-o"@ && f[1] == "--out"@ && f[2] == "--anim"@);
    let f = inverse_flags();
    assert(f[0] == "--anim"@ && f[1] == "-o"@ && f[2] == "--out"@);
    let f = helmert_flags();
    assert(f[0] == "-o"@ && f[1] == "--out"@ && f[2] == "--csv"@ && f[3] == "--apply"@ && f[4]
        == "--anim"@);
    let f = rts_flags();
    assert(f[0] == "-o"@ && f[1] == "--out"@ && f[2] == "--csv"@ && f[3] == "--base"@ && f[4]
        == "--to"@ && f[5] == "--rot"@ && f[6] == "--scale"@ && f[7] == "--anim"@);
}

/// Flags that stand for a key.
pub(crate) proof fn lemma_absent(args: Seq<Seq<char>>, flags: Seq<Seq<char>>, key: Seq<char>, flag: Seq<char>)
    requires
        !args.contains(flag),
        forall|i: int| 0 <= i < flags.len() ==> (undashed(#[trigger] flags[i]) == key ==> flags[i] == flag),
    ensures
        value_of(split_of(args, flags).1, key) is None,
{
    let o = split_of(args, flags).1;
    law_the_last_value_holds(o, key, 0);
    assert forall|j: int| 0 <= j < o.len() implies (#[trigger] o[j]).0 != key by {
        law_options_come_from_flags(args, flags, j);
        let k = choose|k: int|
            0 <= k < args.len() - 1 && flags.contains(#[trigger] args[k]) && o[j] == (
                undashed(args[k]),
                args[k + 1],
            );
        let m = choose|m: int| 0 <= m < flags.len() && flags[m] == args[k];
        assert(undashed(flags[m]) == o[j].0);
    }
}

/// The keys of the flags that take a value.
pub(crate) proof fn lemma_keys()
    ensures
        undashed("-o"@) == "o"@,
        undashed("--out"@) == "out"@,
        undashed("--csv"@) == "csv"@,
        undashed("--base"@) == "base"@,
        undashed("--to"@) == "to"@,
        undashed("--rot"@) == "rot"@,
        undashed("--scale"@) == "scale"@,
        undashed("--anim"@) == "anim"@,
        undashed("--grid"@) == "grid"@,
        undashed("--apply"@) == "apply"@,
        "o"@.len() == 1,
        "out"@.len() == 3,
        "csv"@.len() == 3,
        "base"@.len() == 4,
        "to"@.len() == 2,
        "rot"@.len() == 3,
        "scale"@.len() == 5,
        "anim"@.len() == 4,
        "out"@[0] == 'o',
        "csv"@[0] == 'c',
        "rot"@[0] == 'r',
        "base"@[0] == 'b',
        "anim"@[0] == 'a',
        "grid"@.len() == 4,
        "grid"@[0] == 'g',
        "apply"@.len() == 5,
        "apply"@[0] == 'a',
        "scale"@[0] == 's',
{
    reveal_strlit("-o");
    reveal_strlit("--out");
    reveal_strlit("--csv");
    reveal_strlit("--base");
    reveal_strlit("--to");
    reveal_strlit("--rot");
    reveal_strlit("--scale");
    reveal_strlit("--anim");
    reveal_strlit("o");
    reveal_strlit("out");
    reveal_strlit("csv");
    reveal_strlit("base");
    reveal_strlit("to");
    reveal_strlit("rot");
    reveal_strlit("scale");
    reveal_strlit("anim");
    reveal_strlit("--grid");
    reveal_strlit("--apply");
    reveal_strlit("grid");
    reveal_strlit("apply");
    let one = seq!['-'];
    let two = seq!['-', '-'];
    assert("-o"@ =~= one + "o"@);
    assert("--out"@ =~= two + "out"@);
    assert("--csv"@ =~= two + "csv"@);
    assert("--base"@ =~= two + "base"@);
    assert("--to"@ =~= two + "to"@);
    assert("--rot"@ =~= two + "rot"@);
    assert("--scale"@ =~= two + "scale"@);
    assert("--anim"@ =~= two + "anim"@);
    assert("--grid"@ =~= two + "grid"@);
    assert("--apply"@ =~= two + "apply"@);
    law_dashes_are_taken_off(one, "o"@);
    law_dashes_are_taken_off(two, "out"@);
    law_dashes_are_taken_off(two, "csv"@);
    law_dashes_are_taken_off(two, "base"@);
    law_dashes_are_taken_off(two, "to"@);
    law_dashes_are_taken_off(two, "rot"@);
    law_dashes_are_taken_off(two, "scale"@);
    law_dashes_are_taken_off(two, "anim"@);
    law_dashes_are_taken_off(two, "grid"@);
    law_dashes_are_taken_off(two, "apply"@);
}

/// A transformation without a base is refused. With one, the base stays where it is
/// where no goal is given, nothing is turned where no rotation is given, nothing is
/// scaled where no scale is given, and nothing else is written or shown that is not
/// asked for.
pub proof fn law_a_transformation_does_what_is_asked(args: Seq<Seq<char>>)
    ensures
        !args.contains("--base"@) ==> rts_of(args) is Err,
        rts_of(args) matches Ok(v) ==> {
            &&& !args.contains("--to"@) ==> v.to == v.base
            &&& !args.contains("--rot"@) ==> v.rotation == "0"@
            &&& !args.contains("--scale"@) ==> v.scale == "1"@
            &&& !args.contains("--csv"@) ==> v.csv is None
            &&& !args.contains("--anim"@) ==> v.anim is None
            &&& !args.contains("-o"@) && !args.contains("--out"@) ==> v.out is None
            &&& v.teach <==> args.contains("--teach"@)
            &&& is_double(v.base.0) && is_double(v.base.1) && is_double(v.to.0) && is_double(v.to.1)
        },
{
    let f = rts_flags();
    lemma_keys();
    assert(f[0] == "-o"@ && f[1] == "--out"@ && f[2] == "--csv"@ && f[3] == "--base"@ && f[4]
        == "--to"@ && f[5] == "--rot"@ && f[6] == "--scale"@ && f[7] == "--anim"@);
    if !args.contains("--base"@) {
        lemma_absent(args, f, "base"@, "--base"@);
    }
    if !args.contains("--to"@) {
        lemma_absent(args, f, "to"@, "--to"@);
    }
    if !args.contains("--rot"@) {
        lemma_absent(args, f, "rot"@, "--rot"@);
    }
    if !args.contains("--scale"@) {
        lemma_absent(args, f, "scale"@, "--scale"@);
    }
    if !args.contains("--csv"@) {
        lemma_absent(args, f, "csv"@, "--csv"@);
    }
    if !args.contains("--anim"@) {
        lemma_absent(args, f, "anim"@, "--anim"@);
    }
    if !args.contains("-o"@) {
        lemma_absent(args, f, "o"@, "-o"@);
    }
    if !args.contains("--out"@) {
        lemma_absent(args, f, "out"@, "--out"@);
    }
}

/// A transformation takes its base, its goal, its rotation and its scale from the
/// options of these names.
pub proof fn law_a_transformation_by_its_options(
    path: Seq<char>,
    base: Seq<char>,
    to: Seq<char>,
    rotation: Seq<char>,
    scale: Seq<char>,
)
    requires
        !rts_flags().contains(path),
    ensures
        ({
            let args = seq![
                path,
                "--base"@,
                base,
                "--to"@,
                to,
                "--rot"@,
                rotation,
                "--scale"@,
                scale,
            ];
            match rts_of(args) {
                Ok(v) => v.path == path && Some(v.base) == pair_of(base) && Some(v.to) == pair_of(to)
                    && v.rotation == rotation && v.scale == scale && is_double(rotation) && is_double(
                    scale,
                ),
                Err(_) => pair_of(base) is None || pair_of(to) is None || !is_double(rotation)
                    || !is_double(scale),
            }
        }),
{
    let f = rts_flags();
    let none: Seq<Seq<char>> = Seq::empty();
    lemma_keys();
    law_flags_that_take_a_value("--base"@);
    law_flags_that_take_a_value("--to"@);
    law_flags_that_take_a_value("--rot"@);
    law_flags_that_take_a_value("--scale"@);
    let a = seq![path];
    law_words_alone_are_positionals(a, f);
    assert(a.skip(1) =~= none);
    assert(is_complete(none, f));
    assert(is_complete(a, f));
    let b = a + seq!["--base"@, base];
    let c = b + seq!["--to"@, to];
    let d = c + seq!["--rot"@, rotation];
    let e = d + seq!["--scale"@, scale];
    assert(e =~= seq![path, "--base"@, base, "--to"@, to, "--rot"@, rotation, "--scale"@, scale]);
    lemma_adds(a, f, "--base"@, base);
    lemma_adds(b, f, "--to"@, to);
    lemma_adds(c, f, "--rot"@, rotation);
    lemma_adds(d, f, "--scale"@, scale);
    let o = split_of(e, f).1;
    assert(o =~= seq![("base"@, base), ("to"@, to), ("rot"@, rotation), ("scale"@, scale)]);
    law_the_last_value_holds(o, "base"@, 0);
    law_the_last_value_holds(o, "to"@, 1);
    law_the_last_value_holds(o, "rot"@, 2);
    law_the_last_value_holds(o, "scale"@, 3);
}

/// One more option behind complete words.
pub(crate) proof fn lemma_adds(a: Seq<Seq<char>>, flags: Seq<Seq<char>>, flag: Seq<char>, value: Seq<char>)
    requires
        is_complete(a, flags),
        flags.contains(flag),
    ensures
        is_complete(a + seq![flag, value], flags),
        split_of(a + seq![flag, value], flags) == (
            split_of(a, flags).0,
            split_of(a, flags).1.push((undashed(flag), value)),
        ),
    decreases a.len(),
{
    let two = seq![flag, value];
    let all = a + two;
    let none: Seq<Seq<char>> = Seq::empty();
    if a.len() == 0 {
        assert(all =~= two);
        assert(two.skip(2) =~= none);
        assert(is_complete(none, flags));
        assert(split_of(none, flags).1 =~= Seq::empty());
        assert(split_of(a, flags).0 =~= split_of(none, flags).0);
        assert(split_of(all, flags).1 =~= seq![(undashed(flag), value)]);
        assert(split_of(a, flags).1.push((undashed(flag), value)) =~= seq![(undashed(flag), value)]);
    } else if flags.contains(a[0]) {
        lemma_adds(a.skip(2), flags, flag, value);
        assert(all.skip(2) =~= a.skip(2) + two);
        assert(all[0] == a[0] && all[1] == a[1]);
        assert(split_of(all, flags).1 =~= split_of(a, flags).1.push((undashed(flag), value)));
    } else {
        lemma_adds(a.skip(1), flags, flag, value);
        assert(all.skip(1) =~= a.skip(1) + two);
        assert(all[0] == a[0]);
    }
}

/// The coordinates of an inverse on the command line are the positionals that numbers
/// can be read from, in order, whatever other words stand between them.
pub proof fn law_an_inverse_passes_over_other_words(words: Seq<Seq<char>>, at: Seq<int>)
    requires
        forall|m: int, n: int| 0 <= m < n < at.len() ==> #[trigger] at[m] < #[trigger] at[n],
        forall|m: int| 0 <= m < at.len() ==> 0 <= #[trigger] at[m] < words.len(),
        forall|i: int|
            0 <= i < words.len() ==> (at.contains(i) <==> is_double(#[trigger] words[i])),
    ensures
        words.filter(numeric()) == at.map_values(|i: int| words[i]),
{
    let p = numeric();
    assert forall|m: int| 0 <= m < at.len() implies 0 <= #[trigger] at[m] < words.len() && p(words[at[m]]) by {
        assert(at.contains(at[m]));
        assert(is_double(words[at[m]]));
    }
    lemma_filter_places(words, p, at);
}

} // verus!
