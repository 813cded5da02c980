//! What holds of every request.

use vstd::prelude::*;

use crate::command_laws::is_word;
use crate::dispatch::{import_of, switch_reply, suppressed_after, ImportView};
use crate::number::{double_of, is_finite, is_positive, Double};
use crate::pnezd::pnezd_format;
use crate::requests::{
    arguments, before, coordinate, datum_refusal, ends_with, first_unreadable, grid_step,
    helmert_of, inverse_refusal, rts_refusal, surface_word, HelmertMode,
};
use crate::console::Said;
use crate::text::{
    ink, is_space, lemma_first_where_is, lemma_past_last_is, lower, lower_text, same_but_case,
    space, trim, trim_end, trim_start,
};

verus! {

/// The items of a list that a predicate holds of are those at the places where it
/// holds, in order.
pub(crate) proof fn lemma_filter_places<A>(s: Seq<A>, p: spec_fn(A) -> bool, at: Seq<int>)
    requires
        forall|m: int, n: int| 0 <= m < n < at.len() ==> #[trigger] at[m] < #[trigger] at[n],
        forall|m: int| 0 <= m < at.len() ==> 0 <= #[trigger] at[m] < s.len() && p(s[at[m]]),
        forall|i: int| 0 <= i < s.len() && p(#[trigger] s[i]) ==> at.contains(i),
    ensures
        s.filter(p) == at.map_values(|i: int| s[i]),
    decreases s.len(),
{
    reveal(Seq::filter);
    if s.len() == 0 {
        if at.len() > 0 {
            assert(0 <= at[0] < s.len());
        }
        assert(s.filter(p) =~= at.map_values(|i: int| s[i]));
    } else {
        let t = s.drop_last();
        let last = s.len() - 1;
        if p(s[last]) {
            assert(at.contains(last));
            let k = choose|k: int| 0 <= k < at.len() && at[k] == last;
            if k < at.len() - 1 {
                assert(at[k] < at[at.len() - 1]);
            }
            let u = at.drop_last();
            assert forall|m: int| 0 <= m < u.len() implies 0 <= #[trigger] u[m] < t.len() && p(t[u[m]]) by {
                assert(at[m] < at[at.len() - 1]);
                assert(s[at[m]] == t[at[m]]);
            }
            assert forall|i: int| 0 <= i < t.len() && p(#[trigger] t[i]) implies u.contains(i) by {
                assert(p(s[i]));
                let m = choose|m: int| 0 <= m < at.len() && at[m] == i;
                assert(u[m] == i);
            }
            lemma_filter_places(t, p, u);
            assert(u.map_values(|i: int| t[i]).push(s[last]) =~= at.map_values(|i: int| s[i]));
        } else {
            assert forall|m: int| 0 <= m < at.len() implies 0 <= #[trigger] at[m] < t.len() && p(t[at[m]]) by {
                assert(p(s[at[m]]));
                assert(t[at[m]] == s[at[m]]);
            }
            assert forall|i: int| 0 <= i < t.len() && p(#[trigger] t[i]) implies at.contains(i) by {
                assert(p(s[i]));
            }
            lemma_filter_places(t, p, at);
            assert(at.map_values(|i: int| t[i]) =~= at.map_values(|i: int| s[i]));
        }
    }
}

// ---------------------------------------------------------------------------
// LS_VOLUME
// ---------------------------------------------------------------------------

/// A word that calls for a surface: neither the keyword nor a number.
pub open spec fn calls_a_surface(w: Seq<char>) -> bool {
    !same_but_case(w, "draw"@) && double_of(w) == Double::Malformed
}

/// Two places are those of the first two words that call for surfaces.
pub open spec fn are_the_surfaces(args: Seq<Seq<char>>, i: int, j: int) -> bool {
    &&& 0 <= i < j < args.len()
    &&& calls_a_surface(args[i])
    &&& calls_a_surface(args[j])
    &&& forall|k: int| 0 <= k < j && k != i ==> !calls_a_surface(#[trigger] args[k])
}

/// The surfaces of a volume are the first two words behind the verb that are neither
/// the keyword nor a number, whatever characters they hold and whatever stands
/// between them.
pub proof fn law_the_first_two_names_are_the_surfaces(args: Seq<Seq<char>>, i: int, j: int)
    requires
        are_the_surfaces(args, i, j),
    ensures
        args.filter(surface_word()).len() >= 2,
        args.filter(surface_word())[0] == args[i],
        args.filter(surface_word())[1] == args[j],
{
    let p = surface_word();
    let a = args.take(j + 1);
    let b = args.skip(j + 1);
    let at = seq![i, j];
    assert forall|k: int| 0 <= k < a.len() && p(#[trigger] a[k]) implies at.contains(k) by {
        assert(a[k] == args[k]);
        if k == i {
            assert(at[0] == k);
        } else if k == j {
            assert(at[1] == k);
        }
    }
    lemma_filter_places(a, p, at);
    Seq::filter_distributes_over_add(a, b, p);
    assert(a + b =~= args);
}

/// A volume is that between the surfaces `top` and `bottom` only where no surface is
/// called for: where every word is the keyword or a number.
pub proof fn law_default_surfaces_where_none_is_named(args: Seq<Seq<char>>)
    ensures
        args.filter(surface_word()).len() == 0 <==> forall|k: int|
            0 <= k < args.len() ==> !calls_a_surface(#[trigger] args[k]),
{
    let p = surface_word();
    if forall|k: int| 0 <= k < args.len() ==> !calls_a_surface(#[trigger] args[k]) {
        let none: Seq<int> = Seq::empty();
        assert forall|k: int| 0 <= k < args.len() && p(#[trigger] args[k]) implies none.contains(k) by {}
        lemma_filter_places(args, p, none);
    }
    if args.filter(p).len() == 0 {
        assert forall|k: int| 0 <= k < args.len() implies !calls_a_surface(#[trigger] args[k]) by {
            if calls_a_surface(args[k]) {
                args.lemma_filter_contains(p, k);
                let f = args.filter(p);
                let m = choose|m: int| 0 <= m < f.len() && f[m] == args[k];
                assert(0 <= m < f.len());
            }
        }
    }
}

/// A volume with a single surface is refused: where exactly one word calls for one.
pub proof fn law_one_surface_is_too_few(args: Seq<Seq<char>>, i: int)
    requires
        0 <= i < args.len(),
        calls_a_surface(args[i]),
        forall|k: int| 0 <= k < args.len() && k != i ==> !calls_a_surface(#[trigger] args[k]),
    ensures
        args.filter(surface_word()) == seq![args[i]],
{
    let p = surface_word();
    let at = seq![i];
    assert forall|k: int| 0 <= k < args.len() && p(#[trigger] args[k]) implies at.contains(k) by {
        assert(at[0] == k);
    }
    lemma_filter_places(args, p, at);
    assert(at.map_values(|i: int| args[i]) =~= seq![args[i]]);
}

/// The grid step is the last positive number among the words.
pub proof fn law_the_last_positive_number_is_the_step(w: Seq<Seq<char>>, k: int)
    ensures
        0 <= k < w.len() && is_positive(w[k]) && !same_but_case(w[k], "draw"@) && (forall|j: int|
            k < j < w.len() ==> !is_positive(#[trigger] w[j]) || same_but_case(w[j], "draw"@))
            ==> grid_step(w) == Some(w[k]),
        grid_step(w) is None <==> forall|j: int|
            0 <= j < w.len() ==> !is_positive(#[trigger] w[j]) || same_but_case(w[j], "draw"@),
    decreases w.len(),
{
    if w.len() > 0 {
        let t = w.drop_last();
        law_the_last_positive_number_is_the_step(t, k);
        let last = w.len() - 1;
        if is_positive(w[last]) && !same_but_case(w[last], "draw"@) {
        } else {
            if 0 <= k < w.len() && is_positive(w[k]) && !same_but_case(w[k], "draw"@) && (forall|j: int|
                k < j < w.len() ==> !is_positive(#[trigger] w[j]) || same_but_case(w[j], "draw"@)) {
                assert(k < last);
                assert(t[k] == w[k]);
                assert forall|j: int| k < j < t.len() implies !is_positive(#[trigger] t[j])
                    || same_but_case(t[j], "draw"@) by {
                    assert(t[j] == w[j]);
                }
            }
            if forall|j: int| 0 <= j < w.len() ==> !is_positive(#[trigger] w[j]) || same_but_case(w[j], "draw"@) {
                assert forall|j: int| 0 <= j < t.len() implies !is_positive(#[trigger] t[j])
                    || same_but_case(t[j], "draw"@) by {
                    assert(t[j] == w[j]);
                }
            }
            if grid_step(w) is None {
                assert forall|j: int| 0 <= j < w.len() implies !is_positive(#[trigger] w[j])
                    || same_but_case(w[j], "draw"@) by {
                    if j < last {
                        assert(t[j] == w[j]);
                    }
                }
            }
        }
    }
}

// ---------------------------------------------------------------------------
// LS_INVERSE, LS_DATUM and LS_RTS
// ---------------------------------------------------------------------------

/// The first word that no finite number can be read from: all before it are finite.
pub proof fn law_the_first_unreadable_word(w: Seq<Seq<char>>, k: int)
    ensures
        first_unreadable(w) is None <==> forall|j: int| 0 <= j < w.len() ==> is_finite(#[trigger] w[j]),
        0 <= k < w.len() && !is_finite(w[k]) && (forall|j: int|
            0 <= j < k ==> is_finite(#[trigger] w[j])) ==> first_unreadable(w) == Some(w[k]),
    decreases w.len(),
{
    if w.len() > 0 {
        let t = w.skip(1);
        law_the_first_unreadable_word(t, k - 1);
        if is_finite(w[0]) {
            if first_unreadable(w) is None {
                assert forall|j: int| 0 <= j < w.len() implies is_finite(#[trigger] w[j]) by {
                    if j > 0 {
                        assert(t[j - 1] == w[j]);
                    }
                }
            }
            if forall|j: int| 0 <= j < w.len() ==> is_finite(#[trigger] w[j]) {
                assert forall|j: int| 0 <= j < t.len() implies is_finite(#[trigger] t[j]) by {
                    assert(t[j] == w[j + 1]);
                }
            }
            if 0 <= k < w.len() && !is_finite(w[k]) && (forall|j: int|
                0 <= j < k ==> is_finite(#[trigger] w[j])) {
                assert(t[k - 1] == w[k]);
                assert forall|j: int| 0 <= j < k - 1 implies is_finite(#[trigger] t[j]) by {
                    assert(t[j] == w[j + 1]);
                }
            }
        }
    }
}

/// The coordinates of an inverse are all the words behind the verb but the keywords,
/// in order, wherever the keywords stand. The request is met if and only if there
/// are four of them, all finite numbers.
pub proof fn law_an_inverse_takes_four_numbers(cmd: Seq<char>, at: Seq<int>)
    requires
        forall|m: int, n: int| 0 <= m < n < at.len() ==> #[trigger] at[m] < #[trigger] at[n],
        forall|m: int| 0 <= m < at.len() ==> 0 <= #[trigger] at[m] < arguments(cmd).len(),
        forall|i: int|
            0 <= i < arguments(cmd).len() ==> (at.contains(i) <==> !same_but_case(
                #[trigger] arguments(cmd)[i],
                "draw"@,
            ) && !same_but_case(arguments(cmd)[i], "anim"@)),
    ensures
        arguments(cmd).filter(coordinate()) == at.map_values(|i: int| arguments(cmd)[i]),
        inverse_refusal(cmd) is None <==> at.len() == 4 && forall|m: int|
            0 <= m < at.len() ==> is_finite(arguments(cmd)[#[trigger] at[m]]),
{
    let args = arguments(cmd);
    let p = coordinate();
    assert forall|m: int| 0 <= m < at.len() implies 0 <= #[trigger] at[m] < args.len() && p(args[at[m]]) by {
        assert(at.contains(at[m]));
        assert(!same_but_case(args[at[m]], "draw"@));
    }
    assert forall|i: int| 0 <= i < args.len() && p(#[trigger] args[i]) implies at.contains(i) by {}
    lemma_filter_places(args, p, at);
    let given = args.filter(p);
    law_the_first_unreadable_word(given, 0);
    if first_unreadable(given) is None {
        assert forall|m: int| 0 <= m < at.len() implies is_finite(args[#[trigger] at[m]]) by {
            assert(given[m] == args[at[m]]);
        }
    }
    if forall|m: int| 0 <= m < at.len() ==> is_finite(args[#[trigger] at[m]]) {
        assert forall|j: int| 0 <= j < given.len() implies is_finite(#[trigger] given[j]) by {
            assert(given[j] == args[at[j]]);
        }
    }
}

/// A volume over a datum is computed if and only if there are a surface and a word
/// that a number can be read from.
pub proof fn law_a_datum_takes_a_number(cmd: Seq<char>)
    ensures
        datum_refusal(cmd) is None <==> arguments(cmd).len() >= 2 && double_of(arguments(cmd)[1])
            != Double::Malformed,
        arguments(cmd).len() >= 2 && datum_refusal(cmd) is Some ==> datum_refusal(cmd) == Some(
            Said::Info("LS_DATUM: elevation must be a number, got \""@ + arguments(cmd)[1] + "\""@),
        ),
{
}

/// A transformation is refused for its words if and only if there are neither four
/// nor six of them, or one is no finite number.
pub proof fn law_a_transformation_takes_four_or_six_numbers(cmd: Seq<char>)
    ensures
        rts_refusal(cmd) is None <==> (arguments(cmd).len() == 4 || arguments(cmd).len() == 6)
            && forall|i: int| 0 <= i < arguments(cmd).len() ==> is_finite(#[trigger] arguments(cmd)[i]),
{
    law_the_first_unreadable_word(arguments(cmd), 0);
}

// ---------------------------------------------------------------------------
// LS_HELMERT, LS_RESECT and LS_PNEZD
// ---------------------------------------------------------------------------

/// A keyword of small letters.
pub open spec fn is_keyword(k: Seq<char>) -> bool {
    k.len() > 0 && forall|i: int| 0 <= i < k.len() ==> 'a' <= #[trigger] k[i] <= 'z'
}

/// An argument ends with a keyword behind a space if and only if its last word is the
/// keyword, in whatever case, and what stands before that word is a space.
pub proof fn law_a_keyword_is_the_last_word(s: Seq<char>, c: char, word: Seq<char>, k: Seq<char>)
    requires
        is_space(c),
        is_word(word),
        is_keyword(k),
    ensures
        ends_with(s + seq![c] + word, seq![' '] + k) <==> c == ' ' && lower_text(word) == k,
        c == ' ' && lower_text(word) == k ==> before(s + seq![c] + word, seq![' '] + k) == trim(s),
{
    let all = s + seq![c] + word;
    let key = seq![' '] + k;
    let n = all.len() as int;
    let low = lower_text(all);
    let w = word.len() as int;
    assert(all[n - w - 1] == c);
    assert(lower(c) == c);
    if ends_with(all, key) {
        let tail = low.skip(n - key.len());
        assert(tail == key);
        assert(tail[0] == ' ');
        assert(low[n - key.len()] == ' ');
        if w > k.len() {
            let x = all[n - key.len()];
            assert(x == word[w - key.len()]);
            assert(lower(x) == ' ');
            assert(x == ' ');
            assert(is_space(word[w - key.len()]));
            assert(false);
        }
        if w < k.len() {
            let j = key.len() - w - 1;
            assert(tail[j] == low[n - w - 1]);
            assert(tail[j] == c);
            assert(key[j] == k[j - 1]);
            assert('a' <= k[j - 1] <= 'z');
            assert(false);
        }
        assert(tail[0] == c);
        assert forall|i: int| 0 <= i < w implies #[trigger] lower_text(word)[i] == k[i] by {
            assert(tail[i + 1] == low[n - w + i]);
            assert(all[n - w + i] == word[i]);
            assert(key[i + 1] == k[i]);
        }
        assert(lower_text(word) =~= k);
    }
    if c == ' ' && lower_text(word) == k {
        assert(lower_text(word).len() == w);
        assert forall|i: int| 0 <= i < key.len() implies #[trigger] low.skip(n - key.len())[i] == key[i] by {
            if i > 0 {
                assert(all[n - key.len() + i] == word[i - 1]);
                assert(lower_text(word)[i - 1] == k[i - 1]);
            }
        }
        assert(low.skip(n - key.len()) =~= key);
        assert(all.take(n - key.len()) =~= s);
    }
}

/// What follows a fit is asked for by the last word of the argument alone, behind a
/// space: any other argument is a path from end to end.
pub proof fn law_a_fit_is_followed_by_its_last_word(s: Seq<char>, c: char, word: Seq<char>)
    requires
        is_space(c),
        is_word(word),
    ensures
        ({
            let all = s + seq![c] + word;
            let w = lower_text(word);
            helmert_of(all) == (if c == ' ' && w == "apply"@ {
                (trim(s), HelmertMode::Apply)
            } else if c == ' ' && w == "stages"@ {
                (trim(s), HelmertMode::Stages)
            } else if c == ' ' && w == "teach"@ {
                (trim(s), HelmertMode::Teach)
            } else if c == ' ' && w == "anim"@ {
                (trim(s), HelmertMode::Anim)
            } else {
                (all, HelmertMode::Report)
            })
        }),
        helmert_of(word) == (word, HelmertMode::Report),
{
    lemma_literals();
    law_a_keyword_is_the_last_word(s, c, word, "apply"@);
    law_a_keyword_is_the_last_word(s, c, word, "stages"@);
    law_a_keyword_is_the_last_word(s, c, word, "teach"@);
    law_a_keyword_is_the_last_word(s, c, word, "anim"@);
    lemma_no_space(word, "apply"@);
    lemma_no_space(word, "stages"@);
    lemma_no_space(word, "teach"@);
    lemma_no_space(word, "anim"@);
    assert("apply"@.len() == 5 && "stages"@.len() == 6 && "teach"@.len() == 5 && "anim"@.len() == 4);
    assert("apply"@[0] == 'a' && "teach"@[0] == 't');
}

/// The keywords as they stand behind a space.
proof fn lemma_literals()
    ensures
        " apply"@ == seq![' '] + "apply"@,
        " stages"@ == seq![' '] + "stages"@,
        " teach"@ == seq![' '] + "teach"@,
        " anim"@ == seq![' '] + "anim"@,
        is_keyword("apply"@),
        is_keyword("stages"@),
        is_keyword("teach"@),
        is_keyword("anim"@),
        "apply"@.len() == 5,
        "stages"@.len() == 6,
        "teach"@.len() == 5,
        "anim"@.len() == 4,
        "apply"@[0] == 'a',
        "teach"@[0] == 't',
{
    reveal_strlit(" apply");
    reveal_strlit(" stages");
    reveal_strlit(" teach");
    reveal_strlit(" anim");
    reveal_strlit("apply");
    reveal_strlit("stages");
    reveal_strlit("teach");
    reveal_strlit("anim");
    assert(" apply"@ =~= seq![' '] + "apply"@);
    assert(" stages"@ =~= seq![' '] + "stages"@);
    assert(" teach"@ =~= seq![' '] + "teach"@);
    assert(" anim"@ =~= seq![' '] + "anim"@);
}

/// A word does not end with a keyword behind a space.
proof fn lemma_no_space(word: Seq<char>, k: Seq<char>)
    requires
        is_word(word),
    ensures
        !ends_with(word, seq![' '] + k),
{
    let key = seq![' '] + k;
    if ends_with(word, key) {
        let at = word.len() - key.len();
        assert(lower_text(word).skip(at)[0] == key[0]);
        assert(lower(word[at]) == ' ');
        assert(is_space(word[at]));
    }
}

/// A resection is asked for with an animation if and only if the last word of the
/// argument is the keyword, behind a space; a single word is a path.
pub proof fn law_an_animation_is_asked_for_last(s: Seq<char>, c: char, word: Seq<char>)
    requires
        is_space(c),
        is_word(word),
    ensures
        ends_with(s + seq![c] + word, " anim"@) <==> c == ' ' && lower_text(word) == "anim"@,
        c == ' ' && lower_text(word) == "anim"@ ==> before(s + seq![c] + word, " anim"@) == trim(s),
        !ends_with(word, " anim"@),
{
    lemma_literals();
    law_a_keyword_is_the_last_word(s, c, word, "anim"@);
    lemma_no_space(word, "anim"@);
}

/// A single word is the path of an import, though it may be a keyword, and is
/// imported in the usual order, without a preview and without a second line.
pub proof fn law_a_single_word_is_a_path(word: Seq<char>)
    requires
        is_word(word),
    ensures
        import_of(word) == (ImportView {
            path: word,
            format: pnezd_format(),
            preview: false,
            detail: false,
        }),
{
    lemma_past_last_is(word, ink(), word.len() as int);
    assert(trim_end(word) =~= word);
    lemma_past_last_is(word, space(), 0);
    lemma_first_where_is(word, ink(), 0);
    assert(trim_start(word) =~= word);
}

/// Labels are shown after `ON` and suppressed after `OFF`, in whatever case, and the
/// reply says so; anything else but nothing leaves them and is answered with the
/// usage.
pub proof fn law_labels_are_switched(arg: Seq<char>, suppressed: bool)
    ensures
        lower_text(arg) == "on"@ ==> !suppressed_after(arg, suppressed) && switch_reply(arg, suppressed)
            == Said::Output("LS_AUTOLABEL: point labels ON on import."@),
        lower_text(arg) == "off"@ ==> suppressed_after(arg, suppressed) && switch_reply(arg, suppressed)
            == Said::Output("LS_AUTOLABEL: point labels OFF on import."@),
        lower_text(arg) != "on"@ && lower_text(arg) != "off"@ ==> suppressed_after(arg, suppressed)
            == suppressed,
        lower_text(arg) != "on"@ && lower_text(arg) != "off"@ && arg.len() > 0 ==> switch_reply(
            arg,
            suppressed,
        ) == Said::Info("Usage: LS_AUTOLABEL [ON|OFF]"@),
{
    reveal_strlit("on");
    reveal_strlit("off");
    reveal_strlit("ON");
    reveal_strlit("OFF");
    reveal_strlit("");
    let u = crate::text::upper_text(arg);
    let l = lower_text(arg);
    assert(u.len() == arg.len() && l.len() == arg.len());
    if l == "on"@ {
        assert(lower(arg[0]) == l[0] && lower(arg[1]) == l[1]);
        assert(u =~= "ON"@);
    }
    if l == "off"@ {
        assert(lower(arg[0]) == l[0] && lower(arg[1]) == l[1] && lower(arg[2]) == l[2]);
        assert(u =~= "OFF"@);
    }
    if u == "ON"@ {
        assert(crate::text::upper(arg[0]) == u[0] && crate::text::upper(arg[1]) == u[1]);
        assert(l =~= "on"@);
    }
    if u == "OFF"@ {
        assert(crate::text::upper(arg[0]) == u[0] && crate::text::upper(arg[1]) == u[1]
            && crate::text::upper(arg[2]) == u[2]);
        assert(l =~= "off"@);
    }
}

} // verus!
