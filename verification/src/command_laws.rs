//! What holds of commands as a whole.

use vstd::prelude::*;

use crate::dispatch::{
    argument, import_of, peeled, suppressed_after, switch_of, switch_reply, verb_of, with_keyword,
    ImportView, Verb,
};
use crate::pnezd::{penzd_format, pnezd_format, Format};
use crate::requests::{arguments, before, ends_with, helmert_of, HelmertMode};
use crate::text::{
    first_where, first_word, ink, is_space, lemma_first_where, lemma_past_last_is, lower,
    lower_text, past_last, same_but_case, space, trim, trim_end, trim_start, upper_text, words,
};

verus! {

/// A verb names the same command in whatever case.
pub proof fn law_verbs_ignore_case(a: Seq<char>, b: Seq<char>)
    requires
        same_but_case(a, b),
    ensures
        verb_of(upper_text(a)) == verb_of(upper_text(b)),
{
    assert(a.len() == lower_text(a).len() && b.len() == lower_text(b).len());
    assert forall|i: int| 0 <= i < a.len() implies #[trigger] upper_text(a)[i] == upper_text(b)[i] by {
        assert(lower_text(a)[i] == lower(a[i]));
        assert(lower_text(b)[i] == lower(b[i]));
    }
    assert(upper_text(a) =~= upper_text(b));
}

/// White space before a command changes nothing: it has the same verb and the same
/// arguments.
pub proof fn law_space_before_a_command(c: char, cmd: Seq<char>)
    requires
        is_space(c),
    ensures
        first_word(seq![c] + cmd) == first_word(cmd),
        argument(seq![c] + cmd) == argument(cmd),
        arguments(seq![c] + cmd) == arguments(cmd),
{
    let more = seq![c] + cmd;
    assert(more.skip(1) =~= cmd);
    assert(first_where(more, ink()) == 1 + first_where(cmd, ink()));
    lemma_first_where(cmd, ink());
    assert(trim_start(more) =~= trim_start(cmd));
    assert(words(more) == words(cmd));
}

/// Keywords that are known only set what they ask for; what is set stays set.
proof fn lemma_flags(s: Seq<char>, f: Format, p: bool, d: bool, preview: bool, detail: bool)
    ensures
        ({
            let v = peeled(s, f, p, d);
            peeled(s, f, p || preview, d || detail) == ImportView {
                preview: v.preview || preview,
                detail: v.detail || detail,
                ..v
            }
        }),
    decreases s.len(),
{
    let t = trim_end(s);
    let k = past_last(t, space());
    if k <= 0 || k > t.len() || t.len() > s.len() {
    } else {
        match with_keyword(t.skip(k), f, p, d) {
            Some((f2, p2, d2)) => {
                lemma_flags(t.take(k - 1), f2, p2, d2, preview, detail);
            },
            None => {},
        }
    }
}

/// The last word of an argument, behind white space.
proof fn lemma_last_word(s: Seq<char>, c: char, word: Seq<char>)
    requires
        is_space(c),
        is_word(word),
    ensures
        ({
            let all = s + seq![c] + word;
            let k = s.len() as int + 1;
            &&& trim_end(all) == all
            &&& past_last(all, space()) == k
            &&& all.skip(k) == word
            &&& all.take(k - 1) == s
        }),
{
    let all = s + seq![c] + word;
    let n = all.len() as int;
    assert(all[n - 1] == word[word.len() - 1]);
    lemma_past_last_is(all, ink(), n);
    assert(trim_end(all) =~= all);
    let k = s.len() as int + 1;
    assert(all[k - 1] == c);
    assert forall|j: int| k <= j < n implies !space()(#[trigger] all[j]) by {
        assert(all[j] == word[j - k]);
    }
    lemma_past_last_is(all, space(), k);
    assert(all.skip(k) =~= word);
    assert(all.take(k - 1) =~= s);
}

/// Where the last word of an import is no keyword, all of it is the path, with the
/// white space in it.
pub proof fn law_a_path_may_contain_spaces(s: Seq<char>, c: char, word: Seq<char>)
    requires
        is_space(c),
        is_word(word),
        with_keyword(word, pnezd_format(), false, false) is None,
    ensures
        import_of(s + seq![c] + word) == (ImportView {
            path: trim(s + seq![c] + word),
            format: pnezd_format(),
            preview: false,
            detail: false,
        }),
{
    lemma_last_word(s, c, word);
}

/// A word that is free of white space.
pub open spec fn is_word(w: Seq<char>) -> bool {
    w.len() > 0 && forall|i: int| 0 <= i < w.len() ==> !is_space(#[trigger] w[i])
}

/// The keyword `preview`, in whatever case, behind the words of an import turns it
/// into a preview and changes nothing else.
pub proof fn law_preview_keyword(s: Seq<char>, c: char, word: Seq<char>)
    requires
        is_space(c),
        is_word(word),
        lower_text(word) == "preview"@,
    ensures
        import_of(s + seq![c] + word) == (ImportView { preview: true, ..import_of(s) }),
{
    reveal_strlit("penzd");
    reveal_strlit("pnezd");
    reveal_strlit("preview");
    assert("penzd"@.len() == 5 && "pnezd"@.len() == 5 && "preview"@.len() == 7);
    lemma_last_word(s, c, word);
    lemma_flags(s, pnezd_format(), false, false, true, false);
}

/// The keyword `detail`, in whatever case, behind the words of an import asks for
/// the second line of the labels and changes nothing else.
pub proof fn law_detail_keyword(s: Seq<char>, c: char, word: Seq<char>)
    requires
        is_space(c),
        is_word(word),
        lower_text(word) == "detail"@,
    ensures
        import_of(s + seq![c] + word) == (ImportView { detail: true, ..import_of(s) }),
{
    reveal_strlit("penzd");
    reveal_strlit("pnezd");
    reveal_strlit("preview");
    reveal_strlit("detail");
    assert("penzd"@.len() == 5 && "pnezd"@.len() == 5 && "preview"@.len() == 7 && "detail"@.len()
        == 6);
    lemma_last_word(s, c, word);
    lemma_flags(s, pnezd_format(), false, false, false, true);
}

/// A keyword for the columns is among those at the end of an argument.
pub open spec fn sets_columns(s: Seq<char>) -> bool
    decreases s.len(),
{
    let t = trim_end(s);
    let k = past_last(t, space());
    if k <= 0 || k > t.len() || t.len() > s.len() {
        false
    } else {
        let w = lower_text(t.skip(k));
        ||| w == "penzd"@
        ||| w == "pnezd"@
        ||| (w == "preview"@ || w == "detail"@) && sets_columns(t.take(k - 1))
    }
}

/// The keyword `penzd`, in whatever case, behind the words of an import exchanges
/// the columns, unless another keyword for the columns stands before it; then they
/// are what that one says. The path, the preview and the detail are what they were.
pub proof fn law_column_keyword(s: Seq<char>, c: char, word: Seq<char>)
    requires
        is_space(c),
        is_word(word),
        lower_text(word) == "penzd"@,
    ensures
        import_of(s + seq![c] + word) == (ImportView {
            format: if sets_columns(s) {
                import_of(s).format
            } else {
                penzd_format()
            },
            ..import_of(s)
        }),
{
    lemma_last_word(s, c, word);
    lemma_format(s, pnezd_format(), penzd_format(), false, false);
}

/// The keyword `pnezd`, in whatever case, behind the words of an import changes
/// nothing: its columns are those of an import without keywords, and a keyword for
/// the columns before it decides.
pub proof fn law_plain_column_keyword(s: Seq<char>, c: char, word: Seq<char>)
    requires
        is_space(c),
        is_word(word),
        lower_text(word) == "pnezd"@,
    ensures
        import_of(s + seq![c] + word) == import_of(s),
        !sets_columns(s) ==> import_of(s).format == pnezd_format(),
{
    reveal_strlit("penzd");
    reveal_strlit("pnezd");
    assert("penzd"@[1] == 'e' && "pnezd"@[1] == 'n');
    lemma_last_word(s, c, word);
    lemma_format(s, pnezd_format(), pnezd_format(), false, false);
}

/// The columns that are set before the keywords are read matter only where no
/// keyword sets them.
proof fn lemma_format(s: Seq<char>, f: Format, g: Format, p: bool, d: bool)
    ensures
        ({
            let v = peeled(s, f, p, d);
            let format = if sets_columns(s) {
                v.format
            } else {
                g
            };
            &&& peeled(s, g, p, d) == ImportView { format, ..v }
            &&& !sets_columns(s) ==> v.format == f
        }),
    decreases s.len(),
{
    let t = trim_end(s);
    let k = past_last(t, space());
    if k <= 0 || k > t.len() || t.len() > s.len() {
    } else {
        let a = with_keyword(t.skip(k), f, p, d);
        let b = with_keyword(t.skip(k), g, p, d);
        if a is Some {
            let (f2, p2, d2) = a->0;
            let (g2, _, _) = b->0;
            lemma_format(t.take(k - 1), f2, g2, p2, d2);
        }
    }
}

/// A switch of the labels that is given twice is as good as given once, and what
/// it answers then is what it answered before.
pub proof fn law_switching_twice(arg: Seq<char>, suppressed: bool)
    ensures
        suppressed_after(arg, suppressed_after(arg, suppressed)) == suppressed_after(arg, suppressed),
        switch_reply(arg, suppressed_after(arg, suppressed)) == switch_reply(arg, suppressed),
{
}

/// Asking for the state of the labels changes nothing and is answered with what
/// the last switch answered.
pub proof fn law_the_state_is_reported(arg: Seq<char>, suppressed: bool)
    requires
        switch_of(arg) is Some,
    ensures
        suppressed_after(Seq::empty(), suppressed) == suppressed,
        switch_reply(Seq::empty(), suppressed_after(arg, suppressed)) == switch_reply(arg, suppressed),
{
    reveal_strlit("");
    assert(upper_text(Seq::empty()) =~= ""@);
}

/// A keyword behind the path of a fit, in whatever case, is not part of the path.
proof fn lemma_keyword_ends(s: Seq<char>, word: Seq<char>, keyword: Seq<char>)
    requires
        lower_text(word) == keyword,
    ensures
        ends_with(s + word, keyword),
        before(s + word, keyword) == trim(s),
{
    let all = s + word;
    assert(word.len() == keyword.len());
    assert(lower_text(all).skip(s.len() as int) =~= lower_text(word));
    assert(all.take(s.len() as int) =~= s);
}

/// What follows a fit is asked for by a keyword behind its path, in whatever case.
pub proof fn law_fit_keywords(s: Seq<char>, word: Seq<char>)
    ensures
        lower_text(word) == " apply"@ ==> helmert_of(s + word) == (trim(s), HelmertMode::Apply),
        lower_text(word) == " stages"@ ==> helmert_of(s + word) == (trim(s), HelmertMode::Stages),
        lower_text(word) == " teach"@ ==> helmert_of(s + word) == (trim(s), HelmertMode::Teach),
        lower_text(word) == " anim"@ ==> helmert_of(s + word) == (trim(s), HelmertMode::Anim),
{
    reveal_strlit(" apply");
    reveal_strlit(" stages");
    reveal_strlit(" teach");
    reveal_strlit(" anim");
    let all = s + word;
    let low = lower_text(all);
    let n = all.len() as int;
    if word.len() > 0 {
        assert(low[n - 1] == lower_text(word)[word.len() - 1]);
    }
    if lower_text(word) == " apply"@ {
        lemma_keyword_ends(s, word, " apply"@);
    }
    if lower_text(word) == " stages"@ {
        lemma_keyword_ends(s, word, " stages"@);
        assert(" stages"@[6] == 's' && " apply"@[5] == 'y');
        if ends_with(all, " apply"@) {
            assert(low.skip(n - 6)[5] == low[n - 1]);
        }
    }
    if lower_text(word) == " teach"@ {
        lemma_keyword_ends(s, word, " teach"@);
        assert(" teach"@[5] == 'h' && " apply"@[5] == 'y' && " stages"@[6] == 's');
        if ends_with(all, " apply"@) {
            assert(low.skip(n - 6)[5] == low[n - 1]);
        }
        if ends_with(all, " stages"@) {
            assert(low.skip(n - 7)[6] == low[n - 1]);
        }
    }
    if lower_text(word) == " anim"@ {
        lemma_keyword_ends(s, word, " anim"@);
        assert(" anim"@[4] == 'm' && " apply"@[5] == 'y' && " stages"@[6] == 's' && " teach"@[5] == 'h');
        if ends_with(all, " apply"@) {
            assert(low.skip(n - 6)[5] == low[n - 1]);
        }
        if ends_with(all, " stages"@) {
            assert(low.skip(n - 7)[6] == low[n - 1]);
        }
        if ends_with(all, " teach"@) {
            assert(low.skip(n - 6)[5] == low[n - 1]);
        }
    }
}

/// Each command has one verb; only the import of a surface has two.
pub proof fn law_a_verb_calls_one_command(a: Seq<char>, b: Seq<char>)
    requires
        verb_of(a) is Some,
        verb_of(a) == verb_of(b),
        verb_of(a) != Some(Verb::LandXml),
    ensures
        a == b,
{
}

} // verus!
