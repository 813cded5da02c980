//! The `LS_` commands: which command a line names and what it asks for.

use vstd::prelude::*;
use vstd::slice::slice_subrange;

use crate::console::{info, Reply, Said};
use crate::layers::{capitals, unicode_capitals};
use crate::pnezd::{penzd_format, pnezd_format, Format};
use crate::text::{
    chars_of, find_space, first_where, first_word, is_space, is_white, lemma_past_last, lower_text,
    lowered, past_last, past_last_where, same, space, string_of, trim, trim_end, trim_start,
    trimmed, trimmed_end, trimmed_start, upper_text, uppered,
};

verus! {

/// The commands.
#[derive(Debug, Clone, Copy, PartialEq, Eq, Structural)]
pub enum Verb {
    Hello,
    Pnezd,
    AutoLabel,
    ImportPlan,
    Inverse,
    Volume,
    Surface,
    LandXml,
    Datum,
    Rts,
    Helmert,
    Resect,
    List,
}

/// The command that a verb in capitals names.
pub open spec fn verb_of(verb: Seq<char>) -> Option<Verb> {
    if verb == "LS_HELLO"@ {
        Some(Verb::Hello)
    } else if verb == "LS_PNEZD"@ {
        Some(Verb::Pnezd)
    } else if verb == "LS_AUTOLABEL"@ {
        Some(Verb::AutoLabel)
    } else if verb == "LS_IMPORTPLAN"@ {
        Some(Verb::ImportPlan)
    } else if verb == "LS_INVERSE"@ {
        Some(Verb::Inverse)
    } else if verb == "LS_VOLUME"@ {
        Some(Verb::Volume)
    } else if verb == "LS_SURFACE"@ {
        Some(Verb::Surface)
    } else if verb == "LS_LANDXML"@ || verb == "LANDXMLIMPORT"@ {
        Some(Verb::LandXml)
    } else if verb == "LS_DATUM"@ {
        Some(Verb::Datum)
    } else if verb == "LS_RTS"@ {
        Some(Verb::Rts)
    } else if verb == "LS_HELMERT"@ {
        Some(Verb::Helmert)
    } else if verb == "LS_RESECT"@ {
        Some(Verb::Resect)
    } else if verb == "LS_LIST"@ {
        Some(Verb::List)
    } else {
        None
    }
}

/// Finds the command that a verb in capitals names.
pub fn dispatch_verb(verb: &str) -> (r: Option<Verb>)
    ensures
        r == verb_of(verb@),
{
    if same(verb, "LS_HELLO") {
        Some(Verb::Hello)
    } else if same(verb, "LS_PNEZD") {
        Some(Verb::Pnezd)
    } else if same(verb, "LS_AUTOLABEL") {
        Some(Verb::AutoLabel)
    } else if same(verb, "LS_IMPORTPLAN") {
        Some(Verb::ImportPlan)
    } else if same(verb, "LS_INVERSE") {
        Some(Verb::Inverse)
    } else if same(verb, "LS_VOLUME") {
        Some(Verb::Volume)
    } else if same(verb, "LS_SURFACE") {
        Some(Verb::Surface)
    } else if same(verb, "LS_LANDXML") || same(verb, "LANDXMLIMPORT") {
        // The second verb is that of the host's own import button.
        Some(Verb::LandXml)
    } else if same(verb, "LS_DATUM") {
        Some(Verb::Datum)
    } else if same(verb, "LS_RTS") {
        Some(Verb::Rts)
    } else if same(verb, "LS_HELMERT") {
        Some(Verb::Helmert)
    } else if same(verb, "LS_RESECT") {
        Some(Verb::Resect)
    } else if same(verb, "LS_LIST") {
        Some(Verb::List)
    } else {
        None
    }
}

/// Finds the command that a line calls: the one that its first word names, in
/// capitals or not. None of them means that the line is not for this add-on.
pub fn handle(cmd: &str) -> (r: Option<Verb>)
    ensures
        r == verb_of(unicode_capitals(first_word(cmd@))),
        crate::layers::is_ascii_text(first_word(cmd@)) ==> r == verb_of(
            upper_text(first_word(cmd@)),
        ),
{
    let v = chars_of(cmd);
    let t = trimmed_start(v.as_slice());
    let k = find_space(t);
    let word = string_of(slice_subrange(t, 0, k));
    assert(word@ =~= first_word(cmd@));
    let verb = capitals(word.as_str());
    dispatch_verb(verb.as_str())
}

/// What the add-on says of itself.
pub fn hello() -> (r: Reply)
    ensures
        r@ == Said::Info(HELLO@),
{
    info(HELLO)
}

/// The commands by topic.
pub const HELLO: &'static str = "Land Survey plugin ready. Points: LS_PNEZD, LS_LIST, LS_AUTOLABEL. Import: LS_IMPORTPLAN, LS_LANDXML. Surfaces: LS_SURFACE, LS_VOLUME, LS_DATUM. COGO / transforms: LS_INVERSE, LS_RTS, LS_HELMERT, LS_RESECT. See PLUGIN.md for usage.";

/// The text behind the verb of a command, trimmed.
pub open spec fn argument(cmd: Seq<char>) -> Seq<char> {
    let t = trim_start(cmd);
    trim(t.skip(first_where(t, space())))
}

/// Takes the text behind the verb of a command, trimmed. A path in it may contain
/// spaces.
pub fn first_arg(cmd: &str) -> (r: String)
    ensures
        r@ == argument(cmd@),
{
    let v = chars_of(cmd);
    string_of(argument_in(v.as_slice()))
}

/// The text behind the verb, as a part of the line.
pub(crate) fn argument_in(v: &[char]) -> (r: &[char])
    ensures
        r@ == argument(v@),
{
    let t = trimmed_start(v);
    let k = find_space(t);
    trimmed(slice_subrange(t, k, t.len()))
}

/// What an import of a point file is asked to do.
#[derive(Debug, Clone, PartialEq)]
pub struct PnezdImport {
    pub path: String,
    pub format: Format,
    /// Report what would be imported, and draw nothing.
    pub preview: bool,
    /// Add a line with elevation and description to the labels.
    pub detail: bool,
}

/// An import as texts.
pub struct ImportView {
    pub path: Seq<char>,
    pub format: Format,
    pub preview: bool,
    pub detail: bool,
}

impl View for PnezdImport {
    type V = ImportView;

    open spec fn view(&self) -> ImportView {
        ImportView {
            path: self.path@,
            format: self.format,
            preview: self.preview,
            detail: self.detail,
        }
    }
}

/// The effect of a keyword on an import, if the word is one.
pub open spec fn with_keyword(word: Seq<char>, format: Format, preview: bool, detail: bool) -> Option<
    (Format, bool, bool),
> {
    let w = lower_text(word);
    if w == "penzd"@ {
        Some((penzd_format(), preview, detail))
    } else if w == "pnezd"@ {
        Some((pnezd_format(), preview, detail))
    } else if w == "preview"@ {
        Some((format, true, detail))
    } else if w == "detail"@ {
        Some((format, preview, true))
    } else {
        None
    }
}

/// Takes the keywords off the end of an argument, in any order; what is left is
/// the path, which may contain white space.
pub open spec fn peeled(s: Seq<char>, format: Format, preview: bool, detail: bool) -> ImportView
    decreases s.len(),
{
    let t = trim_end(s);
    let k = past_last(t, space());
    let done = ImportView { path: trim(s), format, preview, detail };
    if k <= 0 || k > t.len() || t.len() > s.len() {
        done
    } else {
        match with_keyword(t.skip(k), format, preview, detail) {
            Some((f, p, d)) => peeled(t.take(k - 1), f, p, d),
            None => done,
        }
    }
}

/// The import that an argument asks for.
pub open spec fn import_of(s: Seq<char>) -> ImportView {
    peeled(s, pnezd_format(), false, false)
}

/// Takes the keywords off the end of an argument.
fn peel(s: &[char]) -> (r: PnezdImport)
    ensures
        r@ == import_of(s@),
{
    let mut path = s;
    let mut format = Format::pnezd();
    let mut preview = false;
    let mut detail = false;
    loop
        invariant
            peeled(path@, format, preview, detail) == import_of(s@),
        decreases path@.len(),
    {
        let t = trimmed_end(path);
        let k = past_last_where(
            t,
            |c: char| -> (b: bool) ensures b == is_space(c) { is_white(c) },
            Ghost(space()),
        );
        proof {
            lemma_past_last(path@, crate::text::ink());
            lemma_past_last(t@, space());
        }
        if k > 0 {
            let word = slice_subrange(t, k, t.len());
            assert(word@ =~= t@.skip(k as int));
            let w = string_of(lowered(word).as_slice());
            let mut known = true;
            if same(w.as_str(), "penzd") {
                format = Format::penzd();
            } else if same(w.as_str(), "pnezd") {
                format = Format::pnezd();
            } else if same(w.as_str(), "preview") {
                preview = true;
            } else if same(w.as_str(), "detail") {
                detail = true;
            } else {
                known = false;
            }
            if known {
                path = slice_subrange(t, 0, k - 1);
                continue ;
            }
        }
        let rest = string_of(trimmed(path));
        return PnezdImport { path: rest, format, preview, detail };
    }
}

/// An import has the columns of one of the two known orders.
proof fn lemma_known_columns(s: Seq<char>, format: Format, preview: bool, detail: bool)
    requires
        format == pnezd_format() || format == penzd_format(),
    ensures
        peeled(s, format, preview, detail).format == pnezd_format() || peeled(
            s,
            format,
            preview,
            detail,
        ).format == penzd_format(),
    decreases s.len(),
{
    let t = trim_end(s);
    let k = past_last(t, space());
    if !(k <= 0 || k > t.len() || t.len() > s.len()) {
        if let Some((f, p, d)) = with_keyword(t.skip(k), format, preview, detail) {
            lemma_known_columns(t.take(k - 1), f, p, d);
        }
    }
}

/// How a point file is imported.
pub const PNEZD_USAGE: &'static str = "Usage: LS_PNEZD <path-to-points> [pnezd|penzd] [detail] [preview]  (labels show the point number; add 'detail' for elevation + description; delimiter auto-detected)";

/// `LS_PNEZD <path> [pnezd|penzd] [detail] [preview]`: finds out what to import,
/// or says how the command is used.
pub fn import_request(cmd: &str) -> (r: Result<PnezdImport, Reply>)
    ensures
        match r {
            Ok(i) => argument(cmd@).len() > 0 && i@ == import_of(argument(cmd@)) && i.format.wf(),
            Err(reply) => argument(cmd@).len() == 0 && reply@ == Said::Info(PNEZD_USAGE@),
        },
{
    let v = chars_of(cmd);
    let rest = argument_in(v.as_slice());
    if rest.len() == 0 {
        return Err(info(PNEZD_USAGE));
    }
    proof {
        lemma_known_columns(rest@, pnezd_format(), false, false);
    }
    Ok(peel(rest))
}

/// What a switch of the labels asks for: on, off or neither.
pub open spec fn switch_of(arg: Seq<char>) -> Option<Option<bool>> {
    let w = upper_text(arg);
    if w == ""@ {
        Some(None)
    } else if w == "ON"@ {
        Some(Some(true))
    } else if w == "OFF"@ {
        Some(Some(false))
    } else {
        None
    }
}

/// Whether labels are suppressed after a switch.
pub open spec fn suppressed_after(arg: Seq<char>, suppressed: bool) -> bool {
    match switch_of(arg) {
        Some(Some(on)) => !on,
        _ => suppressed,
    }
}

/// What a switch of the labels is answered.
pub open spec fn switch_reply(arg: Seq<char>, suppressed: bool) -> Said {
    if switch_of(arg) is None {
        Said::Info("Usage: LS_AUTOLABEL [ON|OFF]"@)
    } else if suppressed_after(arg, suppressed) {
        Said::Output("LS_AUTOLABEL: point labels OFF on import."@)
    } else {
        Said::Output("LS_AUTOLABEL: point labels ON on import."@)
    }
}

/// `LS_AUTOLABEL [ON|OFF]`: switches the labels of imported points and answers
/// with the state that they are in then.
pub fn auto_label_toggle(cmd: &str, suppressed: &mut bool) -> (reply: Reply)
    ensures
        *final(suppressed) == suppressed_after(argument(cmd@), *old(suppressed)),
        reply@ == switch_reply(argument(cmd@), *old(suppressed)),
{
    let v = chars_of(cmd);
    let arg = string_of(uppered(argument_in(v.as_slice())).as_slice());
    if same(arg.as_str(), "OFF") {
        *suppressed = true;
    } else if same(arg.as_str(), "ON") {
        *suppressed = false;
    } else if !same(arg.as_str(), "") {
        return info("Usage: LS_AUTOLABEL [ON|OFF]");
    }
    proof {
        reveal_strlit("");
        reveal_strlit("ON");
        reveal_strlit("OFF");
        assert("ON"@.len() == 2 && "OFF"@.len() == 3 && ""@.len() == 0);
    }
    if *suppressed {
        Reply::Output("LS_AUTOLABEL: point labels OFF on import.".to_string())
    } else {
        Reply::Output("LS_AUTOLABEL: point labels ON on import.".to_string())
    }
}

} // verus!
