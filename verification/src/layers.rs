//! Layer names and the names of surfaces.

use vstd::prelude::*;

use crate::text::{chars_of, exactly, lemma_past_last, lemma_past_last_is, past_last, string_of, to_upper, upper, upper_text};

verus! {

/// A character that a layer name keeps.
pub open spec fn is_layer_char(c: char) -> bool {
    ('a' <= c <= 'z') || ('A' <= c <= 'Z') || ('0' <= c <= '9') || c == '-' || c == '_'
}

/// A character of a feature code as it stands in a layer name.
pub open spec fn layer_char(c: char) -> char {
    if is_layer_char(c) {
        upper(c)
    } else {
        '_'
    }
}

/// A feature code as it stands in a layer name.
pub open spec fn safe_code(code: Seq<char>) -> Seq<char> {
    code.map_values(|c: char| layer_char(c))
}

/// The layer of the points with a feature code.
pub open spec fn code_layer_of(code: Seq<char>) -> Seq<char> {
    if code.len() == 0 {
        "LS-POINTS"@
    } else {
        "LS-PT-"@ + safe_code(code)
    }
}

/// Names the layer of the points with a feature code: `LS-PT-<CODE>`, with the
/// code in capitals and `_` for characters that a layer name may not hold, or
/// `LS-POINTS` where there is no code.
pub fn code_layer(code: &str) -> (r: String)
    ensures
        r@ == code_layer_of(code@),
{
    let v = chars_of(code);
    if v.len() == 0 {
        return "LS-POINTS".to_string();
    }
    let mut safe: Vec<char> = Vec::new();
    let mut i: usize = 0;
    while i < v.len()
        invariant
            i <= v.len(),
            safe@ =~= safe_code(v@.take(i as int)),
        decreases v.len() - i,
    {
        let c = v[i];
        let keep = ('a' <= c && c <= 'z') || ('A' <= c && c <= 'Z') || ('0' <= c && c <= '9') || c
            == '-' || c == '_';
        safe.push(if keep { to_upper(c) } else { '_' });
        i += 1;
    }
    assert(v@.take(i as int) =~= v@);
    "LS-PT-".to_string().concat(string_of(safe.as_slice()).as_str())
}

/// The name of a code's layer does not depend on the case of its ASCII letters.
pub proof fn law_code_layers_ignore_case(code: Seq<char>)
    ensures
        code_layer_of(upper_text(code)) == code_layer_of(code),
{
    assert(safe_code(upper_text(code)) =~= safe_code(code));
}

/// The code in a layer's name is made of capitals, digits, `-` and `_` alone, and
/// naming the layer of that code again gives the same layer.
pub proof fn law_layer_names_are_safe(code: Seq<char>)
    ensures
        forall|i: int|
            0 <= i < safe_code(code).len() ==> is_layer_char(#[trigger] safe_code(code)[i]) && !('a'
                <= safe_code(code)[i] <= 'z'),
        code_layer_of(safe_code(code)) == code_layer_of(code),
{
    assert(safe_code(safe_code(code)) =~= safe_code(code));
}

/// The capitals of a text, by Unicode's rules.
pub uninterp spec fn unicode_capitals(s: Seq<char>) -> Seq<char>;

/// The small letters of a text, by Unicode's rules.
pub uninterp spec fn unicode_smalls(s: Seq<char>) -> Seq<char>;

/// A text of ASCII characters alone.
pub open spec fn is_ascii_text(s: Seq<char>) -> bool {
    forall|i: int| 0 <= i < s.len() ==> #[trigger] s[i] <= '\u{7f}'
}

/// `str::to_uppercase` gives the capitals of a text. On ASCII characters these
/// are the ASCII capitals.
#[verifier::external_body]
pub(crate) fn capitals(s: &str) -> (r: String)
    ensures
        r@ == unicode_capitals(s@),
        is_ascii_text(s@) ==> r@ == upper_text(s@),
{
    s.to_uppercase()
}

/// `str::to_lowercase` gives the small letters of a text. On ASCII characters
/// these are the ASCII small letters.
#[verifier::external_body]
pub(crate) fn smalls(s: &str) -> (r: String)
    ensures
        r@ == unicode_smalls(s@),
        is_ascii_text(s@) ==> r@ == crate::text::lower_text(s@),
{
    s.to_lowercase()
}

/// A path that every platform cuts into its components at `/` alone.
pub open spec fn is_portable(path: Seq<char>) -> bool {
    &&& forall|i: int| 0 <= i < path.len() ==> #[trigger] path[i] != '\\' && path[i] != ':'
    &&& !(path.len() >= 2 && path[0] == '/' && path[1] == '/')
}

/// The part of a path behind its last `/`.
pub open spec fn last_part(path: Seq<char>) -> Seq<char> {
    path.skip(past_last(path, exactly('/')))
}

/// A path without the `/` and the `/.` at its end, which name nothing.
pub open spec fn settled(path: Seq<char>) -> Seq<char>
    decreases path.len(),
{
    if path.len() > 0 && path.last() == '/' {
        settled(path.drop_last())
    } else if path.len() > 1 && path.last() == '.' && path[path.len() - 2] == '/' {
        settled(path.drop_last())
    } else {
        path
    }
}

/// A path that every platform reads alike: one that is cut at `/` alone, and not
/// just the current directory.
pub open spec fn is_plain_path(path: Seq<char>) -> bool {
    is_portable(path) && last_part(settled(path)) != seq!['.']
}

/// The last component of a path that names something; none where there is no
/// component, or the last one is `..`.
pub open spec fn file_name_of(path: Seq<char>) -> Option<Seq<char>> {
    let last = last_part(settled(path));
    if last.len() == 0 || last == seq!['.', '.'] {
        None
    } else {
        Some(last)
    }
}

/// A file name without its extension: what stands before the last dot, or all of
/// it where there is no dot but perhaps the first character.
pub open spec fn stem_of(name: Seq<char>) -> Seq<char> {
    let k = past_last(name, exactly('.'));
    if k <= 1 {
        name
    } else {
        name.take(k - 1)
    }
}

/// The last component of a path that names something, without its extension.
pub open spec fn file_stem_of(path: Seq<char>) -> Option<Seq<char>> {
    match file_name_of(path) {
        Some(name) => Some(stem_of(name)),
        None => None,
    }
}

/// The text of an optional string.
pub open spec fn optional_view(s: Option<String>) -> Option<Seq<char>> {
    match s {
        Some(s) => Some(s@),
        None => None,
    }
}

/// `Path::file_stem` gives the final component of a path without its extension, and
/// nothing where there is none or it is `..`. Which characters separate components
/// depends on the platform, so this is stated of the paths that every platform
/// reads alike; of other paths nothing is said.
#[verifier::external_body]
pub(crate) fn file_stem(path: &str) -> (r: Option<String>)
    ensures
        is_plain_path(path@) ==> optional_view(r) == file_stem_of(path@),
{
    std::path::Path::new(path).file_stem().map(|s| s.to_string_lossy().into_owned())
}

/// `Path::file_name` gives the final component of a path, and nothing where there is
/// none or it is `..`. This is stated of the paths that every platform reads alike;
/// of other paths nothing is said.
#[verifier::external_body]
pub(crate) fn file_name(path: &str) -> (r: Option<String>)
    ensures
        is_plain_path(path@) ==> optional_view(r) == file_name_of(path@),
{
    std::path::Path::new(path).file_name().map(|s| s.to_string_lossy().into_owned())
}

/// The name of the surface in a file with a given stem.
pub open spec fn surface_name_of(stem: Option<Seq<char>>) -> Seq<char> {
    match stem {
        Some(s) if unicode_capitals(s).len() > 0 => unicode_capitals(s),
        _ => "SURFACE"@,
    }
}

/// Names the surface in a file with a given stem: the stem in capitals, or
/// `SURFACE` where there is none.
pub fn surface_name(stem: Option<String>) -> (r: String)
    ensures
        r@ == surface_name_of(optional_view(stem)),
        stem matches Some(s) ==> is_ascii_text(s@) && s@.len() > 0 ==> r@ == upper_text(s@),
{
    if let Some(s) = stem {
        let name = capitals(s.as_str());
        if !name.as_str().is_empty() {
            return name;
        }
    }
    "SURFACE".to_string()
}

/// A surface has the name that its file gives it: the file's stem in capitals, or
/// `SURFACE` where there is none.
pub open spec fn is_named_after(name: Seq<char>, path: Seq<char>) -> bool {
    &&& is_plain_path(path) ==> name == surface_name_of(file_stem_of(path))
    &&& is_plain_path(path) ==> match file_stem_of(path) {
        Some(stem) => is_ascii_text(stem) ==> name == upper_text(stem),
        None => name == "SURFACE"@,
    }
    &&& exists|stem: Option<Seq<char>>| name == #[trigger] surface_name_of(stem)
}

/// Names the surface in a file, which is also the last part of its layer's name.
pub fn layer_stem(path: &str) -> (r: String)
    ensures
        is_named_after(r@, path@),
{
    let stem = file_stem(path);
    let ghost view = optional_view(stem);
    let r = surface_name(stem);
    proof {
        assert(r@ == surface_name_of(view));
        if let Some(name) = file_name_of(path@) {
            lemma_past_last(name, exactly('.'));
            assert(stem_of(name).len() > 0);
        }
    }
    r
}

/// A feature code of letters, digits, `-` and `_` is itself, in capitals, in the name
/// of its layer, any other character is `_` there, and a layer has as many characters
/// for its code as the code has.
pub proof fn law_layers_are_named_after_codes(code: Seq<char>, i: int)
    requires
        0 <= i < code.len(),
    ensures
        code_layer_of(code).len() == "LS-PT-"@.len() + code.len(),
        code_layer_of(code).take("LS-PT-"@.len() as int) == "LS-PT-"@,
        ({
            let c = code_layer_of(code)["LS-PT-"@.len() + i];
            let x = code[i];
            if 'a' <= x <= 'z' {
                'A' <= c <= 'Z' && c as int - 'A' as int == x as int - 'a' as int
            } else if ('A' <= x <= 'Z') || ('0' <= x <= '9') || x == '-' || x == '_' {
                c == x
            } else {
                c == '_'
            }
        }),
{
    assert(code_layer_of(code).take("LS-PT-"@.len() as int) =~= "LS-PT-"@);
    assert(code_layer_of(code)["LS-PT-"@.len() + i] == safe_code(code)[i]);
}

/// The name of a file without its extension: what stands before the last dot. A name
/// without a dot, or with one in front alone, is its own stem, and directories before
/// it do not matter.
pub proof fn law_stems(dir: Seq<char>, name: Seq<char>, ext: Seq<char>)
    requires
        name.len() > 0,
        !name.contains('/'),
        !ext.contains('/'),
        !ext.contains('.'),
    ensures
        ({
            let file = name + seq!['.'] + ext;
            &&& stem_of(file) == name
            &&& last_part(dir + seq!['/'] + file) == file
            &&& !name.contains('.') ==> stem_of(name) == name
            &&& !ext.contains('.') ==> stem_of(seq!['.'] + ext) == seq!['.'] + ext
        }),
        ext.len() > 0 ==> file_stem_of(dir + seq!['/'] + (name + seq!['.'] + ext)) == Some(name),
{
    let file = name + seq!['.'] + ext;
    let path = dir + seq!['/'] + file;
    let n = name.len() as int;
    assert(file[n] == '.');
    assert forall|j: int| n + 1 <= j < file.len() implies !exactly('.')(#[trigger] file[j]) by {
        assert(file[j] == ext[j - n - 1]);
        assert(ext.contains(ext[j - n - 1]));
    }
    lemma_past_last_is(file, exactly('.'), n + 1);
    assert(file.take(n) =~= name);
    assert forall|j: int| 0 <= j < file.len() implies #[trigger] file[j] != '/' by {
        if j < n {
            assert(file[j] == name[j]);
            assert(name.contains(name[j]));
        } else if j > n {
            assert(file[j] == ext[j - n - 1]);
            assert(ext.contains(ext[j - n - 1]));
        }
    }
    let d = dir.len() as int;
    assert(path[d] == '/');
    assert forall|j: int| d + 1 <= j < path.len() implies !exactly('/')(#[trigger] path[j]) by {
        assert(path[j] == file[j - d - 1]);
    }
    lemma_past_last_is(path, exactly('/'), d + 1);
    assert(path.skip(d + 1) =~= file);
    if !name.contains('.') {
        assert forall|j: int| 0 <= j < name.len() implies !exactly('.')(#[trigger] name[j]) by {
            assert(name.contains(name[j]));
        }
        lemma_past_last_is(name, exactly('.'), 0);
    }
    let hidden = seq!['.'] + ext;
    assert forall|j: int| 1 <= j < hidden.len() implies !exactly('.')(#[trigger] hidden[j]) by {
        assert(hidden[j] == ext[j - 1]);
        assert(ext.contains(ext[j - 1]));
    }
    lemma_past_last_is(hidden, exactly('.'), 1);
    if ext.len() > 0 {
        assert(path.last() == ext.last());
        assert(ext.contains(ext.last()));
        assert(settled(path) == path);
        assert(file.len() >= 3);
    }
}

} // verus!
