//! File names for attachments the desktop shell saves or opens: names every
//! file system takes, and the filter the save dialog offers.

use vstd::prelude::*;

use std::path::Path;

use crate::text::{
    all_chars, char_is_control, chars_of, is_control, last_segment, last_segment_chars,
    lemma_last_segment_plain, lemma_trim_keeps, lemma_trim_len, push_str, string_from_chars, trim_chars,
    trim_class, TrimClass,
};

verus! {

/// What a character of a saved file's name becomes: the characters Windows
/// rejects in file names, and control characters, become `_`.
pub open spec fn safe_char(c: char) -> char {
    if c == '<' || c == '>' || c == ':' || c == '"' || c == '|' || c == '?' || c == '*' || is_control(c) {
        '_'
    } else {
        c
    }
}

/// The name a file is saved under: the part of `name` after its last `/` or
/// `\`, each character made safe, cut to 200 characters, trimmed of white
/// space and then of dots; `file` where nothing is left.
pub open spec fn spec_safe_file_name(name: Seq<char>) -> Seq<char> {
    let base = last_segment(name).map_values(|c: char| safe_char(c));
    let cut = if base.len() > 200 { base.take(200) } else { base };
    let t = trim_class(trim_class(cut, TrimClass::WhiteSpace), TrimClass::Dot);
    if t.len() == 0 {
        "file"@
    } else {
        t
    }
}

/// Strips directories and characters Windows rejects in file names.
pub fn safe_file_name(name: &str) -> (r: String)
    ensures
        r@ == spec_safe_file_name(name@),
{
    let v = chars_of(name);
    let seg = last_segment_chars(&v);
    let mut mapped: Vec<char> = Vec::new();
    let mut i: usize = 0;
    while i < seg.len() && i < 200
        invariant
            i <= seg.len(),
            i <= 200,
            mapped@ == seg@.take(i as int).map_values(|c: char| safe_char(c)),
        decreases seg.len() - i,
    {
        let c = seg[i];
        let bad = c == '<' || c == '>' || c == ':' || c == '"' || c == '|' || c == '?' || c == '*'
            || char_is_control(c);
        mapped.push(if bad { '_' } else { c });
        assert(seg@.take(i + 1).map_values(|c: char| safe_char(c)) =~= seg@.take(i as int).map_values(
            |c: char| safe_char(c),
        ).push(safe_char(seg@[i as int])));
        i = i + 1;
    }
    proof {
        let base = seg@.map_values(|c: char| safe_char(c));
        if base.len() > 200 {
            assert(mapped@ =~= base.take(200));
        } else {
            assert(mapped@ =~= base);
        }
    }
    let t = trim_chars(&mapped, TrimClass::WhiteSpace);
    let t2 = trim_chars(&t, TrimClass::Dot);
    if t2.len() == 0 {
        return String::from_str("file");
    }
    string_from_chars(&t2)
}

/// A character every file system takes in a name: none that Windows
/// rejects, no separator, no control character.
pub open spec fn portable_name_char(c: char) -> bool {
    &&& c != '<' && c != '>' && c != ':' && c != '"' && c != '|' && c != '?' && c != '*'
    &&& c != '/' && c != '\\'
    &&& !is_control(c)
}

/// A saved file's name is never empty, holds at most 200 characters, and
/// only characters every file system takes in a name.
pub proof fn law_safe_file_name_is_portable(name: Seq<char>)
    ensures
        0 < spec_safe_file_name(name).len() <= 200,
        all_chars(spec_safe_file_name(name), |c: char| portable_name_char(c)),
{
    let ok = |c: char| portable_name_char(c);
    lemma_last_segment_plain(name);
    let seg = last_segment(name);
    let base = seg.map_values(|c: char| safe_char(c));
    assert(all_chars(base, ok)) by {
        assert forall|i: int| 0 <= i < base.len() implies ok(#[trigger] base[i]) by {
            assert(seg[i] != '/' && seg[i] != '\\');
        }
    }
    let cut = if base.len() > 200 { base.take(200) } else { base };
    assert(all_chars(cut, ok)) by {
        assert forall|i: int| 0 <= i < cut.len() implies ok(#[trigger] cut[i]) by {
            assert(cut[i] == base[i]);
        }
    }
    lemma_trim_keeps(cut, TrimClass::WhiteSpace, ok);
    let t = trim_class(cut, TrimClass::WhiteSpace);
    lemma_trim_keeps(t, TrimClass::Dot, ok);
    lemma_trim_len(cut, TrimClass::WhiteSpace);
    lemma_trim_len(t, TrimClass::Dot);
    let r = spec_safe_file_name(name);
    if trim_class(t, TrimClass::Dot).len() == 0 {
        reveal_strlit("file");
        assert forall|i: int| 0 <= i < r.len() implies ok(#[trigger] r[i]) by {
            assert(r[i] == "file"@[i]);
        }
    }
}

/// The extension `Path::extension` finds in a file name, as text.
pub uninterp spec fn spec_extension(name: Seq<char>) -> Option<Seq<char>>;

/// `Path::new(name).extension()`, as text; the extension is named by
/// `spec_extension`.
#[verifier::external_body]
fn path_extension(name: &str) -> (e: Option<String>)
    ensures
        match e {
            Some(x) => spec_extension(name@) == Some(x@),
            None => spec_extension(name@) is None,
        },
{
    Path::new(name).extension().map(|ext| ext.to_string_lossy().into_owned())
}

/// The extension of a file name, if it has one.
pub fn extension_of(name: &str) -> (e: Option<String>)
    ensures
        match e {
            Some(x) => spec_extension(name@) == Some(x@),
            None => spec_extension(name@) is None,
        },
{
    path_extension(name)
}

/// The upper-case form `str::to_uppercase` gives a text.
pub uninterp spec fn spec_uppercase(s: Seq<char>) -> Seq<char>;

/// `str::to_uppercase`; the result is named by `spec_uppercase` (Unicode's
/// case tables).
#[verifier::external_body]
fn to_uppercase(s: &str) -> (u: String)
    ensures
        u@ == spec_uppercase(s@),
{
    s.to_uppercase()
}

/// The filter the save dialog offers for a file name: labelled `EXT file`,
/// matching its extension; none where the name has no extension.
pub open spec fn spec_save_filter(name: Seq<char>) -> Option<(Seq<char>, Seq<char>)> {
    match spec_extension(name) {
        Some(ext) => Some((spec_uppercase(ext) + " file"@, ext)),
        None => None,
    }
}

/// The save dialog's filter for `name` (see `spec_save_filter`): its label
/// and the extension it matches.
pub fn save_filter(name: &str) -> (f: Option<(String, String)>)
    ensures
        match f {
            Some((label, ext)) => spec_save_filter(name@) == Some((label@, ext@)),
            None => spec_save_filter(name@) is None,
        },
{
    match extension_of(name) {
        Some(ext) => {
            let mut label = to_uppercase(ext.as_str());
            push_str(&mut label, " file");
            Some((label, ext))
        },
        None => None,
    }
}

} // verus!
