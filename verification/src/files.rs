//! File attachments: the rules for ids, names, types and places of uploaded
//! files. Moving the bytes to and from disk is the server's part.

use vstd::prelude::*;

use std::path::Path;

use crate::protocol::MAX_FILE_NAME_LEN;
use crate::text::{
    all_chars, char_is_control, chars_of, is_control, last_segment, last_segment_chars,
    lemma_last_segment_plain, lemma_trim_keeps, push_char, trim_chars, trim_class, TrimClass,
};

verus! {

/// The path `Path::new(dir).join(name)` names, as text.
pub uninterp spec fn spec_path_join(dir: Seq<char>, name: Seq<char>) -> Seq<char>;

/// A name `Path::join` adds as one component: with no separator of either
/// platform and no `:`, so neither absolute nor a drive prefix, and with a
/// character other than `.`, so neither `.` nor `..` (which a verbatim
/// Windows path drops on joining).
pub open spec fn plain_component(name: Seq<char>) -> bool {
    &&& exists|i: int| 0 <= i < name.len() && #[trigger] name[i] != '.'
    &&& forall|i: int| 0 <= i < name.len() ==> #[trigger] name[i] != '/' && name[i] != '\\' && name[i] != ':'
}

/// Whether `dir` starts with the Windows verbatim prefix `\\?\`, under
/// which joining normalizes the whole path.
pub open spec fn verbatim_path(dir: Seq<char>) -> bool {
    dir.len() >= 4 && dir.take(4) == seq!['\\', '\\', '?', '\\']
}

/// `p` is `dir` with `name` added as its last component: after a separator
/// (`/`, or `\` on Windows), or directly where `dir` is empty, already ends
/// with a separator, or is a bare drive such as `C:`.
pub open spec fn joined_in(dir: Seq<char>, name: Seq<char>, p: Seq<char>) -> bool {
    ||| p == dir + seq!['/'] + name
    ||| p == dir + seq!['\\'] + name
    ||| (p == dir + name && (dir.len() == 0 || dir.last() == '/' || dir.last() == '\\' || dir.last() == ':'))
}

/// `Path::new(dir).join(name)`, as text. The path is named by `spec_path_join`;
/// for a plain component and a directory that is not verbatim it is `dir`
/// with `name` added as one component, as `PathBuf::push` documents (a
/// relative name is appended after a separator unless one is not needed);
/// built from text it converts back to the same text. Nothing is stated of a
/// verbatim directory, which `push` normalizes as a whole.
#[verifier::external_body]
fn path_join(dir: &str, name: &str) -> (p: String)
    ensures
        p@ == spec_path_join(dir@, name@),
        plain_component(name@) && !verbatim_path(dir@) ==> joined_in(dir@, name@, p@),
{
    Path::new(dir).join(name).to_string_lossy().into_owned()
}

/// Directory holding uploaded files, one file per attachment id.
#[derive(Clone)]
pub struct Uploads {
    dir: String,
}

impl Uploads {
    /// Uploads kept in `dir`, which the server creates before it serves.
    pub fn new(dir: String) -> (u: Self)
        ensures
            u.dir() == dir@,
    {
        Uploads { dir }
    }

    /// The directory, as text.
    pub closed spec fn dir(&self) -> Seq<char> {
        self.dir@
    }

    /// Where the file of attachment `id` is kept: for a valid id (and a
    /// directory without the Windows verbatim prefix), a file directly inside
    /// the directory, named by the id.
    pub fn path(&self, id: &str) -> (p: String)
        ensures
            p@ == spec_path_join(self.dir(), id@),
            spec_valid_id(id@) && !verbatim_path(self.dir()) ==> joined_in(self.dir(), id@, p@),
    {
        proof {
            if spec_valid_id(id@) {
                law_valid_id_names_one_file(id@);
            }
        }
        path_join(self.dir.as_str(), id)
    }
}

/// The name and token a file request signs in with.
pub struct Auth {
    pub name: String,
    pub token: String,
}

/// The name and token a download signs in with; `download` set forces a save
/// prompt instead of inline display.
pub struct FileQuery {
    pub name: String,
    pub token: String,
    pub download: Option<String>,
}

/// `char::is_ascii_alphanumeric`.
pub open spec fn is_ascii_alnum(c: char) -> bool {
    ('0' <= c && c <= '9') || ('a' <= c && c <= 'z') || ('A' <= c && c <= 'Z')
}

/// Attachment ids are generated by the server: one to 64 ASCII letters,
/// digits and dashes. Anything else is a probe.
pub open spec fn spec_valid_id(id: Seq<char>) -> bool {
    &&& 0 < id.len() <= 64
    &&& forall|i: int| 0 <= i < id.len() ==> is_ascii_alnum(#[trigger] id[i]) || id[i] == '-'
}

/// Whether `id` could be an attachment id (see `spec_valid_id`). The length
/// bound is on bytes; the ids it admits are ASCII, one byte a character.
pub fn valid_id(id: &str) -> (r: bool)
    ensures
        r == spec_valid_id(id@),
{
    let v = chars_of(id);
    if v.len() == 0 || v.len() > 64 {
        return false;
    }
    let mut i: usize = 0;
    while i < v.len()
        invariant
            i <= v.len(),
            v@ == id@,
            forall|j: int| 0 <= j < i ==> is_ascii_alnum(#[trigger] v@[j]) || v@[j] == '-',
        decreases v.len() - i,
    {
        let c = v[i];
        let ok = ('0' <= c && c <= '9') || ('a' <= c && c <= 'z') || ('A' <= c && c <= 'Z') || c == '-';
        if !ok {
            return false;
        }
        i = i + 1;
    }
    true
}

/// A valid id names one file inside the uploads directory: it holds no
/// separator, no dot and no `:`, so it can be neither a path, nor `.` or
/// `..`, nor a drive; joined to the directory it is one component.
pub proof fn law_valid_id_names_one_file(id: Seq<char>)
    requires
        spec_valid_id(id),
    ensures
        all_chars(id, |c: char| c != '/' && c != '\\' && c != '.'),
        plain_component(id),
{
    assert forall|i: int| 0 <= i < id.len() implies (#[trigger] id[i] != '/' && id[i] != '\\' && id[i] != '.'
        && id[i] != ':') by {
        assert(is_ascii_alnum(id[i]) || id[i] == '-');
    }
    assert(id[0] != '.');
}

/// The characters of `s` a file name keeps: no control characters, no `"`.
pub open spec fn kept_chars(s: Seq<char>) -> Seq<char> {
    s.filter(|c: char| !is_control(c) && c != '"')
}

/// The visible file name of an upload: the part after the last `/` or `\`,
/// trimmed of white space and then of dots, without control characters and
/// `"`, cut to `MAX_FILE_NAME_LEN` characters; `file` where nothing is left.
pub open spec fn spec_clean_name(raw: Seq<char>) -> Seq<char> {
    let base = trim_class(trim_class(last_segment(raw), TrimClass::WhiteSpace), TrimClass::Dot);
    let kept = kept_chars(base);
    let cut = if kept.len() > MAX_FILE_NAME_LEN { kept.take(MAX_FILE_NAME_LEN as int) } else { kept };
    if cut.len() == 0 {
        "file"@
    } else {
        cut
    }
}

/// Keeps the visible file name only: no directories, no control characters.
pub fn clean_name(raw: &str) -> (r: String)
    ensures
        r@ == spec_clean_name(raw@),
{
    let v = chars_of(raw);
    let seg = last_segment_chars(&v);
    let t = trim_chars(&seg, TrimClass::WhiteSpace);
    let base = trim_chars(&t, TrimClass::Dot);
    let mut out = String::new();
    let mut count: usize = 0;
    let mut i: usize = 0;
    let ghost kept = kept_chars(base@);
    while i < base.len() && count < MAX_FILE_NAME_LEN
        invariant
            i <= base.len(),
            kept == kept_chars(base@),
            count == out@.len(),
            count <= MAX_FILE_NAME_LEN,
            out@ == kept_chars(base@.take(i as int)),
        decreases base.len() - i,
    {
        let c = base[i];
        proof {
            reveal_with_fuel(Seq::filter, 1);
            assert(base@.take(i + 1).drop_last() =~= base@.take(i as int));
        }
        if !char_is_control(c) && c != '"' {
            push_char(&mut out, c);
            count = count + 1;
        }
        i = i + 1;
    }
    proof {
        lemma_kept_prefix(base@, i as int);
        if i == base.len() {
            assert(base@.take(i as int) =~= base@);
        }
    }
    if count == 0 {
        return String::from_str("file");
    }
    out
}

/// What a prefix of `s` keeps is a prefix of what `s` keeps, and it is all
/// of it once the prefix holds everything.
proof fn lemma_kept_prefix(s: Seq<char>, i: int)
    requires
        0 <= i <= s.len(),
    ensures
        kept_chars(s.take(i)).len() <= kept_chars(s).len(),
        kept_chars(s.take(i)) == kept_chars(s).take(kept_chars(s.take(i)).len() as int),
    decreases s.len() - i,
{
    if i == s.len() {
        assert(s.take(i) =~= s);
    } else {
        lemma_kept_prefix(s, i + 1);
        reveal_with_fuel(Seq::filter, 1);
        assert(s.take(i + 1).drop_last() =~= s.take(i));
        let a = kept_chars(s.take(i));
        let b = kept_chars(s.take(i + 1));
        assert(b == a || b == a.push(s[i]));
        assert(a =~= kept_chars(s).take(a.len() as int));
    }
}

/// A character a stored file name may hold: no separator, no control
/// character, no `"`.
pub open spec fn plain_name_char(c: char) -> bool {
    c != '/' && c != '\\' && !is_control(c) && c != '"'
}

/// A cleaned file name is never empty, holds at most `MAX_FILE_NAME_LEN`
/// characters, and names no directory: it holds no separator, no control
/// character and no `"`.
pub proof fn law_clean_name_is_plain(raw: Seq<char>)
    ensures
        0 < spec_clean_name(raw).len() <= MAX_FILE_NAME_LEN,
        all_chars(spec_clean_name(raw), |c: char| plain_name_char(c)),
{
    let sep_free = |c: char| c != '/' && c != '\\';
    lemma_last_segment_plain(raw);
    let seg = last_segment(raw);
    lemma_trim_keeps(seg, TrimClass::WhiteSpace, sep_free);
    let t = trim_class(seg, TrimClass::WhiteSpace);
    lemma_trim_keeps(t, TrimClass::Dot, sep_free);
    let base = trim_class(t, TrimClass::Dot);
    let kept = kept_chars(base);
    let pred = |c: char| !is_control(c) && c != '"';
    assert(all_chars(kept, |c: char| plain_name_char(c))) by {
        assert forall|i: int| 0 <= i < kept.len() implies plain_name_char(#[trigger] kept[i]) by {
            base.lemma_filter_pred(pred, i);
            base.lemma_filter_contains_rev(pred, kept[i]);
            let j = choose|j: int| 0 <= j < base.len() && base[j] == kept[i];
            assert(sep_free(base[j]));
        }
    }
    let r = spec_clean_name(raw);
    if kept.len() > MAX_FILE_NAME_LEN {
        assert forall|i: int| 0 <= i < r.len() implies plain_name_char(#[trigger] r[i]) by {
            assert(r[i] == kept[i]);
        }
    } else if kept.len() == 0 {
        reveal_strlit("file");
        assert forall|i: int| 0 <= i < r.len() implies plain_name_char(#[trigger] r[i]) by {
            assert(r[i] == "file"@[i]);
        }
    }
}

/// The MIME type `mime_guess` gives a file name by its extension, or
/// `application/octet-stream` where it knows none.
pub uninterp spec fn spec_guess_mime(name: Seq<char>) -> Seq<char>;

/// `mime_guess::from_path(name).first_or_octet_stream().essence_str()`; the
/// guess is named by `spec_guess_mime` (a lookup of the extension in the
/// crate's fixed table).
#[verifier::external_body]
fn guess_mime(name: &str) -> (m: String)
    ensures
        m@ == spec_guess_mime(name@),
{
    mime_guess::from_path(name).first_or_octet_stream().essence_str().to_owned()
}

/// The type an upload is recorded with: the type the upload declared, unless
/// it declared none or only `application/octet-stream`; then the type its
/// name suggests.
pub open spec fn spec_upload_mime(declared: Option<Seq<char>>, name: Seq<char>) -> Seq<char> {
    match declared {
        Some(m) => if m != "application/octet-stream"@ { m } else { spec_guess_mime(name) },
        None => spec_guess_mime(name),
    }
}

/// Chooses the MIME type an upload is recorded with (see `spec_upload_mime`).
pub fn upload_mime(declared: Option<String>, name: &str) -> (m: String)
    ensures
        m@ == spec_upload_mime(
            match declared {
                Some(d) => Some(d@),
                None => None,
            },
            name@,
        ),
{
    match declared {
        Some(d) => {
            if d.eq(&String::from_str("application/octet-stream")) {
                guess_mime(name)
            } else {
                d
            }
        },
        None => guess_mime(name),
    }
}

} // verus!
