use vstd::prelude::*;
use vstd::string::{StrSliceExecFns, StringExecFns};
use vstd::utf8::{decode_utf8, encode_utf8, valid_utf8};
use crate::context::{str_equals, HttpResponseType, Response};
use crate::response::{internal_error_page, not_found_page};
use crate::text::{chars_of, find_within, index_of};
use crate::writer::wire_bytes;

verus! {

/// The MIME type guessed from a path's extension, as an essence string.
pub uninterp spec fn guessed_mime(path: Seq<char>) -> Seq<char>;

/// The text that lossy UTF-8 decoding gives for some bytes.
pub uninterp spec fn utf8_lossy(bytes: Seq<u8>) -> Seq<char>;

/// Relies on `mime_guess::from_path` and `MimeGuess::first_or_octet_stream`:
/// the essence string of the first type guessed from the path's extension,
/// `application/octet-stream` where there is none.
#[verifier::external_body]
fn guess_mime(path: &str) -> (r: String)
    ensures
        r@ == guessed_mime(path@),
{
    mime_guess::from_path(path).first_or_octet_stream().essence_str().to_string()
}

/// Relies on `String::from_utf8_lossy`: valid UTF-8 decodes as it is, and
/// each invalid sequence becomes a replacement character.
#[verifier::external_body]
fn lossy_text(bytes: &[u8]) -> (r: String)
    ensures
        r@ == utf8_lossy(bytes@),
        valid_utf8(bytes@) ==> r@ == decode_utf8(bytes@),
{
    String::from_utf8_lossy(bytes).into_owned()
}

/// Relies on `String::push`: appends one character.
#[verifier::external_body]
fn push_char(s: &mut String, c: char)
    ensures
        final(s)@ == old(s)@.push(c),
{
    s.push(c)
}

/// Whether `s` ends with `../`.
pub open spec fn ends_with_parent(s: Seq<char>) -> bool {
    s.len() >= 3 && s[s.len() - 3] == '.' && s[s.len() - 2] == '.' && s[s.len() - 1] == '/'
}

/// Whether `s` holds `../` anywhere.
pub open spec fn holds_parent(s: Seq<char>) -> bool {
    exists|i: int| 0 <= i && i + 3 <= s.len() && ends_with_parent(#[trigger] s.take(i + 3))
}

/// One character more of a sanitized path: a `../` that it completes is dropped.
pub open spec fn sanitize_step(acc: Seq<char>, c: char) -> Seq<char> {
    let a = acc.push(c);
    if ends_with_parent(a) {
        a.take(a.len() - 3)
    } else {
        a
    }
}

/// A request path with every `../` taken out, also those that taking out
/// another one brings together.
pub open spec fn sanitized(s: Seq<char>) -> Seq<char>
    decreases s.len(),
{
    if s.len() == 0 {
        Seq::empty()
    } else {
        sanitize_step(sanitized(s.drop_last()), s.last())
    }
}

proof fn lemma_step_keeps_clean(acc: Seq<char>, c: char)
    requires
        !holds_parent(acc),
    ensures
        !holds_parent(sanitize_step(acc, c)),
{
    let a = acc.push(c);
    let r = sanitize_step(acc, c);
    if holds_parent(r) {
        let i = choose|i: int| 0 <= i && i + 3 <= r.len() && ends_with_parent(#[trigger] r.take(i + 3));
        if ends_with_parent(a) {
            assert(r.take(i + 3) =~= acc.take(i + 3));
        } else if i + 3 <= acc.len() {
            assert(r.take(i + 3) =~= acc.take(i + 3));
        } else {
            assert(r.take(i + 3) =~= a);
        }
    }
}

/// The path with every `../` taken out; the result holds none.
pub fn sanitize_path(path: &str) -> (r: String)
    ensures
        r@ == sanitized(path@),
        !holds_parent(r@),
{
    let cs = chars_of(path);
    let mut out: Vec<char> = Vec::new();
    let mut i: usize = 0;
    assert(cs@.take(0) =~= Seq::<char>::empty());
    while i < cs.len()
        invariant
            i <= cs.len(),
            cs@ == path@,
            out@ == sanitized(cs@.take(i as int)),
            !holds_parent(out@),
        decreases cs.len() - i,
    {
        proof {
            lemma_step_keeps_clean(out@, cs@[i as int]);
            assert(cs@.take(i + 1).drop_last() =~= cs@.take(i as int));
        }
        let ghost before = out@;
        out.push(cs[i]);
        let n = out.len();
        if n >= 3 && out[n - 3] == '.' && out[n - 2] == '.' && out[n - 1] == '/' {
            out.truncate(n - 3);
            assert(out@ =~= before.push(cs@[i as int]).take(n - 3));
        }
        i = i + 1;
    }
    assert(cs@.take(i as int) =~= cs@);
    let mut r = String::new();
    let mut k: usize = 0;
    while k < out.len()
        invariant
            k <= out.len(),
            r@ == out@.take(k as int),
        decreases out.len() - k,
    {
        push_char(&mut r, out[k]);
        assert(out@.take(k + 1) =~= out@.take(k as int).push(out@[k as int]));
        k = k + 1;
    }
    assert(out@.take(k as int) =~= out@);
    r
}

/// The file that a request path stands for under the webroot.
pub fn static_file_path(webroot: &str, path: &str) -> (r: String)
    ensures
        r@ == webroot@ + "/"@ + sanitized(path@),
{
    proof {
        reveal_strlit("/");
    }
    let clean = sanitize_path(path);
    let mut r = webroot.to_owned();
    r.append("/");
    r.append(clean.as_str());
    r
}

/// The top-level type of a MIME essence string (what precedes the `/`).
pub open spec fn top_level_type(mime: Seq<char>) -> Seq<char> {
    if index_of(mime, '/') >= 0 {
        mime.take(index_of(mime, '/'))
    } else {
        mime
    }
}

/// Whether a MIME type is served as opaque bytes: image, application,
/// audio and video.
pub open spec fn is_binary_class(mime: Seq<char>) -> bool {
    let t = top_level_type(mime);
    t == "image"@ || t == "application"@ || t == "audio"@ || t == "video"@
}

/// Whether a MIME type is served as opaque bytes.
pub fn binary_class(mime: &str) -> (r: bool)
    ensures
        r == is_binary_class(mime@),
{
    let cs = chars_of(mime);
    let end = match find_within(&cs, '/', 0, cs.len()) {
        Some(i) => i,
        None => cs.len(),
    };
    assert(cs@.subrange(0, cs.len() as int) =~= mime@);
    let top = mime.substring_char(0, end);
    assert(top@ == top_level_type(mime@));
    proof {
        reveal_strlit("image");
        reveal_strlit("application");
        reveal_strlit("audio");
        reveal_strlit("video");
    }
    str_equals(top, "image") || str_equals(top, "application") || str_equals(top, "audio")
        || str_equals(top, "video")
}

/// What came of reading the file that a request path stands for.
pub enum FileRead {
    /// The file could not be opened.
    Missing,
    /// It was opened, but reading it failed.
    Failed,
    /// Its whole contents.
    Read(Vec<u8>),
}

/// The response that the static-file resolver owes for a request path and
/// what reading the file gave: `NotFound` where it is missing,
/// `InternalError` where reading failed, else `OK` with the contents.
/// Contents of a binary class are sent as they are, as
/// `application/octet-stream`; others as text, decoded lossily, with the
/// guessed type.
pub open spec fn static_answer(path: Seq<char>, outcome: FileRead, r: Response) -> bool {
    &&& outcome is Missing ==> {
        &&& r.http_type == HttpResponseType::NotFound
        &&& r.text@ == "File not found"@
        &&& r.data@ == encode_utf8(not_found_page())
        &&& r.mime@ == "text/html"@
    }
    &&& outcome is Failed ==> {
        &&& r.http_type == HttpResponseType::InternalError
        &&& r.text@ == "Internal server error"@
        &&& r.data@ == encode_utf8(internal_error_page())
        &&& r.mime@ == "text/html"@
    }
    &&& outcome matches FileRead::Read(bytes) ==> {
        let mime = guessed_mime(sanitized(path));
        &&& r.http_type == HttpResponseType::Success
        &&& r.text@ == "OK"@
        &&& is_binary_class(mime) ==> r.data@ == bytes@ && r.mime@ == "application/octet-stream"@
        &&& !is_binary_class(mime) ==> r.data@ == encode_utf8(utf8_lossy(bytes@)) && r.mime@
            == mime
    }
}

/// Two answers for the same path and the same file contents are sent as the
/// same bytes: repeating a static request, with the file unchanged, repeats
/// the response byte for byte.
pub proof fn lemma_static_idempotent(path: Seq<char>, outcome: FileRead, r1: Response, r2: Response)
    requires
        static_answer(path, outcome, r1),
        static_answer(path, outcome, r2),
    ensures
        wire_bytes(r1) == wire_bytes(r2),
{
    assert(r1.text@ == r2.text@);
    assert(r1.mime@ == r2.mime@);
    assert(r1.data@ == r2.data@);
}

/// The response that the static-file resolver gives for a request path,
/// given what reading the file gave.
pub fn static_response(path: &str, outcome: FileRead) -> (r: Response)
    ensures
        static_answer(path@, outcome, r),
{
    match outcome {
        FileRead::Missing => Response::notfound(),
        FileRead::Failed => Response::internal_error(),
        FileRead::Read(bytes) => {
            let clean = sanitize_path(path);
            let mime = guess_mime(clean.as_str());
            if binary_class(mime.as_str()) {
                Response::ok_bytes(bytes, "application/octet-stream")
            } else {
                let text = lossy_text(bytes.as_slice());
                Response::new(
                    HttpResponseType::Success,
                    "OK",
                    text.as_str().as_bytes_vec(),
                    mime.as_str(),
                )
            }
        },
    }
}

/// What to do with a handler's response: write it, or look up the cached
/// payload that it names.
pub enum Dispatch {
    Standard(Response),
    CacheLookup(String),
}

/// Sends a response with no standard status to the cache under the key that
/// its data spells; any other is written as it is.
pub fn dispatch(response: Response) -> (r: Dispatch)
    ensures
        response.http_type == HttpResponseType::NoStatus ==> (r matches Dispatch::CacheLookup(k)
            && k@ == utf8_lossy(response.data@)),
        response.http_type != HttpResponseType::NoStatus ==> r == Dispatch::Standard(response),
{
    if response.http_type == HttpResponseType::NoStatus {
        Dispatch::CacheLookup(lossy_text(response.data.as_slice()))
    } else {
        Dispatch::Standard(response)
    }
}

} // verus!
