//! The responder for one file request: entity tag, cache validation,
//! content disposition, and the response for each state of the resolved path.

use crate::staticfile::{resolved, StaticFile};
use crate::text::{
    append_str, chars_of, decimal_text, digit_chars, hex_text, hex_text_is_digits, is_whitespace,
    push_hex, same_chars, split, split_on, split_on_without_separator, string_of, trim, trim_end,
    trim_start, trimmed, views,
};
use vstd::prelude::*;
use vstd::utf8::encode_utf8;

verus! {

/// Names of the headers that the responder sets.
pub const LOCATION: &'static str = "location";

pub const CONTENT_DISPOSITION: &'static str = "content-disposition";

pub const CONTENT_LENGTH: &'static str = "content-length";

pub const CONTENT_TYPE: &'static str = "content-type";

pub const LAST_MODIFIED: &'static str = "last-modified";

pub const ETAG: &'static str = "etag";

/// The content type of the configured error bodies.
pub const HTML: &'static str = "text/html;charset=utf-8";

/// The two disposition types.
pub const INLINE: &'static str = "inline";

pub const ATTACHMENT: &'static str = "attachment";

/// The file that is served for a directory.
pub const INDEX: &'static str = "index.html";

/// The first second that an HTTP date cannot express: the start of the year
/// 10000.
pub const HTTP_DATE_END: u64 = 253402300800;

/// What is known of the resolved path once it has been looked up.
#[derive(Clone, Copy, Debug, PartialEq, Eq, Structural)]
pub struct FileMeta {
    /// Whether the path is a regular file.
    pub is_file: bool,
    /// The time of the last modification, in whole seconds since the epoch.
    pub modified: u64,
    /// The size in bytes.
    pub size: u64,
}

/// The text of an HTTP date (IMF-fixdate) for a number of seconds since the
/// epoch.
pub uninterp spec fn http_date_text(secs: u64) -> Seq<char>;

/// The number of seconds since the epoch that a header value denotes as an
/// HTTP date, in any of the three accepted formats; `None` where it is no
/// valid date.
pub uninterp spec fn http_date_parsed(s: Seq<char>) -> Option<u64>;

/// The media type guessed for a file extension; for an empty extension it is
/// `application/octet-stream`.
pub uninterp spec fn guessed_mime(extension: Seq<char>) -> Seq<char>;

/// `httpdate::fmt_http_date` on the instant `secs` seconds after the epoch.
/// The crate panics from the year 10000 on, which `requires` leaves out. The
/// result depends on `secs` alone and is what `http_date_text` names.
#[verifier::external_body]
fn fmt_http_date(secs: u64) -> (r: String)
    requires
        secs < HTTP_DATE_END,
    ensures
        r@ == http_date_text(secs),
{
    httpdate::fmt_http_date(std::time::UNIX_EPOCH + std::time::Duration::from_secs(secs))
}

/// `str::parse::<httpdate::HttpDate>`, with the date handed back as seconds
/// since the epoch. A date that parses is valid, so the conversion to a system
/// time and back is exact; two parsed dates are equal exactly when their
/// seconds are. The result depends on `s` alone and is what `http_date_parsed`
/// names.
#[verifier::external_body]
fn parse_http_date(s: &str) -> (r: Option<u64>)
    ensures
        r == http_date_parsed(s@),
{
    match s.parse::<httpdate::HttpDate>() {
        Ok(date) => match std::time::SystemTime::from(date).duration_since(std::time::UNIX_EPOCH) {
            Ok(since) => Some(since.as_secs()),
            Err(_) => None,
        },
        Err(_) => None,
    }
}

/// `mime_guess::from_ext` followed by `MimeGuess::first_or_octet_stream`, as
/// text. The table is looked up by the extension alone; an empty extension has
/// no entry and gives the fallback.
#[verifier::external_body]
fn guess_mime(extension: &str) -> (r: String)
    ensures
        r@ == guessed_mime(extension@),
        extension@.len() == 0 ==> r@ == "application/octet-stream"@,
{
    mime_guess::from_ext(extension).first_or_octet_stream().as_ref().to_string()
}

/// Whether a byte is an ASCII letter or digit.
pub open spec fn is_alphanumeric_byte(b: u8) -> bool {
    ||| 0x30 <= b <= 0x39
    ||| 0x41 <= b <= 0x5a
    ||| 0x61 <= b <= 0x7a
}

/// The upper-case hexadecimal digits in the order of their values.
pub open spec fn upper_digit_chars() -> Seq<char> {
    seq!['0', '1', '2', '3', '4', '5', '6', '7', '8', '9', 'A', 'B', 'C', 'D', 'E', 'F']
}

/// One byte, percent-encoded unless it is an ASCII letter or digit.
pub open spec fn encoded_byte(b: u8) -> Seq<char> {
    if is_alphanumeric_byte(b) {
        seq![b as char]
    } else {
        seq!['%', upper_digit_chars()[b as int / 16], upper_digit_chars()[b as int % 16]]
    }
}

/// The bytes of `bytes`, each percent-encoded unless it is an ASCII letter or
/// digit.
pub open spec fn encoded_bytes(bytes: Seq<u8>) -> Seq<char>
    decreases bytes.len(),
{
    if bytes.len() == 0 {
        Seq::empty()
    } else {
        encoded_bytes(bytes.drop_last()) + encoded_byte(bytes.last())
    }
}

/// The UTF-8 bytes of `s`, each percent-encoded unless it is an ASCII letter
/// or digit.
pub open spec fn percent_encoded(s: Seq<char>) -> Seq<char> {
    encoded_bytes(encode_utf8(s))
}

/// `percent_encoding::utf8_percent_encode` with the set `NON_ALPHANUMERIC`,
/// as text: every byte of the UTF-8 form of `s` that is not an ASCII letter
/// or digit becomes `%` and two upper-case hexadecimal digits.
#[verifier::external_body]
fn percent_encode(s: &str) -> (r: String)
    ensures
        r@ == percent_encoded(s@),
{
    percent_encoding::utf8_percent_encode(s, percent_encoding::NON_ALPHANUMERIC).to_string()
}

/// The entity tag of a file: the hexadecimal seconds of its last modification,
/// a hyphen, and its hexadecimal size.
pub open spec fn etag_text(modified: u64, size: u64) -> Seq<char> {
    hex_text(modified as nat).push('-') + hex_text(size as nat)
}

/// The entity tag of a file.
pub fn etag(modified: u64, size: u64) -> (r: String)
    ensures
        r@ == etag_text(modified, size),
{
    let mut out: Vec<char> = Vec::new();
    push_hex(&mut out, modified);
    out.push('-');
    push_hex(&mut out, size);
    string_of(&out)
}

/// The last of `pieces` that is not empty, if there is one.
pub open spec fn last_filled(pieces: Seq<Seq<char>>) -> Option<Seq<char>>
    decreases pieces.len(),
{
    if pieces.len() == 0 {
        None
    } else if pieces.last().len() > 0 {
        Some(pieces.last())
    } else {
        last_filled(pieces.drop_last())
    }
}

/// The name of the file that a path leads to: its last segment that is not
/// empty.
pub open spec fn file_name_of(path: Seq<char>) -> Option<Seq<char>> {
    last_filled(split_on(path, '/'))
}

/// The name of the file that a path leads to.
pub fn file_name(path: &str) -> (r: Option<String>)
    ensures
        r is Some <==> file_name_of(path@) is Some,
        r matches Some(name) ==> file_name_of(path@) == Some(name@),
{
    let chars = chars_of(path);
    let pieces = split(&chars, '/');
    let ghost all = views(pieces@);
    let mut i: usize = pieces.len();
    assert(all.take(i as int) == all);
    while i > 0
        invariant
            i <= pieces.len(),
            all == views(pieces@),
            all == split_on(path@, '/'),
            last_filled(all) == last_filled(all.take(i as int)),
        decreases i,
    {
        proof {
            assert(all.take(i as int).drop_last() == all.take(i - 1));
            assert(all.take(i as int).last() == pieces@[i - 1]@);
        }
        if pieces[i - 1].len() > 0 {
            let name = string_of(&pieces[i - 1]);
            assert(all.take(i as int).len() > 0);
            assert(all.take(i as int).last().len() > 0);
            assert(last_filled(all.take(i as int)) == Some(name@));
            return Some(name);
        }
        assert(all.take(i as int).last().len() == 0);
        i -= 1;
    }
    None
}

/// The position of the last `.` in `name`, or -1 if it has none.
pub open spec fn last_dot(name: Seq<char>) -> int
    decreases name.len(),
{
    if name.len() == 0 {
        -1
    } else if name.last() == '.' {
        name.len() - 1
    } else {
        last_dot(name.drop_last())
    }
}

/// The extension of a file name: what follows its last `.`, unless that `.`
/// opens the name. A name without extension has the empty one.
pub open spec fn extension_of(name: Seq<char>) -> Seq<char> {
    if last_dot(name) > 0 {
        name.skip(last_dot(name) + 1)
    } else {
        Seq::empty()
    }
}

/// The extension of a file name.
pub fn extension(name: &str) -> (r: String)
    ensures
        r@ == extension_of(name@),
{
    let chars = chars_of(name);
    let mut i: usize = chars.len();
    assert(chars@.take(i as int) == chars@);
    while i > 0 && chars[i - 1] != '.'
        invariant
            i <= chars.len(),
            last_dot(chars@) == last_dot(chars@.take(i as int)),
        decreases i,
    {
        assert(chars@.take(i as int).drop_last() == chars@.take(i - 1));
        i -= 1;
    }
    let mut out: Vec<char> = Vec::new();
    if i > 1 {
        assert(chars@.take(i as int).last() == '.');
        assert(last_dot(chars@) == i - 1);
        let mut k: usize = i;
        while k < chars.len()
            invariant
                i <= k <= chars.len(),
                out@ == chars@.subrange(i as int, k as int),
            decreases chars.len() - k,
        {
            out.push(chars[k]);
            k += 1;
        }
        assert(out@ == chars@.skip(i as int));
    } else {
        assert(last_dot(chars@) <= 0) by {
            if i == 1 {
                assert(chars@.take(1).last() == '.');
            } else {
                assert(chars@.take(0).len() == 0);
            }
        }
    }
    string_of(&out)
}

/// The media type of the file that a path leads to, guessed from the
/// extension of its name.
pub open spec fn mime_of(path: Seq<char>) -> Seq<char> {
    match file_name_of(path) {
        Some(name) => guessed_mime(extension_of(name)),
        None => guessed_mime(Seq::empty()),
    }
}

/// The top-level type of a media type: what stands before its first `/`.
pub open spec fn top_level_type(mime: Seq<char>) -> Seq<char> {
    split_on(mime, '/')[0]
}

/// Whether a media type is shown in place rather than saved: images, text
/// and video are.
pub open spec fn shown_inline(mime: Seq<char>) -> bool {
    let top = top_level_type(mime);
    top == "image"@ || top == "text"@ || top == "video"@
}

/// The disposition type for a media type.
pub open spec fn disposition_type(mime: Seq<char>) -> Seq<char> {
    if shown_inline(mime) {
        INLINE@
    } else {
        ATTACHMENT@
    }
}

/// The value of `Content-Disposition`: the disposition type and, where the
/// file has a name, that name percent-encoded.
pub open spec fn disposition_value(mime: Seq<char>, encoded_name: Option<Seq<char>>) -> Seq<
    char,
> {
    match encoded_name {
        Some(name) => disposition_type(mime) + "; filename*=\""@ + name + "\""@,
        None => disposition_type(mime),
    }
}

/// The value of `Content-Disposition` for a media type and an encoded file
/// name.
pub fn disposition(mime: &str, encoded_name: Option<&str>) -> (r: String)
    ensures
        r@ == disposition_value(
            mime@,
            match encoded_name {
                Some(name) => Some(name@),
                None => None,
            },
        ),
{
    let chars = chars_of(mime);
    let pieces = split(&chars, '/');
    proof {
        crate::text::split_on_pieces(mime@, '/');
        assert(views(pieces@)[0] == pieces@[0]@);
    }
    let top = &pieces[0];
    let image = chars_of("image");
    let text = chars_of("text");
    let video = chars_of("video");
    let inline = same_chars(top, &image) || same_chars(top, &text) || same_chars(top, &video);
    let mut out: Vec<char> = Vec::new();
    if inline {
        append_str(&mut out, INLINE);
    } else {
        append_str(&mut out, ATTACHMENT);
    }
    match encoded_name {
        Some(name) => {
            append_str(&mut out, "; filename*=\"");
            append_str(&mut out, name);
            append_str(&mut out, "\"");
        },
        None => {},
    }
    string_of(&out)
}

/// Whether one of the comma-separated entries of `etags`, white space at its
/// ends aside, is `etag`.
pub open spec fn etag_listed(etags: Seq<char>, etag: Seq<char>) -> bool {
    exists|k: int|
        0 <= k < split_on(etags, ',').len() && trimmed(#[trigger] split_on(etags, ',')[k])
            == etag
}

/// Whether one of the comma-separated entries of `etags` is `etag`.
pub fn etag_matches(etags: &str, etag: &str) -> (r: bool)
    ensures
        r == etag_listed(etags@, etag@),
{
    let chars = chars_of(etags);
    let wanted = chars_of(etag);
    let pieces = split(&chars, ',');
    let ghost all = split_on(etags@, ',');
    let mut i: usize = 0;
    while i < pieces.len()
        invariant
            i <= pieces.len(),
            all == views(pieces@),
            all == split_on(etags@, ','),
            wanted@ == etag@,
            forall|k: int| 0 <= k < i ==> trimmed(#[trigger] all[k]) != etag@,
        decreases pieces.len() - i,
    {
        let entry = trim(&pieces[i]);
        assert(all[i as int] == pieces@[i as int]@);
        if same_chars(&entry, &wanted) {
            return true;
        }
        i += 1;
    }
    false
}

/// Whether the client's copy is still good. With `If-None-Match` present only
/// the entity tags count; otherwise the date of `If-Modified-Since`, where it
/// parsed, must be the file's own.
pub open spec fn cache_hit(
    if_none_match: Option<Seq<char>>,
    modified_since: Option<u64>,
    etag: Seq<char>,
    modified: u64,
) -> bool {
    match if_none_match {
        Some(etags) => etag_listed(etags, etag),
        None => modified_since == Some(modified),
    }
}

/// One header of a response.
pub struct Header {
    pub name: String,
    pub value: String,
}

/// The body of a response.
pub enum Body {
    /// No body.
    Empty,
    /// These bytes.
    Bytes(Vec<u8>),
    /// The contents of the file at `path`, `len` bytes.
    File { path: String, len: u64 },
}

/// A response, ready to be handed to the server.
pub struct Response {
    pub status: u16,
    pub headers: Vec<Header>,
    pub body: Body,
}

/// The body of a response, as a value of the model.
pub enum BodyView {
    Empty,
    Bytes(Seq<u8>),
    File { path: Seq<char>, len: u64 },
}

/// A response, as a value of the model: the status, the headers as pairs of
/// name and value in the order they were set, and the body.
pub struct ResponseView {
    pub status: u16,
    pub headers: Seq<(Seq<char>, Seq<char>)>,
    pub body: BodyView,
}

impl View for Body {
    type V = BodyView;

    open spec fn view(&self) -> BodyView {
        match self {
            Body::Empty => BodyView::Empty,
            Body::Bytes(bytes) => BodyView::Bytes(bytes@),
            Body::File { path, len } => BodyView::File { path: path@, len: *len },
        }
    }
}

/// The headers as pairs of name and value.
pub open spec fn header_views(headers: Seq<Header>) -> Seq<(Seq<char>, Seq<char>)> {
    headers.map_values(|h: Header| (h.name@, h.value@))
}

impl View for Response {
    type V = ResponseView;

    open spec fn view(&self) -> ResponseView {
        ResponseView {
            status: self.status,
            headers: header_views(self.headers@),
            body: self.body@,
        }
    }
}

/// The text of an optional string.
pub open spec fn text_of(o: Option<String>) -> Option<Seq<char>> {
    match o {
        Some(s) => Some(s@),
        None => None,
    }
}

/// The response that carries one of the configured error bodies: shown
/// inline, with its length, as HTML.
pub open spec fn error_page(status: u16, body: Seq<u8>) -> ResponseView {
    ResponseView {
        status,
        headers: seq![
            (CONTENT_DISPOSITION@, INLINE@),
            (CONTENT_LENGTH@, decimal_text(body.len())),
            (CONTENT_TYPE@, HTML@),
        ],
        body: BodyView::Bytes(body),
    }
}

/// The redirect from a directory that was asked for without the closing
/// slash to the same path with it.
pub open spec fn directory_redirect(actual_path: Seq<char>) -> ResponseView {
    ResponseView {
        status: 301,
        headers: seq![(LOCATION@, actual_path.push('/'))],
        body: BodyView::Empty,
    }
}

/// The headers that every response for a regular file carries.
pub open spec fn validators(date: Seq<char>, etag: Seq<char>, disposition: Seq<char>) -> Seq<
    (Seq<char>, Seq<char>),
> {
    seq![(LAST_MODIFIED@, date), (ETAG@, etag), (CONTENT_DISPOSITION@, disposition)]
}

/// The response for a regular file, given what the outside crates made of
/// its path and of the request: its media type, the text of its date, its
/// encoded name, and the date of `If-Modified-Since` where it parsed.
/// A cache hit is a 304 without body. Otherwise the file goes out with a 200,
/// its length and its media type; an empty file has no body.
pub open spec fn file_response_with(
    path: Seq<char>,
    meta: FileMeta,
    mime: Seq<char>,
    date: Seq<char>,
    encoded_name: Option<Seq<char>>,
    modified_since: Option<u64>,
    if_none_match: Option<Seq<char>>,
) -> ResponseView {
    let etag = etag_text(meta.modified, meta.size);
    let common = validators(date, etag, disposition_value(mime, encoded_name));
    if cache_hit(if_none_match, modified_since, etag, meta.modified) {
        ResponseView { status: 304, headers: common, body: BodyView::Empty }
    } else {
        ResponseView {
            status: 200,
            headers: common.push((CONTENT_LENGTH@, decimal_text(meta.size as nat))).push(
                (CONTENT_TYPE@, mime),
            ),
            body: if meta.size == 0 {
                BodyView::Empty
            } else {
                BodyView::File { path, len: meta.size }
            },
        }
    }
}

/// The percent-encoded name of the file that a path leads to.
pub open spec fn encoded_name_of(path: Seq<char>) -> Option<Seq<char>> {
    match file_name_of(path) {
        Some(name) => Some(percent_encoded(name)),
        None => None,
    }
}

/// The date that `If-Modified-Since` holds, where it is there and parses.
pub open spec fn modified_since_of(if_modified_since: Option<Seq<char>>) -> Option<u64> {
    match if_modified_since {
        Some(text) => http_date_parsed(text),
        None => None,
    }
}

/// The response for a regular file at `path` with the given metadata, for a
/// request with the given conditional headers.
pub open spec fn file_response(
    path: Seq<char>,
    meta: FileMeta,
    if_none_match: Option<Seq<char>>,
    if_modified_since: Option<Seq<char>>,
) -> ResponseView {
    file_response_with(
        path,
        meta,
        mime_of(path),
        http_date_text(meta.modified),
        encoded_name_of(path),
        modified_since_of(if_modified_since),
        if_none_match,
    )
}

/// A header with the given name and value.
fn header(name: &str, value: String) -> (h: Header)
    ensures
        h.name@ == name@,
        h.value == value,
{
    Header { name: String::from_str(name), value }
}

/// The response that carries one of the configured error bodies.
pub fn error_response(status: u16, body: &Vec<u8>) -> (r: Response)
    ensures
        r@ == error_page(status, body@),
{
    let mut headers: Vec<Header> = Vec::new();
    headers.push(header(CONTENT_DISPOSITION, String::from_str(INLINE)));
    headers.push(header(CONTENT_LENGTH, crate::text::to_decimal(body.len() as u64)));
    headers.push(header(CONTENT_TYPE, String::from_str(HTML)));
    let r = Response { status, headers, body: Body::Bytes(body.clone()) };
    assert(r@.headers =~= error_page(status, body@).headers);
    r
}

/// The response for a regular file, from what the outside crates made of its
/// path and of the request.
pub fn respond_with(
    path: &str,
    meta: FileMeta,
    mime: &str,
    date: &str,
    encoded_name: Option<&str>,
    modified_since: Option<u64>,
    if_none_match: Option<&str>,
) -> (r: Response)
    ensures
        r@ == file_response_with(
            path@,
            meta,
            mime@,
            date@,
            match encoded_name {
                Some(name) => Some(name@),
                None => None,
            },
            modified_since,
            match if_none_match {
                Some(etags) => Some(etags@),
                None => None,
            },
        ),
{
    let tag = etag(meta.modified, meta.size);
    let hit = match if_none_match {
        Some(etags) => etag_matches(etags, tag.as_str()),
        None => match modified_since {
            Some(t) => t == meta.modified,
            None => false,
        },
    };
    let mut headers: Vec<Header> = Vec::new();
    headers.push(header(LAST_MODIFIED, String::from_str(date)));
    headers.push(header(ETAG, tag));
    headers.push(header(CONTENT_DISPOSITION, disposition(mime, encoded_name)));
    let ghost common = validators(
        date@,
        etag_text(meta.modified, meta.size),
        disposition_value(
            mime@,
            match encoded_name {
                Some(name) => Some(name@),
                None => None,
            },
        ),
    );
    assert(header_views(headers@) =~= common);
    if hit {
        return Response { status: 304, headers, body: Body::Empty };
    }
    headers.push(header(CONTENT_LENGTH, crate::text::to_decimal(meta.size)));
    headers.push(header(CONTENT_TYPE, String::from_str(mime)));
    assert(header_views(headers@) =~= common.push(
        (CONTENT_LENGTH@, decimal_text(meta.size as nat)),
    ).push((CONTENT_TYPE@, mime@)));
    let body = if meta.size == 0 {
        Body::Empty
    } else {
        Body::File { path: String::from_str(path), len: meta.size }
    };
    Response { status: 200, headers, body }
}

/// Responder to serve a file request: the path as it was asked for, the
/// handler's state, the path it resolves to, and the conditional headers.
pub struct Responder<'a> {
    pub actual_path: String,
    pub state: &'a StaticFile,
    pub path: String,
    pub if_modified_since: Option<String>,
    pub if_none_match: Option<String>,
}

/// What the responder decides once the resolved path has been looked up.
pub enum Outcome<'a> {
    /// This response goes out.
    Respond(Response),
    /// The path is a directory asked for with its closing slash: its index
    /// file is to be looked up and streamed in its place.
    Lookup(Responder<'a>),
}

/// What `stream` decides, in the model, for a responder with the given
/// fields and what the lookup of its path gave. Nothing at the path is a 404.
/// A directory without the closing slash is redirected to the path with it,
/// one with it hands over to its index file. A regular file is answered by
/// `file_response`.
pub open spec fn decided(r: Responder, meta: Option<FileMeta>, o: Outcome) -> bool {
    match meta {
        None => o matches Outcome::Respond(resp) && resp@ == error_page(404, r.state.body_4xx@),
        Some(m) => if !m.is_file {
            if r.actual_path@.len() > 0 && r.actual_path@.last() == '/' {
                &&& o matches Outcome::Lookup(next)
                &&& next.actual_path@ == r.actual_path@ + INDEX@
                &&& next.path@ == resolved(next.actual_path@, r.state.root@)
                &&& next.state == r.state
                &&& next.if_modified_since == r.if_modified_since
                &&& next.if_none_match == r.if_none_match
            } else {
                o matches Outcome::Respond(resp) && resp@ == directory_redirect(r.actual_path@)
            }
        } else {
            o matches Outcome::Respond(resp) && resp@ == file_response(
                r.path@,
                m,
                text_of(r.if_none_match),
                text_of(r.if_modified_since),
            )
        },
    }
}

impl<'a> Responder<'a> {
    /// Creates an instance from the path of an incoming request and its
    /// conditional headers.
    pub fn from(
        state: &'a StaticFile,
        actual_path: &str,
        if_none_match: Option<&str>,
        if_modified_since: Option<&str>,
    ) -> (r: Self)
        ensures
            r.actual_path@ == actual_path@,
            r.state == state,
            r.path@ == resolved(actual_path@, state.root@),
            text_of(r.if_none_match) == match if_none_match {
                Some(t) => Some(t@),
                None => None,
            },
            text_of(r.if_modified_since) == match if_modified_since {
                Some(t) => Some(t@),
                None => None,
            },
    {
        Responder {
            actual_path: String::from_str(actual_path),
            state,
            path: state.get_path(actual_path),
            if_none_match: match if_none_match {
                Some(t) => Some(String::from_str(t)),
                None => None,
            },
            if_modified_since: match if_modified_since {
                Some(t) => Some(String::from_str(t)),
                None => None,
            },
        }
    }

    /// Decides what to do once the resolved path has been looked up: `meta`
    /// is `None` where nothing is there.
    pub fn stream(self, meta: Option<FileMeta>) -> (o: Outcome<'a>)
        requires
            meta matches Some(m) ==> (m.is_file ==> m.modified < HTTP_DATE_END),
        ensures
            decided(self, meta, o),
    {
        match meta {
            None => Outcome::Respond(error_response(404, &self.state.body_4xx)),
            Some(m) => {
                if !m.is_file {
                    let chars = chars_of(self.actual_path.as_str());
                    if chars.len() > 0 && chars[chars.len() - 1] == '/' {
                        let mut index = chars;
                        append_str(&mut index, INDEX);
                        let actual_path = string_of(&index);
                        let path = self.state.get_path(actual_path.as_str());
                        Outcome::Lookup(
                            Responder {
                                actual_path,
                                state: self.state,
                                path,
                                if_modified_since: self.if_modified_since,
                                if_none_match: self.if_none_match,
                            },
                        )
                    } else {
                        let mut target = chars;
                        target.push('/');
                        let mut headers: Vec<Header> = Vec::new();
                        headers.push(header(LOCATION, string_of(&target)));
                        let resp = Response { status: 301, headers, body: Body::Empty };
                        assert(resp@.headers =~= directory_redirect(self.actual_path@).headers);
                        Outcome::Respond(resp)
                    }
                } else {
                    Outcome::Respond(self.stream_using_meta(m))
                }
            },
        }
    }

    /// The response for the regular file that the path resolved to.
    pub fn stream_using_meta(self, meta: FileMeta) -> (r: Response)
        requires
            meta.modified < HTTP_DATE_END,
        ensures
            r@ == file_response(
                self.path@,
                meta,
                text_of(self.if_none_match),
                text_of(self.if_modified_since),
            ),
    {
        let name = file_name(self.path.as_str());
        let mime = match &name {
            Some(n) => {
                let ext = extension(n.as_str());
                guess_mime(ext.as_str())
            },
            None => guess_mime(""),
        };
        let date = fmt_http_date(meta.modified);
        let encoded = match &name {
            Some(n) => Some(percent_encode(n.as_str())),
            None => None,
        };
        let since = match &self.if_modified_since {
            Some(text) => parse_http_date(text.as_str()),
            None => None,
        };
        proof {
            reveal_strlit("");
            assert(""@ == Seq::<char>::empty());
        }
        respond_with(
            self.path.as_str(),
            meta,
            mime.as_str(),
            date.as_str(),
            match &encoded {
                Some(e) => Some(e.as_str()),
                None => None,
            },
            since,
            match &self.if_none_match {
                Some(e) => Some(e.as_str()),
                None => None,
            },
        )
    }
}

impl StaticFile {
    /// The response for a request that failed on the way: a 500 with the
    /// configured body.
    pub fn server_error(&self) -> (r: Response)
        ensures
            r@ == error_page(500, self.body_5xx@),
    {
        error_response(500, &self.body_5xx)
    }

    /// The response for a path that leads to nothing: a 404 with the
    /// configured body.
    pub fn not_found(&self) -> (r: Response)
        ensures
            r@ == error_page(404, self.body_4xx@),
    {
        error_response(404, &self.body_4xx)
    }
}

/// A digit character is neither a hyphen nor a comma nor white space.
proof fn digit_is_no_mark(c: char)
    requires
        digit_chars().contains(c),
    ensures
        c != '-',
        c != ',',
        !is_whitespace(c),
{
    let i = choose|i: int| 0 <= i < digit_chars().len() && digit_chars()[i] == c;
    assert(0 <= i < 16);
}

/// Two numbers with the same hexadecimal text are the same number.
pub proof fn hex_text_injective(a: nat, b: nat)
    requires
        hex_text(a) == hex_text(b),
    ensures
        a == b,
    decreases a,
{
    hex_text_is_digits(a / 16);
    hex_text_is_digits(b / 16);
    if a < 16 && b < 16 {
        assert(hex_text(a)[0] == digit_chars()[a as int]);
        assert(hex_text(b)[0] == digit_chars()[b as int]);
    } else if a >= 16 && b >= 16 {
        let x = hex_text(a / 16);
        let y = hex_text(b / 16);
        assert(hex_text(a).drop_last() == x);
        assert(hex_text(b).drop_last() == y);
        assert(hex_text(a).last() == digit_chars()[(a % 16) as int]);
        assert(hex_text(b).last() == digit_chars()[(b % 16) as int]);
        hex_text_injective(a / 16, b / 16);
        assert(a % 16 == b % 16);
    } else if a < 16 {
        assert(hex_text(a).len() == 1);
        assert(hex_text(b).len() == hex_text(b / 16).len() + 1);
    } else {
        assert(hex_text(b).len() == 1);
        assert(hex_text(a).len() == hex_text(a / 16).len() + 1);
    }
}

/// Two files with the same entity tag have the same modification time and the
/// same size.
pub proof fn etag_text_injective(m1: u64, s1: u64, m2: u64, s2: u64)
    requires
        etag_text(m1, s1) == etag_text(m2, s2),
    ensures
        m1 == m2,
        s1 == s2,
{
    let a = hex_text(m1 as nat);
    let b = hex_text(m2 as nat);
    let e1 = etag_text(m1, s1);
    let e2 = etag_text(m2, s2);
    hex_text_is_digits(m1 as nat);
    hex_text_is_digits(m2 as nat);
    if a.len() < b.len() {
        assert(e1[a.len() as int] == '-');
        assert(e2[a.len() as int] == b[a.len() as int]);
        digit_is_no_mark(b[a.len() as int]);
    } else if b.len() < a.len() {
        assert(e2[b.len() as int] == '-');
        assert(e1[b.len() as int] == a[b.len() as int]);
        digit_is_no_mark(a[b.len() as int]);
    } else {
        assert(e1.take(a.len() as int) == a);
        assert(e2.take(a.len() as int) == b);
        assert(e1.skip(a.len() as int + 1) == hex_text(s1 as nat));
        assert(e2.skip(a.len() as int + 1) == hex_text(s2 as nat));
        hex_text_injective(m1 as nat, m2 as nat);
        hex_text_injective(s1 as nat, s2 as nat);
    }
}

/// An entity tag holds no comma and no white space: as a list of entity tags
/// it has one entry, itself.
pub proof fn etag_text_is_one_entry(modified: u64, size: u64)
    ensures
        split_on(etag_text(modified, size), ',') == seq![etag_text(modified, size)],
        trimmed(etag_text(modified, size)) == etag_text(modified, size),
{
    let a = hex_text(modified as nat);
    let b = hex_text(size as nat);
    let e = etag_text(modified, size);
    hex_text_is_digits(modified as nat);
    hex_text_is_digits(size as nat);
    assert forall|i: int| 0 <= i < e.len() implies e[i] != ',' && !is_whitespace(e[i]) by {
        if i < a.len() {
            assert(e[i] == a[i]);
            digit_is_no_mark(a[i]);
        } else if i > a.len() {
            assert(e[i] == b[i - a.len() - 1]);
            digit_is_no_mark(b[i - a.len() - 1]);
        } else {
            assert(e[i] == '-');
        }
    }
    assert(!e.contains(','));
    split_on_without_separator(e, ',');
    assert(!is_whitespace(e[0]));
    assert(!is_whitespace(e.last()));
    assert(trim_start(e) == e);
    assert(trim_end(e) == e);
}

/// Conditional GET. A request whose `If-None-Match` is the entity tag of the
/// file as it was served is answered with a 304 without body as long as the
/// file has the same modification time and size, and with a 200 as soon as
/// either has changed.
pub proof fn conditional_get(
    path: Seq<char>,
    served: FileMeta,
    current: FileMeta,
    if_modified_since: Option<Seq<char>>,
)
    ensures
        ({
            let r = file_response(
                path,
                current,
                Some(etag_text(served.modified, served.size)),
                if_modified_since,
            );
            if current.modified == served.modified && current.size == served.size {
                r.status == 304 && r.body == BodyView::Empty
            } else {
                r.status == 200
            }
        }),
{
    let asked = etag_text(served.modified, served.size);
    let now = etag_text(current.modified, current.size);
    etag_text_is_one_entry(served.modified, served.size);
    let entries = split_on(asked, ',');
    assert(entries.len() == 1 && trimmed(entries[0]) == asked);
    if asked == now {
        etag_text_injective(served.modified, served.size, current.modified, current.size);
        assert(etag_listed(asked, now));
    } else {
        assert(!etag_listed(asked, now));
    }
}

} // verus!
