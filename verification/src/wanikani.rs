use vstd::prelude::*;
use vstd::string::StringExecFns;
use vstd::utf8::encode_utf8;
use sha2::Digest;

use crate::json::{parse_json, parsed_json, Json, JsonView};
use crate::text::{chars_of, concat, has_prefix, prefix_at, string_of_range};

verus! {

// ---------------------------------------------------------------------------
// Errors
// ---------------------------------------------------------------------------

/// What can go wrong in a call to the WaniKani API, apart from the failures
/// of the network, the disk and the JSON reader.
#[derive(Debug)]
pub enum ApiError {
    /// No API key is set.
    MissingApiKey,
    /// A body is no JSON; the message of the JSON reader.
    InvalidJson(String),
    /// Any other failure, with its message.
    Other(String),
}

// ---------------------------------------------------------------------------
// Requests
// ---------------------------------------------------------------------------

/// Where and as whom requests go: the API key and the base URL of the API.
pub struct ApiConfig {
    pub api_key: String,
    pub base_url: String,
}

/// The URL of the WaniKani API, version 2.
pub open spec fn wanikani_base_url() -> Seq<char> {
    "https://api.wanikani.com/v2"@
}

/// The URL that a request for `endpoint` goes to: `endpoint` itself when it
/// starts with `http`, else `endpoint` after the base URL.
pub open spec fn request_url(base: Seq<char>, endpoint: Seq<char>) -> Seq<char> {
    if has_prefix(endpoint, "http"@) {
        endpoint
    } else {
        base + endpoint
    }
}

/// A request always goes to a URL that ends with its endpoint: the endpoint
/// itself when it starts with `http`, else the base URL followed by it.
pub proof fn lemma_request_url(base: Seq<char>, endpoint: Seq<char>)
    ensures
        request_url(base, endpoint).len() >= endpoint.len(),
        request_url(base, endpoint).skip(request_url(base, endpoint).len() - endpoint.len())
            == endpoint,
        endpoint.len() >= 4 && endpoint.take(4) == "http"@ ==> request_url(base, endpoint)
            == endpoint,
        !(endpoint.len() >= 4 && endpoint.take(4) == "http"@) ==> request_url(base, endpoint)
            == base + endpoint,
{
    reveal_strlit("http");
    assert((base + endpoint).skip(base.len() as int) =~= endpoint);
    assert(endpoint.skip(0) =~= endpoint);
}

/// The value of the `Authorization` header for `api_key`.
pub open spec fn bearer(api_key: Seq<char>) -> Seq<char> {
    "Bearer "@ + api_key
}

/// Whether a byte may stand in an HTTP header value: a tab, or any byte from
/// 32 up but 127.
pub open spec fn header_byte_ok(b: u8) -> bool {
    (b >= 32 && b != 127) || b == 9
}

/// Whether text, encoded in UTF-8, is a valid HTTP header value.
pub open spec fn header_value_ok(s: Seq<char>) -> bool {
    forall|i: int| 0 <= i < encode_utf8(s).len() ==> header_byte_ok(#[trigger] encode_utf8(s)[i])
}

/// The message with which an invalid header value is refused.
pub open spec fn invalid_header_message() -> Seq<char> {
    "failed to parse header value"@
}

/// reqwest's (http's) `HeaderValue::from_str`: accepts `s` exactly when each
/// byte of its UTF-8 encoding is a tab or from 32 up but 127; the error's
/// text (`to_string`) is the fixed message of `InvalidHeaderValue`.
#[verifier::external_body]
fn check_header_value(s: &str) -> (r: Result<(), String>)
    ensures
        r is Ok <==> header_value_ok(s@),
        r matches Err(m) ==> m@ == invalid_header_message(),
{
    match reqwest::header::HeaderValue::from_str(s) {
        Ok(_) => Ok(()),
        Err(e) => Err(e.to_string()),
    }
}

/// Whether text is a valid HTTP header value.
pub fn is_header_value(s: &str) -> (r: bool)
    ensures
        r == header_value_ok(s@),
{
    check_header_value(s).is_ok()
}

impl ApiConfig {
    /// The configuration for `api_key` against the WaniKani API.
    pub fn new(api_key: &str) -> (r: Self)
        ensures
            r.api_key@ == api_key@,
            r.base_url@ == wanikani_base_url(),
    {
        ApiConfig { api_key: api_key.to_owned(), base_url: String::from_str("https://api.wanikani.com/v2") }
    }

    /// The URL that a request for `endpoint` goes to.
    pub fn url_for(&self, endpoint: &str) -> (r: String)
        ensures
            r@ == request_url(self.base_url@, endpoint@),
    {
        let e = chars_of(endpoint);
        let http = chars_of("http");
        if prefix_at(&e, 0, &http) {
            assert(e@.skip(0) =~= e@);
            endpoint.to_owned()
        } else {
            assert(e@.skip(0) =~= e@);
            concat(self.base_url.as_str(), endpoint)
        }
    }

    /// The value of the `Authorization` header.
    pub fn bearer(&self) -> (r: String)
        ensures
            r@ == bearer(self.api_key@),
    {
        concat("Bearer ", self.api_key.as_str())
    }

    /// The value of the `Authorization` header, refused with the header
    /// value's error when it is no valid header value.
    pub fn authorization(&self) -> (r: Result<String, ApiError>)
        ensures
            header_value_ok(bearer(self.api_key@)) ==> (r matches Ok(v) && v@ == bearer(
                self.api_key@,
            )),
            !header_value_ok(bearer(self.api_key@)) ==> (r matches Err(ApiError::Other(m)) && m@
                == invalid_header_message()),
    {
        let b = self.bearer();
        match check_header_value(b.as_str()) {
            Ok(()) => Ok(b),
            Err(m) => Err(ApiError::Other(m)),
        }
    }
}

// ---------------------------------------------------------------------------
// Responses
// ---------------------------------------------------------------------------

/// How a status code is handled.
#[derive(Clone, Copy, Debug, PartialEq, Eq, Structural)]
pub enum StatusClass {
    /// 304: the cached body is still current.
    NotModified,
    /// 200 to 299: the body is the answer.
    Success,
    /// Any other status: the request failed.
    Failure,
}

/// Whether a status code means success (200 to 299).
pub open spec fn success_status(status: u16) -> bool {
    200 <= status <= 299
}

/// How a response with `status` is handled.
pub open spec fn status_class(status: u16) -> StatusClass {
    if status == 304 {
        StatusClass::NotModified
    } else if success_status(status) {
        StatusClass::Success
    } else {
        StatusClass::Failure
    }
}

/// Whether a status code means success (200 to 299).
pub fn is_success(status: u16) -> (r: bool)
    ensures
        r == success_status(status),
{
    200 <= status && status <= 299
}

/// How a response with `status` is handled.
pub fn classify_status(status: u16) -> (r: StatusClass)
    ensures
        r == status_class(status),
{
    if status == 304 {
        StatusClass::NotModified
    } else if is_success(status) {
        StatusClass::Success
    } else {
        StatusClass::Failure
    }
}

/// The error for a 304 answer when no body is cached.
pub fn missing_cached_body() -> (r: ApiError)
    ensures
        r matches ApiError::Other(m) && m@ == "Server returned 304 but no cached body present"@,
{
    ApiError::Other(String::from_str("Server returned 304 but no cached body present"))
}

/// The message for a failed request: the status as shown, then the body.
pub open spec fn http_error_message(status: Seq<char>, body: Seq<char>) -> Seq<char> {
    "HTTP "@ + status + ": "@ + body
}

/// The error for a failed request, from the status as shown and the body.
pub fn http_error(status: &str, body: &str) -> (r: ApiError)
    ensures
        r matches ApiError::Other(m) && m@ == http_error_message(status@, body@),
{
    let a = concat("HTTP ", status);
    let b = concat(a.as_str(), ": ");
    ApiError::Other(concat(b.as_str(), body))
}

/// Reads a body as JSON: its value, or `InvalidJson` with the reader's
/// message when it is no JSON.
pub fn read_json_body(text: &str) -> (r: Result<Json, ApiError>)
    ensures
        match (r, parsed_json(text@)) {
            (Ok(j), Ok(v)) => j@ == v,
            (Err(ApiError::InvalidJson(m)), Err(e)) => m@ == e,
            _ => false,
        },
{
    match parse_json(text) {
        Ok(j) => Ok(j),
        Err(m) => Err(ApiError::InvalidJson(m)),
    }
}

/// What a response gives: for a success status (200 to 299) its body read
/// as JSON; for any other status the error naming the status (as shown) and
/// the body.
pub fn read_body(status: u16, status_text: &str, text: &str) -> (r: Result<Json, ApiError>)
    ensures
        success_status(status) ==> match (r, parsed_json(text@)) {
            (Ok(j), Ok(v)) => j@ == v,
            (Err(ApiError::InvalidJson(m)), Err(e)) => m@ == e,
            _ => false,
        },
        !success_status(status) ==> (r matches Err(ApiError::Other(m)) && m@ == http_error_message(
            status_text@,
            text@,
        )),
{
    if is_success(status) {
        read_json_body(text)
    } else {
        Err(http_error(status_text, text))
    }
}

// ---------------------------------------------------------------------------
// Cache file names
// ---------------------------------------------------------------------------

/// The SHA-256 digest of `data`, as the `sha2` crate computes it.
pub uninterp spec fn sha256(data: Seq<u8>) -> Seq<u8>;

/// sha2's `Sha256::digest`. Its result is named `sha256`; it has 32 bytes.
#[verifier::external_body]
fn sha256_digest(data: &[u8]) -> (r: Vec<u8>)
    ensures
        r@ == sha256(data@),
        r@.len() == 32,
{
    sha2::Sha256::digest(data).to_vec()
}

/// The lower-case hexadecimal digit for `n` (below 16).
pub open spec fn hex_digit(n: u8) -> char {
    if n < 10 {
        (48 + n) as char
    } else {
        (87 + n) as char
    }
}

/// `data` in lower-case hexadecimal, two digits per byte, high digit first.
pub open spec fn hex_lower(data: Seq<u8>) -> Seq<char>
    decreases data.len(),
{
    if data.len() == 0 {
        Seq::empty()
    } else {
        seq![hex_digit(data[0] / 16), hex_digit(data[0] % 16)] + hex_lower(data.drop_first())
    }
}

/// The value of a lower-case hexadecimal digit.
pub open spec fn hex_value(c: char) -> int {
    if c as int <= 57 {
        c as int - 48
    } else {
        c as int - 87
    }
}

/// Hexadecimal text reads back as its bytes: the two digits for byte `i`
/// stand at `2i` and `2i + 1`, the high one first.
pub proof fn lemma_hex_lower_reads_back(data: Seq<u8>)
    ensures
        hex_lower(data).len() == 2 * data.len(),
        forall|i: int|
            0 <= i < data.len() ==> hex_value(#[trigger] hex_lower(data)[2 * i]) * 16 + hex_value(
                hex_lower(data)[2 * i + 1],
            ) == data[i] as int,
    decreases data.len(),
{
    if data.len() > 0 {
        lemma_hex_lower_reads_back(data.drop_first());
        let b = data[0];
        let h = seq![hex_digit(b / 16), hex_digit(b % 16)];
        assert(hex_lower(data) == h + hex_lower(data.drop_first()));
        assert(hex_digit(b / 16) as int == if b / 16 < 10 { 48 + b / 16 } else { 87 + b / 16 });
        assert(hex_digit(b % 16) as int == if b % 16 < 10 { 48 + b % 16 } else { 87 + b % 16 });
        assert forall|i: int| 0 <= i < data.len() implies hex_value(
            #[trigger] hex_lower(data)[2 * i],
        ) * 16 + hex_value(hex_lower(data)[2 * i + 1]) == data[i] as int by {
            if i == 0 {
                assert(hex_lower(data)[0] == hex_digit(b / 16));
                assert(hex_lower(data)[1] == hex_digit(b % 16));
                assert((b / 16) * 16 + b % 16 == b);
            } else {
                assert(hex_lower(data)[2 * i] == hex_lower(data.drop_first())[2 * (i - 1)]);
                assert(hex_lower(data)[2 * i + 1] == hex_lower(data.drop_first())[2 * (i - 1) + 1]);
                assert(data[i] == data.drop_first()[i - 1]);
            }
        }
    }
}

/// hex's `encode`: `data` in lower-case hexadecimal.
#[verifier::external_body]
fn hex_encode(data: &[u8]) -> (r: String)
    ensures
        r@ == hex_lower(data@),
{
    hex::encode(data)
}

/// The key under which the answer for `path` is cached: the SHA-256 digest
/// of its UTF-8 bytes, in lower-case hexadecimal.
pub open spec fn cache_key(path: Seq<char>) -> Seq<char> {
    hex_lower(sha256(encode_utf8(path)))
}

/// Whether `c` is a lower-case hexadecimal digit.
pub open spec fn is_hex_lower_digit(c: char) -> bool {
    (48 <= c as int <= 57) || (97 <= c as int <= 102)
}

/// The key under which the answer for `path` is cached; it has 64 lower-case
/// hexadecimal digits.
pub fn cache_key_for_path(path: &str) -> (r: String)
    ensures
        r@ == cache_key(path@),
        r@.len() == 64,
        forall|i: int| 0 <= i < 64 ==> is_hex_lower_digit(#[trigger] r@[i]),
{
    let digest = sha256_digest(path.as_bytes());
    proof {
        lemma_hex_lower_shape(digest@);
    }
    hex_encode(digest.as_slice())
}

/// The names of the two cache files for `path`: the body and its metadata.
pub open spec fn cache_file_names_of(path: Seq<char>) -> (Seq<char>, Seq<char>) {
    (cache_key(path) + ".json"@, cache_key(path) + ".meta"@)
}

/// The names of the two cache files for `path`: the body (`<key>.json`) and
/// its metadata (`<key>.meta`).
pub fn cache_file_names(path: &str) -> (r: (String, String))
    ensures
        (r.0@, r.1@) == cache_file_names_of(path@),
{
    let key = cache_key_for_path(path);
    (concat(key.as_str(), ".json"), concat(key.as_str(), ".meta"))
}

/// Hexadecimal text has two digits per byte, each a digit or `a` to `f`.
pub proof fn lemma_hex_lower_shape(data: Seq<u8>)
    ensures
        hex_lower(data).len() == 2 * data.len(),
        forall|i: int|
            0 <= i < hex_lower(data).len() ==> is_hex_lower_digit(#[trigger] hex_lower(data)[i]),
    decreases data.len(),
{
    if data.len() > 0 {
        lemma_hex_lower_shape(data.drop_first());
        let h = seq![hex_digit(data[0] / 16), hex_digit(data[0] % 16)];
        assert forall|i: int| 0 <= i < hex_lower(data).len() implies is_hex_lower_digit(
            #[trigger] hex_lower(data)[i],
        ) by {
            if i < 2 {
                assert(hex_lower(data)[i] == h[i]);
            } else {
                assert(hex_lower(data)[i] == hex_lower(data.drop_first())[i - 2]);
            }
        }
    }
}

// ---------------------------------------------------------------------------
// Cache metadata
// ---------------------------------------------------------------------------

/// The number of characters before the first line feed of `s` (all of them
/// when it has none).
pub open spec fn line_len(s: Seq<char>) -> nat
    decreases s.len(),
{
    if s.len() == 0 || s[0] == '\n' {
        0
    } else {
        1 + line_len(s.drop_first())
    }
}

/// A line without the carriage return that ended it, if it had one.
pub open spec fn strip_cr(l: Seq<char>) -> Seq<char> {
    if l.len() > 0 && l.last() == '\r' {
        l.drop_last()
    } else {
        l
    }
}

/// The lines of `s`, as std's `str::lines` splits it: at each `\n` or
/// `\r\n`; a last line without line feed keeps what it has, and text that
/// ends with a line feed has no empty last line.
pub open spec fn text_lines(s: Seq<char>) -> Seq<Seq<char>>
    decreases s.len(),
{
    if s.len() == 0 {
        Seq::empty()
    } else {
        let k = line_len(s);
        if k >= s.len() {
            seq![s]
        } else {
            seq![strip_cr(s.take(k as int))] + text_lines(s.skip(k as int + 1))
        }
    }
}

proof fn lemma_line_len(t: Seq<char>, m: int)
    requires
        0 <= m <= t.len(),
        forall|k: int| 0 <= k < m ==> #[trigger] t[k] != '\n',
        m == t.len() || t[m] == '\n',
    ensures
        line_len(t) == m,
    decreases m,
{
    if m > 0 {
        let u = t.drop_first();
        assert forall|k: int| 0 <= k < m - 1 implies #[trigger] u[k] != '\n' by {
            assert(u[k] == t[k + 1]);
        }
        if m < t.len() {
            assert(u[m - 1] == t[m]);
        }
        lemma_line_len(u, m - 1);
    }
}

/// The values sent as `If-None-Match` and `If-Modified-Since`, when there are.
pub struct CacheValidators {
    pub etag: Option<String>,
    pub last_modified: Option<String>,
}

pub open spec fn opt_view(o: Option<String>) -> Option<Seq<char>> {
    match o {
        Some(s) => Some(s@),
        None => None,
    }
}

/// The header value sent for a stored one: itself when it is a valid header
/// value, else empty.
pub open spec fn sent_value(v: Seq<char>) -> Seq<char> {
    if header_value_ok(v) {
        v
    } else {
        Seq::empty()
    }
}

/// The validators after reading one metadata line: an `ETag: ` line sets the
/// entity tag, a `Last-Modified: ` line the date.
pub open spec fn read_meta_line(
    st: (Option<Seq<char>>, Option<Seq<char>>),
    line: Seq<char>,
) -> (Option<Seq<char>>, Option<Seq<char>>) {
    (
        if has_prefix(line, "ETag: "@) {
            Some(sent_value(line.skip("ETag: "@.len() as int)))
        } else {
            st.0
        },
        if has_prefix(line, "Last-Modified: "@) {
            Some(sent_value(line.skip("Last-Modified: "@.len() as int)))
        } else {
            st.1
        },
    )
}

/// The validators after reading `lines` in turn: the last line of each kind
/// counts.
pub open spec fn read_meta_lines(
    st: (Option<Seq<char>>, Option<Seq<char>>),
    lines: Seq<Seq<char>>,
) -> (Option<Seq<char>>, Option<Seq<char>>)
    decreases lines.len(),
{
    if lines.len() == 0 {
        st
    } else {
        read_meta_lines(read_meta_line(st, lines[0]), lines.drop_first())
    }
}

/// The validators that stored metadata gives.
pub open spec fn validators_of(meta: Seq<char>) -> (Option<Seq<char>>, Option<Seq<char>>) {
    read_meta_lines((None, None), text_lines(meta))
}

/// The header value sent for the text of `cs` from `lo` to `hi`.
fn sent_value_of(cs: &Vec<char>, lo: usize, hi: usize) -> (r: String)
    requires
        lo <= hi <= cs@.len(),
    ensures
        r@ == sent_value(cs@.subrange(lo as int, hi as int)),
{
    let v = string_of_range(cs.as_slice(), lo, hi);
    if is_header_value(v.as_str()) {
        v
    } else {
        String::new()
    }
}

/// The validators after reading the metadata line `cs[lo..hi]`.
fn read_line_into(
    cs: &Vec<char>,
    lo: usize,
    hi: usize,
    etag_prefix: &Vec<char>,
    date_prefix: &Vec<char>,
    etag: Option<String>,
    last_modified: Option<String>,
) -> (r: (Option<String>, Option<String>))
    requires
        lo <= hi <= cs@.len(),
        etag_prefix@ == "ETag: "@,
        date_prefix@ == "Last-Modified: "@,
    ensures
        (opt_view(r.0), opt_view(r.1)) == read_meta_line(
            (opt_view(etag), opt_view(last_modified)),
            cs@.subrange(lo as int, hi as int),
        ),
{
    let ghost line = cs@.subrange(lo as int, hi as int);
    let mut etag = etag;
    let mut last_modified = last_modified;
    let elen = etag_prefix.len();
    if elen <= hi - lo && prefix_at(cs.as_slice(), lo, etag_prefix.as_slice()) {
        assert(cs@.skip(lo as int).take(elen as int) =~= line.take(elen as int));
        etag = Some(sent_value_of(cs, lo + elen, hi));
        assert(line.skip(elen as int) =~= cs@.subrange(lo + elen, hi as int));
    } else {
        if elen <= hi - lo {
            assert(cs@.skip(lo as int).take(elen as int) =~= line.take(elen as int));
        }
    }
    let dlen = date_prefix.len();
    if dlen <= hi - lo && prefix_at(cs.as_slice(), lo, date_prefix.as_slice()) {
        assert(cs@.skip(lo as int).take(dlen as int) =~= line.take(dlen as int));
        last_modified = Some(sent_value_of(cs, lo + dlen, hi));
        assert(line.skip(dlen as int) =~= cs@.subrange(lo + dlen, hi as int));
    } else {
        if dlen <= hi - lo {
            assert(cs@.skip(lo as int).take(dlen as int) =~= line.take(dlen as int));
        }
    }
    (etag, last_modified)
}

/// Reads the validators from stored metadata: one line per header, as
/// `ETag: <value>` or `Last-Modified: <value>`.
pub fn cache_validators(meta: &str) -> (r: CacheValidators)
    ensures
        (opt_view(r.etag), opt_view(r.last_modified)) == validators_of(meta@),
{
    let cs = chars_of(meta);
    let n = cs.len();
    let etag_prefix = chars_of("ETag: ");
    let date_prefix = chars_of("Last-Modified: ");
    let mut etag: Option<String> = None;
    let mut last_modified: Option<String> = None;
    let mut i: usize = 0;
    assert(cs@.skip(0) =~= cs@);
    while i < n
        invariant
            n == cs@.len(),
            i <= n,
            etag_prefix@ == "ETag: "@,
            date_prefix@ == "Last-Modified: "@,
            validators_of(meta@) == read_meta_lines(
                (opt_view(etag), opt_view(last_modified)),
                text_lines(cs@.skip(i as int)),
            ),
            cs@ == meta@,
        decreases n - i,
    {
        let mut j: usize = i;
        while j < n && cs[j] != '\n'
            invariant
                n == cs@.len(),
                i <= j <= n,
                forall|k: int| i <= k < j ==> #[trigger] cs@[k] != '\n',
            decreases n - j,
        {
            j = j + 1;
        }
        let ghost t = cs@.skip(i as int);
        proof {
            assert forall|k: int| 0 <= k < j - i implies #[trigger] t[k] != '\n' by {
                assert(t[k] == cs@[k + i]);
            }
            if j < n {
                assert(t[j - i] == cs@[j as int]);
            }
            lemma_line_len(t, j - i);
        }
        let end: usize = if j < n && j > i && cs[j - 1] == '\r' {
            j - 1
        } else {
            j
        };
        let ghost line = cs@.subrange(i as int, end as int);
        proof {
            if j < n {
                assert(t.take(j - i) =~= cs@.subrange(i as int, j as int));
                if j > i {
                    assert(t.take(j - i).last() == cs@[j - 1]);
                    assert(t.take(j - i).drop_last() =~= cs@.subrange(i as int, j - 1));
                }
                assert(strip_cr(t.take(j - i)) == line);
                assert(t.skip(j - i + 1) =~= cs@.skip(j + 1));
                assert(text_lines(t) == seq![line] + text_lines(cs@.skip(j + 1)));
            } else {
                assert(t =~= line);
                assert(text_lines(t) == seq![line]);
            }
            assert(line.skip(0) =~= line);
        }
        let ghost before = (opt_view(etag), opt_view(last_modified));
        let (e2, d2) = read_line_into(&cs, i, end, &etag_prefix, &date_prefix, etag, last_modified);
        etag = e2;
        last_modified = d2;
        assert((opt_view(etag), opt_view(last_modified)) == read_meta_line(before, line));
        if j < n {
            proof {
                let rest = text_lines(cs@.skip(j + 1));
                assert((seq![line] + rest).drop_first() =~= rest);
                assert((seq![line] + rest)[0] == line);
            }
            i = j + 1;
        } else {
            proof {
                assert(seq![line].drop_first() =~= Seq::<Seq<char>>::empty());
                assert(cs@.skip(n as int).len() == 0);
                assert(text_lines(cs@.skip(n as int)) =~= Seq::<Seq<char>>::empty());
            }
            i = n;
        }
    }
    assert(text_lines(cs@.skip(n as int)) == Seq::<Seq<char>>::empty()) by {
        assert(cs@.skip(n as int).len() == 0);
    }
    CacheValidators { etag, last_modified }
}

/// The metadata stored for a response: an `ETag: ` line when the response
/// had an entity tag, then a `Last-Modified: ` line when it had a date.
pub open spec fn meta_text(etag: Option<Seq<char>>, last_modified: Option<Seq<char>>) -> Seq<
    char,
> {
    (match etag {
        Some(e) => "ETag: "@ + e + "\n"@,
        None => Seq::empty(),
    }) + (match last_modified {
        Some(d) => "Last-Modified: "@ + d + "\n"@,
        None => Seq::empty(),
    })
}

/// The metadata stored for a response with these header values (as shown
/// as text).
pub fn cache_meta_text(etag: Option<&str>, last_modified: Option<&str>) -> (r: String)
    ensures
        r@ == meta_text(
            match etag {
                Some(e) => Some(e@),
                None => None,
            },
            match last_modified {
                Some(d) => Some(d@),
                None => None,
            },
        ),
{
    let mut r = String::new();
    if let Some(e) = etag {
        r.append("ETag: ");
        r.append(e);
        r.append("\n");
    }
    if let Some(d) = last_modified {
        r.append("Last-Modified: ");
        r.append(d);
        r.append("\n");
    }
    r
}

/// Whether text is what a header value shows as text: tabs and visible
/// ASCII characters (32 to 126) only.
pub open spec fn shown_header_text(s: Seq<char>) -> bool {
    forall|i: int| 0 <= i < s.len() ==> (32 <= #[trigger] s[i] as int <= 126 || s[i] == '\t')
}

proof fn lemma_shown_header_text_ok(s: Seq<char>)
    requires
        shown_header_text(s),
    ensures
        header_value_ok(s),
        forall|i: int| 0 <= i < s.len() ==> #[trigger] s[i] != '\n' && s[i] != '\r',
{
    assert(vstd::utf8::is_ascii_chars(s));
    vstd::utf8::is_ascii_chars_encode_utf8(s);
    assert forall|i: int| 0 <= i < encode_utf8(s).len() implies header_byte_ok(
        #[trigger] encode_utf8(s)[i],
    ) by {
        assert(s[i] as u8 == encode_utf8(s)[i]);
    }
}

proof fn lemma_lines_first(text: Seq<char>, rest: Seq<char>)
    requires
        forall|i: int| 0 <= i < text.len() ==> #[trigger] text[i] != '\n',
    ensures
        text_lines(text + seq!['\n'] + rest) == seq![strip_cr(text)] + text_lines(rest),
{
    let s = text + seq!['\n'] + rest;
    assert forall|k: int| 0 <= k < text.len() implies #[trigger] s[k] != '\n' by {
        assert(s[k] == text[k]);
    }
    lemma_line_len(s, text.len() as int);
    assert(s.take(text.len() as int) =~= text);
    assert(s.skip(text.len() as int + 1) =~= rest);
}

proof fn lemma_read_header_line(p: Seq<char>, other: Seq<char>, v: Seq<char>, st: (
    Option<Seq<char>>,
    Option<Seq<char>>,
))
    requires
        shown_header_text(v),
        p.len() > 0,
        other.len() > 0,
        p[0] != other[0],
    ensures
        has_prefix(p + v, p),
        !has_prefix(p + v, other),
        (p + v).skip(p.len() as int) == v,
        sent_value(v) == v,
{
    lemma_shown_header_text_ok(v);
    assert((p + v).take(p.len() as int) =~= p);
    assert((p + v).skip(p.len() as int) =~= v);
    if has_prefix(p + v, other) {
        assert((p + v).take(other.len() as int)[0] == other[0]);
    }
}

/// Stored metadata gives back the header values it was made from, whenever
/// they are what a header value shows as text.
pub proof fn lemma_meta_round_trip(etag: Option<Seq<char>>, last_modified: Option<Seq<char>>)
    requires
        etag matches Some(e) ==> shown_header_text(e),
        last_modified matches Some(d) ==> shown_header_text(d),
    ensures
        validators_of(meta_text(etag, last_modified)) == (etag, last_modified),
{
    reveal_strlit("ETag: ");
    reveal_strlit("Last-Modified: ");
    reveal_strlit("\n");
    let ep = "ETag: "@;
    let dp = "Last-Modified: "@;
    let nl = "\n"@;
    assert(nl =~= seq!['\n']);
    let date_part = match last_modified {
        Some(d) => dp + d + nl,
        None => Seq::<char>::empty(),
    };
    let date_lines = match last_modified {
        Some(d) => seq![dp + d],
        None => Seq::<Seq<char>>::empty(),
    };
    // the lines of the date part
    if let Some(d) = last_modified {
        lemma_shown_header_text_ok(d);
        let line = dp + d;
        assert forall|i: int| 0 <= i < line.len() implies #[trigger] line[i] != '\n' by {
            if i >= dp.len() {
                assert(line[i] == d[i - dp.len()]);
            }
        }
        lemma_lines_first(line, Seq::empty());
        assert(date_part =~= line + seq!['\n'] + Seq::<char>::empty());
        assert(line.last() != '\r') by {
            if d.len() > 0 {
                assert(line.last() == d.last());
            }
        }
        assert(text_lines(Seq::<char>::empty()) =~= Seq::<Seq<char>>::empty());
        assert(text_lines(date_part) =~= date_lines);
    } else {
        assert(text_lines(date_part) =~= date_lines);
    }
    // the lines of the whole text
    let lines = match etag {
        Some(e) => seq![ep + e] + date_lines,
        None => date_lines,
    };
    if let Some(e) = etag {
        lemma_shown_header_text_ok(e);
        let line = ep + e;
        assert forall|i: int| 0 <= i < line.len() implies #[trigger] line[i] != '\n' by {
            if i >= ep.len() {
                assert(line[i] == e[i - ep.len()]);
            }
        }
        lemma_lines_first(line, date_part);
        assert(meta_text(etag, last_modified) =~= line + seq!['\n'] + date_part);
        assert(line.last() != '\r') by {
            if e.len() > 0 {
                assert(line.last() == e.last());
            }
        }
        assert(text_lines(meta_text(etag, last_modified)) == lines);
    } else {
        assert(meta_text(etag, last_modified) =~= date_part);
    }
    // reading them
    let st0 = (None::<Seq<char>>, None::<Seq<char>>);
    assert(validators_of(meta_text(etag, last_modified)) == read_meta_lines(st0, lines));
    if let Some(d) = last_modified {
        lemma_read_header_line(dp, ep, d, st0);
    }
    if let Some(e) = etag {
        lemma_read_header_line(ep, dp, e, st0);
        let st1 = read_meta_line(st0, ep + e);
        assert(st1 == (Some(e), None::<Seq<char>>));
        assert(lines.drop_first() =~= date_lines);
        assert(lines[0] == ep + e);
        assert(read_meta_lines(st0, lines) == read_meta_lines(st1, date_lines));
        if let Some(d) = last_modified {
            assert(read_meta_line(st1, dp + d) == (Some(e), Some(d)));
            assert(date_lines.drop_first() =~= Seq::<Seq<char>>::empty());
            assert(read_meta_lines(st1, date_lines) == read_meta_lines(
                (Some(e), Some(d)),
                Seq::<Seq<char>>::empty(),
            ));
        }
    } else {
        if let Some(d) = last_modified {
            assert(read_meta_line(st0, dp + d) == (None::<Seq<char>>, Some(d)));
            assert(date_lines.drop_first() =~= Seq::<Seq<char>>::empty());
            assert(read_meta_lines(st0, date_lines) == read_meta_lines(
                (None::<Seq<char>>, Some(d)),
                Seq::<Seq<char>>::empty(),
            ));
        }
    }
}

} // verus!
