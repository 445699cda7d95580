//! The JMComic app API: endpoints, request tokens, query parameters, and the
//! checks applied to a response before its payload is decrypted.
use vstd::prelude::*;

use crate::crypto::{decrypt_data, md5_hex, spec_decrypt_data, spec_md5_hex, DecryptError};
use crate::target::{lemma_decimal_digits, lemma_parse_i64_of_decimal};
use crate::text::{
    is_digit, lemma_find_from_first, match_at, append_chars, chars_to_string, decimal, find_chars, find_from, i64_decimal, parse_i64,
    signed_decimal, spec_parse_i64, str_chars, u64_decimal, copy_range, lemma_find_from,
};

verus! {

/// The API host used when none is configured.
pub fn default_api_domain() -> (s: &'static str)
    ensures
        s@ == "www.cdnhth.cc"@,
{
    "www.cdnhth.cc"
}

/// The user agent sent with every request.
pub fn desktop_user_agent() -> (s: &'static str)
    ensures
        s@
            == "Mozilla/5.0 (Windows NT 10.0; Win64; x64) AppleWebKit/537.36 (KHTML, like Gecko) Chrome/128.0.0.0 Safari/537.36"@,
{
    "Mozilla/5.0 (Windows NT 10.0; Win64; x64) AppleWebKit/537.36 (KHTML, like Gecko) Chrome/128.0.0.0 Safari/537.36"
}

/// The app version announced in the `tokenparam` header.
pub open spec fn app_version() -> Seq<char> {
    "2.0.13"@
}

/// The API endpoints the downloader calls.
#[derive(Debug, Clone, Copy, PartialEq, Eq, Structural)]
pub enum ApiPath {
    GetComic,
    GetChapter,
    GetScrambleId,
}

/// The path of an endpoint.
pub open spec fn api_path_str(p: ApiPath) -> Seq<char> {
    match p {
        ApiPath::GetComic => "/album"@,
        ApiPath::GetChapter => "/chapter"@,
        ApiPath::GetScrambleId => "/chapter_view_template"@,
    }
}

/// The secret hashed with the request time into an endpoint's token.
pub open spec fn api_token_secret(p: ApiPath) -> Seq<char> {
    match p {
        ApiPath::GetScrambleId => "18comicAPPContent"@,
        ApiPath::GetComic | ApiPath::GetChapter => "18comicAPP"@,
    }
}

impl ApiPath {
    /// The path of this endpoint.
    pub fn as_str(self) -> (s: &'static str)
        ensures
            s@ == api_path_str(self),
    {
        match self {
            ApiPath::GetComic => "/album",
            ApiPath::GetChapter => "/chapter",
            ApiPath::GetScrambleId => "/chapter_view_template",
        }
    }

    /// The secret for this endpoint's token.
    pub fn token_secret(self) -> (s: &'static str)
        ensures
            s@ == api_token_secret(self),
    {
        match self {
            ApiPath::GetScrambleId => "18comicAPPContent",
            ApiPath::GetComic | ApiPath::GetChapter => "18comicAPP",
        }
    }
}

/// What a request to the API carries besides its query.
#[derive(Debug)]
pub struct ApiRequest {
    /// `https://<domain><path>`.
    pub url: String,
    /// The `token` header: hex MD5 of the time followed by the endpoint secret.
    pub token: String,
    /// The `tokenparam` header: `<time>,<app version>`.
    pub token_param: String,
    /// The `user-agent` header.
    pub user_agent: String,
}

/// The URL of an endpoint on a host.
pub open spec fn spec_request_url(domain: Seq<char>, path: ApiPath) -> Seq<char> {
    "https://"@ + domain + api_path_str(path)
}

/// The token for a request made at time `ts`.
pub open spec fn spec_request_token(path: ApiPath, ts: u64) -> Seq<char> {
    spec_md5_hex(decimal(ts as nat) + api_token_secret(path))
}

/// The `tokenparam` value for a request made at time `ts`.
pub open spec fn spec_token_param(ts: u64) -> Seq<char> {
    decimal(ts as nat) + ","@ + app_version()
}

/// Lemma (endpoint secrets): a request's token is the hex MD5 of the decimal
/// time followed by its own endpoint's secret: `18comicAPPContent` for the
/// scramble-id endpoint, `18comicAPP` for the album and chapter endpoints.
pub proof fn lemma_request_token_secret(path: ApiPath, ts: u64)
    ensures
        path == ApiPath::GetScrambleId ==> spec_request_token(path, ts) == spec_md5_hex(
            decimal(ts as nat) + "18comicAPPContent"@,
        ),
        path == ApiPath::GetComic || path == ApiPath::GetChapter ==> spec_request_token(path, ts)
            == spec_md5_hex(decimal(ts as nat) + "18comicAPP"@),
{
}

/// An owned copy of a string slice.
pub fn owned(s: &str) -> (res: String)
    ensures
        res@ == s@,
{
    s.to_owned()
}

/// The URL and headers of a request to `path` on `api_domain` at time `ts`.
pub fn build_request(api_domain: &str, path: ApiPath, ts: u64) -> (req: ApiRequest)
    ensures
        req.url@ == spec_request_url(api_domain@, path),
        req.token@ == spec_request_token(path, ts),
        path == ApiPath::GetScrambleId ==> req.token@ == spec_md5_hex(
            decimal(ts as nat) + "18comicAPPContent"@,
        ),
        path != ApiPath::GetScrambleId ==> req.token@ == spec_md5_hex(decimal(ts as nat) + "18comicAPP"@),
        path == ApiPath::GetComic ==> req.url@ == "https://"@ + api_domain@ + "/album"@,
        path == ApiPath::GetChapter ==> req.url@ == "https://"@ + api_domain@ + "/chapter"@,
        path == ApiPath::GetScrambleId ==> req.url@ == "https://"@ + api_domain@
            + "/chapter_view_template"@,
        req.token_param@ == decimal(ts as nat) + ","@ + "2.0.13"@,
        req.token_param@ == spec_token_param(ts),
        req.user_agent@
            == "Mozilla/5.0 (Windows NT 10.0; Win64; x64) AppleWebKit/537.36 (KHTML, like Gecko) Chrome/128.0.0.0 Safari/537.36"@,
{
    let mut token_input = u64_decimal(ts);
    append_chars(&mut token_input, &str_chars(path.token_secret()));
    let token = md5_hex(&token_input);
    let mut token_param = u64_decimal(ts);
    append_chars(&mut token_param, &str_chars(","));
    append_chars(&mut token_param, &str_chars("2.0.13"));
    let mut url = str_chars("https://");
    append_chars(&mut url, &str_chars(api_domain));
    append_chars(&mut url, &str_chars(path.as_str()));
    proof {
        assert(url@ =~= spec_request_url(api_domain@, path));
    }
    ApiRequest {
        url: chars_to_string(&url),
        token: chars_to_string(&token),
        token_param: chars_to_string(&token_param),
        user_agent: owned(desktop_user_agent()),
    }
}

/// A query parameter.
pub open spec fn param_view(p: (String, String)) -> (Seq<char>, Seq<char>) {
    (p.0@, p.1@)
}

/// The query of the album and chapter endpoints: the id.
pub fn id_query(id: i64) -> (q: Vec<(String, String)>)
    ensures
        q@.len() == 1,
        param_view(q@[0]) == ("id"@, signed_decimal(id as int)),
{
    let mut q: Vec<(String, String)> = Vec::new();
    q.push((owned("id"), chars_to_string(&i64_decimal(id))));
    q
}

/// The query of the scramble-id endpoint for a chapter at time `ts`.
pub fn scramble_query(chapter_id: i64, ts: u64) -> (q: Vec<(String, String)>)
    ensures
        q@.len() == 6,
        param_view(q@[0]) == ("id"@, signed_decimal(chapter_id as int)),
        param_view(q@[1]) == ("v"@, decimal(ts as nat)),
        param_view(q@[2]) == ("mode"@, "vertical"@),
        param_view(q@[3]) == ("page"@, "0"@),
        param_view(q@[4]) == ("app_img_shunt"@, "1"@),
        param_view(q@[5]) == ("express"@, "off"@),
{
    let mut q: Vec<(String, String)> = Vec::new();
    q.push((owned("id"), chars_to_string(&i64_decimal(chapter_id))));
    q.push((owned("v"), chars_to_string(&u64_decimal(ts))));
    q.push((owned("mode"), owned("vertical")));
    q.push((owned("page"), owned("0")));
    q.push((owned("app_img_shunt"), owned("1")));
    q.push((owned("express"), owned("off")));
    q
}

// ---------------------------------------------------------------------------
// Responses
// ---------------------------------------------------------------------------

/// Whether an HTTP status is `200 OK`, the only status the API client accepts.
pub fn status_is_ok(status: u16) -> (b: bool)
    ensures
        b == (status == 200),
{
    status == 200
}

/// The envelope of an API response, as plain values: the `code`, the `data`
/// field when it is a JSON string, and the `errorMsg`.
#[derive(Debug)]
pub struct ApiEnvelope {
    pub code: i64,
    pub data: Option<String>,
    pub error_msg: String,
}

/// Why an API response could not be opened.
#[derive(Debug)]
pub enum ApiError {
    /// The response code is not 200.
    Code { code: i64, error_msg: String },
    /// The `data` field is not a string.
    DataNotString,
    /// The payload could not be decrypted.
    Decrypt(DecryptError),
}

/// The plaintext carried by a response to a request made at time `ts`, or
/// why there is none.
pub fn open_envelope(ts: u64, envelope: &ApiEnvelope) -> (res: Result<String, ApiError>)
    ensures
        envelope.code != 200 ==> (res matches Err(ApiError::Code { code, error_msg }) && code
            == envelope.code && error_msg@ == envelope.error_msg@),
        envelope.code == 200 && envelope.data is None ==> (res matches Err(
            ApiError::DataNotString,
        )),
        envelope.code == 200 && envelope.data is Some ==> match spec_decrypt_data(
            ts,
            envelope.data->0@,
        ) {
            Ok(plain) => (res matches Ok(s) && s@ == plain),
            Err(stage) => (res matches Err(ApiError::Decrypt(e)) && e.stage == stage),
        },
{
    if envelope.code != 200 {
        return Err(ApiError::Code { code: envelope.code, error_msg: envelope.error_msg.clone() });
    }
    match &envelope.data {
        None => Err(ApiError::DataNotString),
        Some(d) => match decrypt_data(ts, d.as_str()) {
            Ok(s) => Ok(s),
            Err(e) => Err(ApiError::Decrypt(e)),
        },
    }
}

// ---------------------------------------------------------------------------
// Scramble id
// ---------------------------------------------------------------------------

/// The scramble id used when the template page does not state one.
pub open spec fn default_scramble_id() -> i64 {
    220980
}

/// The marker that precedes the scramble id in the template page.
pub open spec fn scramble_marker() -> Seq<char> {
    "var scramble_id = "@
}

/// The scramble id stated in a template page: the text between the first
/// marker and the next marker (or the end), cut at the first `;`, parsed as an
/// `i64`; the default id where any step fails.
pub open spec fn spec_scramble_id(body: Seq<char>) -> i64 {
    let m = scramble_marker();
    match find_from(body, m, 0) {
        None => default_scramble_id(),
        Some(f) => {
            let start = f + m.len();
            let end = match find_from(body, m, start) {
                Some(g) => g,
                None => body.len() as int,
            };
            let piece = body.subrange(start, end);
            let value = match find_from(piece, ";"@, 0) {
                Some(k) => piece.subrange(0, k),
                None => piece,
            };
            match spec_parse_i64(value) {
                Some(v) => v,
                None => default_scramble_id(),
            }
        },
    }
}

/// The scramble id stated in a chapter's template page.
pub fn parse_scramble_id(body: &str) -> (id: i64)
    ensures
        id == spec_scramble_id(body@),
{
    let b = str_chars(body);
    let marker = str_chars("var scramble_id = ");
    let first = match find_chars(&b, &marker, 0) {
        None => return 220980,
        Some(f) => f,
    };
    proof {
        lemma_find_from(b@, marker@, 0);
    }
    let start = first + marker.len();
    let end = match find_chars(&b, &marker, start) {
        Some(g) => g,
        None => b.len(),
    };
    proof {
        lemma_find_from(b@, marker@, start as int);
    }
    let piece = copy_range(&b, start, end);
    let semi = str_chars(";");
    let value = match find_chars(&piece, &semi, 0) {
        Some(k) => {
            proof {
                lemma_find_from(piece@, semi@, 0);
            }
            copy_range(&piece, 0, k)
        },
        None => piece,
    };
    match parse_i64(&value) {
        Some(v) => v,
        None => 220980,
    }
}

/// Law: a template page that states `var scramble_id = <n>;`, with no
/// earlier marker, yields `n`.
pub proof fn lemma_stated_scramble_id(pre: Seq<char>, n: i64, post: Seq<char>)
    requires
        forall|j: int|
            0 <= j < pre.len() ==> !match_at(
                pre + scramble_marker() + signed_decimal(n as int) + ";"@ + post,
                scramble_marker(),
                j,
            ),
    ensures
        spec_scramble_id(pre + scramble_marker() + signed_decimal(n as int) + ";"@ + post) == n,
{
    reveal_strlit("var scramble_id = ");
    reveal_strlit(";");
    let m = scramble_marker();
    let d = signed_decimal(n as int);
    let body = pre + m + d + ";"@ + post;
    let dlen = d.len() as int;
    let start: int = (pre.len() + m.len()) as int;
    assert(m.len() == 18);
    assert(m[0] == 'v');
    // The characters of the stated id are a sign or digits.
    let abs: nat = if n < 0 {
        (-n) as nat
    } else {
        n as nat
    };
    lemma_decimal_digits(abs);
    assert forall|i: int| 0 <= i < dlen implies #[trigger] d[i] != 'v' && d[i] != ';' by {
        if n < 0 {
            if i > 0 {
                assert(d[i] == decimal(abs)[i - 1]);
                assert(is_digit(decimal(abs)[i - 1]));
            }
        } else {
            assert(is_digit(decimal(abs)[i]));
        }
    }
    // The stated marker is the first one.
    assert forall|j: int| 0 <= j < m.len() implies #[trigger] body[pre.len() + j] == m[j] by {
        assert(body[pre.len() + j] == (pre + m)[pre.len() + j]);
    }
    assert(match_at(body, m, pre.len() as int));
    lemma_find_from_first(body, m, 0, pre.len() as int);
    // The text after it runs at least past the id and its `;`.
    assert forall|i: int| 0 <= i < dlen implies #[trigger] body[start + i] == d[i] by {
        assert(body[start + i] == (pre + m + d)[start + i]);
    }
    assert(body[start + dlen] == ';');
    lemma_find_from(body, m, start);
    let end = match find_from(body, m, start) {
        Some(g) => g,
        None => body.len() as int,
    };
    if let Some(g) = find_from(body, m, start) {
        if g < start + dlen + 1 {
            assert(body[g + 0] == m[0]);
            if g < start + dlen {
                assert(body[start + (g - start)] == d[g - start]);
            }
        }
    }
    assert(end >= start + dlen + 1);
    let piece = body.subrange(start, end);
    assert forall|i: int| 0 <= i < dlen implies #[trigger] piece[i] == d[i] by {
        assert(piece[i] == body[start + i]);
    }
    assert(piece[dlen] == ';');
    assert(match_at(piece, ";"@, dlen));
    assert forall|j: int| 0 <= j < dlen implies !match_at(piece, ";"@, j) by {
        assert(piece[j + 0] == d[j]);
    }
    lemma_find_from_first(piece, ";"@, 0, dlen);
    assert(piece.subrange(0, dlen) =~= d);
    lemma_parse_i64_of_decimal(n);
}

} // verus!
