//! Rendering an HTTP request as the `curl` command that sends it.

use vstd::prelude::*;
use base64::Engine;
use vstd::utf8::{decode_utf8, valid_utf8};
use crate::pattern::{
    first_group, opt_view, regex_first_group, FirstGroup, GroupOutcome,
};
use crate::text::{
    chars_of, copy_chars, find_chars, find_first, join_chars, join_spaces, lemma_find_from, lemma_join_prefix, occurs_at, push_all,
    push_word, push_words, quote_chars, quoted, string_from_chars, sub_vec, views,
};

verus! {

/// `reqwest`'s blocking request builder.
#[verifier::external_type_specification]
#[verifier::external_body]
pub struct ExRequestBuilder(reqwest::blocking::RequestBuilder);

/// `reqwest`'s blocking request.
#[verifier::external_type_specification]
#[verifier::external_body]
pub struct ExRequest(reqwest::blocking::Request);

/// `reqwest`'s error type.
#[verifier::external_type_specification]
#[verifier::external_body]
pub struct ExReqwestError(reqwest::Error);

/// Why a request cannot be written as a `curl` command.
#[derive(Debug, Clone, Copy, PartialEq, Eq, Structural)]
pub enum CurlError {
    /// The request cannot be cloned (its body is a stream).
    NotClonable,
    /// Building the cloned request failed (a clone always holds a request,
    /// so [`to_curl`] never returns this).
    Build,
    /// A header value other than the authorization holds a byte that is not visible ASCII.
    HeaderNotText,
    /// The authorization header is not `Basic ` followed by the base64 of UTF-8 text.
    AuthorizationNotDecodable,
    /// The body is in memory but is not UTF-8 text.
    BodyNotText,
}

/// The message for each error.
pub open spec fn error_message(e: CurlError) -> Seq<char> {
    match e {
        CurlError::NotClonable => "Request cannot be cloned"@,
        CurlError::Build => "Request cannot be built"@,
        CurlError::HeaderNotText => "failed to convert header to a str"@,
        CurlError::AuthorizationNotDecodable => "authorization header is not Basic base64 of UTF-8 text"@,
        CurlError::BodyNotText => "body is not UTF-8 text"@,
    }
}

impl CurlError {
    /// The message that describes the error.
    pub fn message(&self) -> (r: String)
        ensures
            r@ == error_message(*self),
    {
        match self {
            CurlError::NotClonable => "Request cannot be cloned".to_owned(),
            CurlError::Build => "Request cannot be built".to_owned(),
            CurlError::HeaderNotText => "failed to convert header to a str".to_owned(),
            CurlError::AuthorizationNotDecodable => "authorization header is not Basic base64 of UTF-8 text".to_owned(),
            CurlError::BodyNotText => "body is not UTF-8 text".to_owned(),
        }
    }
}

/// One header of a request: its name and the bytes of its value.
pub struct HeaderEntry {
    pub name: String,
    pub value: Vec<u8>,
}

/// What the command is made of: method, URL, headers in order, and the body
/// where it is held in memory.
pub struct RequestParts {
    pub method: String,
    pub url: String,
    pub headers: Vec<HeaderEntry>,
    pub body: Option<Vec<u8>>,
}

/// The mathematical counterpart of [`RequestParts`].
pub struct RequestView {
    pub method: Seq<char>,
    pub url: Seq<char>,
    pub headers: Seq<(Seq<char>, Seq<u8>)>,
    pub body: Option<Seq<u8>>,
}

/// The views of a sequence of header entries.
pub open spec fn header_views(h: Seq<HeaderEntry>) -> Seq<(Seq<char>, Seq<u8>)> {
    Seq::new(h.len(), |i: int| (h[i].name@, h[i].value@))
}

impl View for RequestParts {
    type V = RequestView;

    open spec fn view(&self) -> RequestView {
        RequestView {
            method: self.method@,
            url: self.url@,
            headers: header_views(self.headers@),
            body: match self.body {
                Some(b) => Some(b@),
                None => None,
            },
        }
    }
}

/// The decoding of `input` by the `STANDARD` engine of the `base64` crate.
pub uninterp spec fn base64_standard_decoded(input: Seq<u8>) -> Option<Seq<u8>>;

/// The error of a base64 decoding.
#[verifier::external_type_specification]
#[verifier::external_body]
pub struct ExDecodeError(base64::DecodeError);

/// Decodes `input` with `base64::engine::general_purpose::STANDARD`
/// (`Engine::decode`). The contract claims only that the outcome, success or
/// error, is the named function of the input.
#[verifier::external_body]
fn decode_base64(input: &[u8]) -> (r: Result<Vec<u8>, base64::DecodeError>)
    ensures
        match r {
            Ok(v) => base64_standard_decoded(input@) == Some(v@),
            Err(_) => base64_standard_decoded(input@) is None,
        },
{
    base64::engine::general_purpose::STANDARD.decode(input)
}

/// `std::str::from_utf8`: the text of `bytes` where they are valid UTF-8.
#[verifier::external_body]
fn utf8_text(bytes: &[u8]) -> (r: Option<String>)
    ensures
        r is Some <==> valid_utf8(bytes@),
        r matches Some(s) ==> s@ == decode_utf8(bytes@),
{
    match std::str::from_utf8(bytes) {
        Ok(s) => Some(s.to_string()),
        Err(_) => None,
    }
}

/// A byte that `http::HeaderValue::to_str` accepts: visible ASCII or a tab.
pub open spec fn visible_ascii(b: u8) -> bool {
    (32 <= b && b < 127) || b == 9
}

/// The text of a header value, where every byte is visible ASCII.
pub open spec fn header_value_text(v: Seq<u8>) -> Option<Seq<char>> {
    if forall|i: int| 0 <= i < v.len() ==> visible_ascii(v[i]) {
        Some(Seq::new(v.len(), |i: int| v[i] as char))
    } else {
        None
    }
}

/// Whether `c` equals the ASCII lower-case letter or digit `t`, ignoring ASCII case.
pub open spec fn eq_ignore_ascii_case(c: char, t: char) -> bool {
    c == t || ('A' <= c && c <= 'Z' && (c as u32) + 32 == (t as u32))
}

/// Whether `name` is the authorization header's name, ignoring ASCII case.
pub open spec fn is_authorization(name: Seq<char>) -> bool {
    &&& name.len() == "authorization"@.len()
    &&& forall|i: int| 0 <= i < name.len() ==> eq_ignore_ascii_case(name[i], "authorization"@[i])
}

/// The credentials in an authorization value: the bytes after its first six
/// (`Basic `) decoded from base64, then read as UTF-8.
pub open spec fn authorization_credentials(v: Seq<u8>) -> Option<Seq<char>> {
    if header_value_text(v) is None || v.len() < 6 {
        None
    } else {
        match base64_standard_decoded(v.subrange(6, v.len() as int)) {
            Some(d) => if valid_utf8(d) {
                Some(decode_utf8(d))
            } else {
                None
            },
            None => None,
        }
    }
}

/// The command words for one header.
pub open spec fn header_words(name: Seq<char>, value: Seq<u8>) -> Result<Seq<Seq<char>>, CurlError> {
    if is_authorization(name) {
        match authorization_credentials(value) {
            Some(c) => Ok(seq!["--user"@, quoted(c)]),
            None => Err(CurlError::AuthorizationNotDecodable),
        }
    } else {
        match header_value_text(value) {
            Some(t) => Ok(seq!["-H"@, quoted(name + ": "@ + t)]),
            None => Err(CurlError::HeaderNotText),
        }
    }
}

/// The command words for all headers, in order; the first header that cannot
/// be written decides the error.
pub open spec fn headers_words(hs: Seq<(Seq<char>, Seq<u8>)>) -> Result<Seq<Seq<char>>, CurlError>
    decreases hs.len(),
{
    if hs.len() == 0 {
        Ok(Seq::empty())
    } else {
        match headers_words(hs.drop_last()) {
            Err(e) => Err(e),
            Ok(a) => match header_words(hs.last().0, hs.last().1) {
                Err(e) => Err(e),
                Ok(b) => Ok(a + b),
            },
        }
    }
}

/// The command words for the body.
pub open spec fn body_words(body: Option<Seq<u8>>) -> Result<Seq<Seq<char>>, CurlError> {
    match body {
        None => Ok(Seq::empty()),
        Some(b) => if valid_utf8(b) {
            Ok(seq!["-d"@, seq!['\''] + decode_utf8(b) + seq!['\'']])
        } else {
            Err(CurlError::BodyNotText)
        },
    }
}

/// The first words of every command: `curl -X METHOD "URL"`.
pub open spec fn command_head(method: Seq<char>, url: Seq<char>) -> Seq<Seq<char>> {
    seq!["curl"@, "-X"@, method, quoted(url)]
}

/// The `curl` command for a request, or why there is none.
pub open spec fn curl_command(p: RequestView) -> Result<Seq<char>, CurlError> {
    match headers_words(p.headers) {
        Err(e) => Err(e),
        Ok(h) => match body_words(p.body) {
            Err(e) => Err(e),
            Ok(b) => Ok(join_spaces(command_head(p.method, p.url) + h + b)),
        },
    }
}

/// Once a prefix of the headers fails, so do all the headers.
proof fn lemma_headers_words_error(hs: Seq<(Seq<char>, Seq<u8>)>, k: int, n: int)
    requires
        0 <= k <= n <= hs.len(),
        headers_words(hs.take(k)) is Err,
    ensures
        headers_words(hs.take(n)) == headers_words(hs.take(k)),
    decreases n - k,
{
    if n > k {
        lemma_headers_words_error(hs, k, n - 1);
        assert(hs.take(n).drop_last() == hs.take(n - 1));
    }
}

/// The text of a header value where every byte is visible ASCII.
pub fn header_text(v: &Vec<u8>) -> (r: Option<Vec<char>>)
    ensures
        match r {
            Some(t) => header_value_text(v@) == Some(t@),
            None => header_value_text(v@) is None,
        },
{
    let mut t: Vec<char> = Vec::new();
    let mut i: usize = 0;
    while i < v.len()
        invariant
            i <= v.len(),
            t@ == Seq::new(i as nat, |j: int| v@[j] as char),
            forall|j: int| 0 <= j < i ==> visible_ascii(v@[j]),
        decreases v.len() - i,
    {
        let b: u8 = v[i];
        if !((32 <= b && b < 127) || b == 9) {
            return None;
        }
        t.push(b as char);
        assert(t@ =~= Seq::new((i + 1) as nat, |j: int| v@[j] as char));
        i += 1;
    }
    Some(t)
}

/// Whether `name` is the authorization header's name, ignoring ASCII case.
pub fn is_authorization_name(name: &Vec<char>) -> (r: bool)
    ensures
        r == is_authorization(name@),
{
    let target = chars_of("authorization");
    if name.len() != target.len() {
        return false;
    }
    let mut i: usize = 0;
    while i < name.len()
        invariant
            name@.len() == target@.len(),
            target@ == "authorization"@,
            i <= name.len(),
            forall|j: int| 0 <= j < i ==> eq_ignore_ascii_case(name@[j], target@[j]),
        decreases name.len() - i,
    {
        let c = name[i];
        let t = target[i];
        if !(c == t || ('A' <= c && c <= 'Z' && (c as u32) + 32 == (t as u32))) {
            return false;
        }
        assert(eq_ignore_ascii_case(name@[i as int], target@[i as int]));
        i += 1;
    }
    true
}

/// The credentials in an authorization value.
fn credentials_of(v: &Vec<u8>) -> (r: Option<Vec<char>>)
    ensures
        match r {
            Some(c) => authorization_credentials(v@) == Some(c@),
            None => authorization_credentials(v@) is None,
        },
{
    if header_text(v).is_none() || v.len() < 6 {
        return None;
    }
    let encoded = sub_vec(v, 6, v.len());
    match decode_base64(encoded.as_slice()) {
        Err(_) => None,
        Ok(d) => match utf8_text(d.as_slice()) {
            Some(s) => Some(chars_of(s.as_str())),
            None => None,
        },
    }
}

/// The command words for one header.
fn words_for_header(h: &HeaderEntry) -> (r: Result<Vec<Vec<char>>, CurlError>)
    ensures
        match r {
            Ok(w) => header_words(h.name@, h.value@) == Ok::<Seq<Seq<char>>, CurlError>(views(w@)),
            Err(e) => header_words(h.name@, h.value@) == Err::<Seq<Seq<char>>, CurlError>(e),
        },
{
    let name = chars_of(h.name.as_str());
    let mut w: Vec<Vec<char>> = Vec::new();
    if is_authorization_name(&name) {
        match credentials_of(&h.value) {
            Some(c) => {
                w.push(chars_of("--user"));
                w.push(quote_chars(&c));
            },
            None => return Err(CurlError::AuthorizationNotDecodable),
        }
    } else {
        match header_text(&h.value) {
            Some(t) => {
                let mut line = copy_chars(&name);
                push_all(&mut line, &chars_of(": "));
                push_all(&mut line, &t);
                w.push(chars_of("-H"));
                w.push(quote_chars(&line));
            },
            None => return Err(CurlError::HeaderNotText),
        }
    }
    assert(views(w@) =~= header_words(h.name@, h.value@)->Ok_0);
    Ok(w)
}

/// Writes the `curl` command for a request given by its parts: `curl -X`,
/// the method, the quoted URL, then for each header in order `--user` with
/// the decoded credentials (authorization) or `-H "name: value"`, then
/// `-d 'body'` where the body is in memory, all separated by single spaces.
pub fn curl_from_parts(parts: &RequestParts) -> (r: Result<String, CurlError>)
    ensures
        match r {
            Ok(s) => curl_command(parts@) == Ok::<Seq<char>, CurlError>(s@),
            Err(e) => curl_command(parts@) == Err::<Seq<char>, CurlError>(e),
        },
{
    let mut words: Vec<Vec<char>> = Vec::new();
    push_word(&mut words, chars_of("curl"));
    push_word(&mut words, chars_of("-X"));
    push_word(&mut words, chars_of(parts.method.as_str()));
    push_word(&mut words, quote_chars(&chars_of(parts.url.as_str())));
    let ghost head = command_head(parts@.method, parts@.url);
    assert(views(words@) =~= head);
    let ghost hs = parts@.headers;
    let mut i: usize = 0;
    while i < parts.headers.len()
        invariant
            i <= parts.headers.len(),
            hs == header_views(parts.headers@),
            headers_words(hs.take(i as int)) is Ok,
            views(words@) == head + headers_words(hs.take(i as int))->Ok_0,
        decreases parts.headers.len() - i,
    {
        assert(hs.take(i + 1).drop_last() == hs.take(i as int));
        match words_for_header(&parts.headers[i]) {
            Err(e) => {
                proof {
                    lemma_headers_words_error(hs, i + 1, hs.len() as int);
                    assert(hs.take(hs.len() as int) == hs);
                }
                return Err(e);
            },
            Ok(w) => {
                push_words(&mut words, &w);
                assert(head + headers_words(hs.take(i + 1))->Ok_0 =~= head + headers_words(
                    hs.take(i as int),
                )->Ok_0 + views(w@));
            },
        }
        i += 1;
    }
    assert(hs.take(hs.len() as int) == hs);
    let ghost h = headers_words(hs)->Ok_0;
    match &parts.body {
        None => {
            assert(head + h + Seq::<Seq<char>>::empty() =~= head + h);
        },
        Some(b) => match utf8_text(b.as_slice()) {
            None => return Err(CurlError::BodyNotText),
            Some(text) => {
                push_word(&mut words, chars_of("-d"));
                let mut arg: Vec<char> = Vec::new();
                arg.push('\'');
                push_all(&mut arg, &chars_of(text.as_str()));
                arg.push('\'');
                assert(arg@ =~= seq!['\''] + decode_utf8(b@) + seq!['\'']);
                let ghost last = arg@;
                push_word(&mut words, arg);
                assert(body_words(parts@.body)->Ok_0 == seq!["-d"@, last]);
                assert(views(words@) =~= head + h + body_words(parts@.body)->Ok_0);
            },
        },
    }
    let out = join_chars(&words);
    Ok(string_from_chars(&out))
}

/// The request that a builder holds (method, URL as `Url::as_str`, headers
/// in `HeaderMap::iter` order, body bytes where the body is in memory), or
/// `None` where the builder holds an error.
pub uninterp spec fn builder_request(b: reqwest::blocking::RequestBuilder) -> Option<RequestView>;

/// Whether the body of a builder's request, if any, can be cloned (it is not
/// a stream).
pub uninterp spec fn builder_clonable(b: reqwest::blocking::RequestBuilder) -> bool;

/// The method, URL, headers and in-memory body of a request.
pub uninterp spec fn request_view(r: reqwest::blocking::Request) -> RequestView;

/// `RequestBuilder::try_clone`: a copy of the builder, returned exactly when
/// the builder holds a request whose body can be cloned; the copy holds the
/// same request.
#[verifier::external_body]
fn clone_builder(request: &reqwest::blocking::RequestBuilder) -> (r: Option<reqwest::blocking::RequestBuilder>)
    ensures
        r is Some <==> (builder_clonable(*request) && builder_request(*request) is Some),
        r matches Some(c) ==> builder_request(c) == builder_request(*request),
{
    request.try_clone()
}

/// `RequestBuilder::build`: the request that the builder holds, or the
/// error it holds instead.
#[verifier::external_body]
fn build_request(builder: reqwest::blocking::RequestBuilder) -> (r: Result<reqwest::blocking::Request, reqwest::Error>)
    ensures
        match r {
            Ok(q) => builder_request(builder) == Some(request_view(q)),
            Err(_) => builder_request(builder) is None,
        },
{
    builder.build()
}

/// `Request::method`, as the text of `Method::as_str`.
#[verifier::external_body]
fn request_method(request: &reqwest::blocking::Request) -> (r: String)
    ensures
        r@ == request_view(*request).method,
{
    request.method().as_str().to_string()
}

/// `Request::url`, as the text of `Url::as_str`.
#[verifier::external_body]
fn request_url(request: &reqwest::blocking::Request) -> (r: String)
    ensures
        r@ == request_view(*request).url,
{
    request.url().as_str().to_string()
}

/// `Request::headers`, in the order in which `HeaderMap::iter` yields them,
/// each name as `HeaderName::as_str` and each value as
/// `HeaderValue::as_bytes`.
#[verifier::external_body]
fn request_headers(request: &reqwest::blocking::Request) -> (r: Vec<HeaderEntry>)
    ensures
        header_views(r@) == request_view(*request).headers,
{
    let mut out = Vec::new();
    for (name, value) in request.headers().iter() {
        out.push(HeaderEntry { name: name.as_str().to_string(), value: value.as_bytes().to_vec() });
    }
    out
}

/// `Request::body` followed by `Body::as_bytes`: the body where it is held in
/// memory.
#[verifier::external_body]
fn request_body(request: &reqwest::blocking::Request) -> (r: Option<Vec<u8>>)
    ensures
        match r {
            Some(b) => request_view(*request).body == Some(b@),
            None => request_view(*request).body is None,
        },
{
    match request.body() {
        Some(body) => body.as_bytes().map(|b| b.to_vec()),
        None => None,
    }
}

/// Writes the `curl` command that sends `request`: `NotClonable` where the
/// builder holds an error or a body that cannot be cloned (a stream);
/// otherwise the command of [`curl_from_parts`] for the method, URL, headers
/// and in-memory body of the request that the builder holds.
pub fn to_curl(request: &reqwest::blocking::RequestBuilder) -> (r: Result<String, CurlError>)
    ensures
        !(builder_clonable(*request) && builder_request(*request) is Some) ==> r == Err::<
            String,
            CurlError,
        >(CurlError::NotClonable),
        (builder_clonable(*request) && builder_request(*request) is Some) ==> match r {
            Ok(s) => curl_command(builder_request(*request)->Some_0) == Ok::<Seq<char>, CurlError>(s@),
            Err(e) => curl_command(builder_request(*request)->Some_0) == Err::<Seq<char>, CurlError>(e),
        },
{
    let copy = match clone_builder(request) {
        Some(c) => c,
        None => return Err(CurlError::NotClonable),
    };
    let built = match build_request(copy) {
        Ok(b) => b,
        Err(_) => return Err(CurlError::Build),
    };
    let parts = RequestParts {
        method: request_method(&built),
        url: request_url(&built),
        headers: request_headers(&built),
        body: request_body(&built),
    };
    assert(parts@ == request_view(built));
    curl_from_parts(&parts)
}

/// What precedes the request's fields in the debug text of a builder.
pub const REQUEST_MARKER: &'static str = "Ok(Request ";

/// Finds the method in the debug text.
pub const METHOD_PATTERN: &'static str = r"method[:] (\w+)";

/// Finds the URL's scheme in the debug text.
pub const SCHEME_PATTERN: &'static str = r#"scheme[:] "(\w+)""#;

/// Finds the URL's host in the debug text.
pub const HOST_PATTERN: &'static str = r#"host[:] Some[(]\w+[(]["]?([^"()]+)"#;

/// Finds the URL's path in the debug text.
pub const PATH_PATTERN: &'static str = r#"path[:] ["]?([^"()]+)"#;

/// Finds the URL's query in the debug text.
pub const QUERY_PATTERN: &'static str = r#"query: Some[(]["]?([^"()]+)"#;

/// The header that every multipart command sends.
pub const MULTIPART_CONTENT_TYPE: &'static str = "Content-type: multipart/form-data";

/// The text of a capture group that must be there.
pub open spec fn required_group(c: Option<GroupOutcome>) -> Option<Seq<char>> {
    match c {
        Some(GroupOutcome::Group(s)) => Some(s),
        _ => None,
    }
}

/// The text of a capture group that may be missing: empty where the pattern
/// does not match.
pub open spec fn optional_group(c: Option<GroupOutcome>) -> Option<Seq<char>> {
    match c {
        Some(GroupOutcome::Group(s)) => Some(s),
        Some(GroupOutcome::NoMatch) => Some(Seq::empty()),
        _ => None,
    }
}

/// The URL assembled from its scheme, host, path and query; the `?` stands
/// there exactly when the query is not empty.
pub open spec fn url_text(scheme: Seq<char>, host: Seq<char>, path: Seq<char>, query: Seq<char>) -> Seq<char> {
    scheme + "://"@ + host + path + (if query.len() > 0 {
        "?"@
    } else {
        Seq::empty()
    }) + query
}

/// For each pair, the word `flag` and the quoted text `key SEP value`.
pub open spec fn flagged_pairs(flag: Seq<char>, sep: Seq<char>, pairs: Seq<(Seq<char>, Seq<char>)>) -> Seq<
    Seq<char>,
>
    decreases pairs.len(),
{
    if pairs.len() == 0 {
        Seq::empty()
    } else {
        flagged_pairs(flag, sep, pairs.drop_last()) + seq![
            flag,
            quoted(pairs.last().0 + sep + pairs.last().1),
        ]
    }
}

/// `--user "credentials"` where there are credentials.
pub open spec fn credential_words(credentials: Option<Seq<char>>) -> Seq<Seq<char>> {
    match credentials {
        Some(c) => seq!["--user"@, quoted(c)],
        None => Seq::empty(),
    }
}

/// The words of a multipart command.
pub open spec fn multipart_words(
    method: Seq<char>,
    url: Seq<char>,
    credentials: Option<Seq<char>>,
    form: Seq<(Seq<char>, Seq<char>)>,
) -> Seq<Seq<char>> {
    command_head(method, url) + credential_words(credentials) + seq!["-H"@, quoted(MULTIPART_CONTENT_TYPE@)]
        + flagged_pairs("-F"@, "="@, form)
}

/// The request's fields in a builder's debug text: what follows the first
/// [`REQUEST_MARKER`].
pub open spec fn request_fields(debug: Seq<char>) -> Option<Seq<char>> {
    match find_first(debug, REQUEST_MARKER@) {
        Some(start) => Some(debug.subrange(start + REQUEST_MARKER@.len(), debug.len() as int)),
        None => None,
    }
}

/// The multipart `curl` command read from a builder's debug text, or `None`
/// where the text lacks the request, its method, scheme, host or path, or a
/// pattern does not compile.
pub open spec fn multipart_command(
    debug: Seq<char>,
    form: Seq<(Seq<char>, Seq<char>)>,
    credentials: Option<Seq<char>>,
) -> Option<Seq<char>> {
    match request_fields(debug) {
        None => None,
        Some(rest) => {
            let method = required_group(regex_first_group(METHOD_PATTERN@, rest));
            let scheme = required_group(regex_first_group(SCHEME_PATTERN@, rest));
            let host = required_group(regex_first_group(HOST_PATTERN@, rest));
            let path = required_group(regex_first_group(PATH_PATTERN@, rest));
            let query = optional_group(regex_first_group(QUERY_PATTERN@, rest));
            if method is Some && scheme is Some && host is Some && path is Some && query is Some {
                Some(
                    join_spaces(
                        multipart_words(
                            method.unwrap(),
                            url_text(scheme.unwrap(), host.unwrap(), path.unwrap(), query.unwrap()),
                            credentials,
                            form,
                        ),
                    ),
                )
            } else {
                None
            }
        },
    }
}

/// The views of character-vector pairs.
pub open spec fn char_pairs(v: Seq<(Vec<char>, Vec<char>)>) -> Seq<(Seq<char>, Seq<char>)> {
    Seq::new(v.len(), |i: int| (v[i].0@, v[i].1@))
}

/// The views of string-slice pairs.
pub open spec fn str_pairs(v: Seq<(&str, &str)>) -> Seq<(Seq<char>, Seq<char>)> {
    Seq::new(v.len(), |i: int| (v[i].0@, v[i].1@))
}

/// The view of an optional string slice.
pub open spec fn opt_str_view(s: Option<&str>) -> Option<Seq<char>> {
    match s {
        Some(t) => Some(t@),
        None => None,
    }
}

/// Appends, for each pair, `flag` and the quoted `key SEP value`.
fn push_flagged_pairs(
    words: &mut Vec<Vec<char>>,
    flag: &Vec<char>,
    sep: &Vec<char>,
    pairs: &Vec<(Vec<char>, Vec<char>)>,
)
    ensures
        views(final(words)@) == views(old(words)@) + flagged_pairs(flag@, sep@, char_pairs(pairs@)),
{
    let ghost before = views(words@);
    let mut i: usize = 0;
    while i < pairs.len()
        invariant
            i <= pairs.len(),
            views(words@) == before + flagged_pairs(flag@, sep@, char_pairs(pairs@).take(i as int)),
        decreases pairs.len() - i,
    {
        let mut line = copy_chars(&pairs[i].0);
        push_all(&mut line, sep);
        push_all(&mut line, &pairs[i].1);
        push_word(words, copy_chars(flag));
        push_word(words, quote_chars(&line));
        assert(char_pairs(pairs@).take(i + 1).drop_last() == char_pairs(pairs@).take(i as int));
        assert(views(words@) =~= before + flagged_pairs(flag@, sep@, char_pairs(pairs@).take(i + 1)));
        i += 1;
    }
    assert(char_pairs(pairs@).take(pairs.len() as int) == char_pairs(pairs@));
}

/// The text of a capture group that must be there.
fn required(c: Result<FirstGroup, regex::Error>) -> (r: Option<String>)
    ensures
        opt_view(r) == required_group(
            match c {
                Ok(k) => Some(k@),
                Err(_) => None,
            },
        ),
{
    match c {
        Ok(FirstGroup::Group(s)) => Some(s),
        _ => None,
    }
}

/// Writes the multipart `curl` command for a builder given by its debug text:
/// `curl -X METHOD "URL"`, `--user "credentials"` where there are any, the
/// multipart content type as the only header, and `-F "key=value"` for each
/// form part, separated by single spaces. The method and the URL's scheme,
/// host, path and query are read from the debug text; the request's own
/// headers are not. `None` where the debug text lacks what the command needs.
pub fn curl_multipart_from_debug(debug: &str, form: &[(&str, &str)], credentials: Option<&str>) -> (r: Option<String>)
    ensures
        opt_view(r) == multipart_command(debug@, str_pairs(form@), opt_str_view(credentials)),
{
    let text = chars_of(debug);
    let marker = chars_of(REQUEST_MARKER);
    let start = match find_chars(&text, &marker) {
        Some(s) => s,
        None => return None,
    };
    proof {
        lemma_find_from(text@, marker@, 0);
        assert(occurs_at(text@, marker@, start as int));
    }
    let text_len: usize = text.len();
    let skip: usize = marker.len();
    assert(start + skip <= text_len);
    let rest_chars = sub_vec(&text, start + skip, text_len);
    let rest = string_from_chars(&rest_chars);
    let ghost fields = rest@;
    assert(request_fields(debug@) == Some(fields));
    let method = required(first_group(METHOD_PATTERN, rest.as_str()));
    let scheme = required(first_group(SCHEME_PATTERN, rest.as_str()));
    let host = required(first_group(HOST_PATTERN, rest.as_str()));
    let path = required(first_group(PATH_PATTERN, rest.as_str()));
    let query = match first_group(QUERY_PATTERN, rest.as_str()) {
        Ok(FirstGroup::Group(q)) => chars_of(q.as_str()),
        Ok(FirstGroup::NoMatch) => Vec::new(),
        _ => return None,
    };
    let (method, scheme, host, path) = match (method, scheme, host, path) {
        (Some(m), Some(s), Some(h), Some(p)) => (m, s, h, p),
        _ => return None,
    };
    let mut url = chars_of(scheme.as_str());
    push_all(&mut url, &chars_of("://"));
    push_all(&mut url, &chars_of(host.as_str()));
    push_all(&mut url, &chars_of(path.as_str()));
    if query.len() > 0 {
        push_all(&mut url, &chars_of("?"));
    }
    push_all(&mut url, &query);
    assert(url@ =~= url_text(scheme@, host@, path@, query@));
    let mut words: Vec<Vec<char>> = Vec::new();
    push_word(&mut words, chars_of("curl"));
    push_word(&mut words, chars_of("-X"));
    push_word(&mut words, chars_of(method.as_str()));
    push_word(&mut words, quote_chars(&url));
    match credentials {
        Some(c) => {
            push_word(&mut words, chars_of("--user"));
            push_word(&mut words, quote_chars(&chars_of(c)));
        },
        None => {},
    }
    push_word(&mut words, chars_of("-H"));
    push_word(&mut words, quote_chars(&chars_of(MULTIPART_CONTENT_TYPE)));
    assert(views(words@) =~= command_head(method@, url@) + credential_words(opt_str_view(credentials))
        + seq!["-H"@, quoted(MULTIPART_CONTENT_TYPE@)]);
    let mut form_pairs: Vec<(Vec<char>, Vec<char>)> = Vec::new();
    let mut i: usize = 0;
    while i < form.len()
        invariant
            i <= form.len(),
            char_pairs(form_pairs@) == str_pairs(form@).take(i as int),
        decreases form.len() - i,
    {
        let (key, value) = form[i];
        let ghost before = char_pairs(form_pairs@);
        form_pairs.push((chars_of(key), chars_of(value)));
        assert(char_pairs(form_pairs@) =~= before.push((key@, value@)));
        assert(str_pairs(form@).take(i + 1) =~= str_pairs(form@).take(i as int).push((key@, value@)));
        i += 1;
    }
    assert(str_pairs(form@).take(form.len() as int) == str_pairs(form@));
    push_flagged_pairs(&mut words, &chars_of("-F"), &chars_of("="), &form_pairs);
    let out = join_chars(&words);
    Some(string_from_chars(&out))
}

/// The text of a builder's derived `Debug`.
pub uninterp spec fn builder_debug(b: reqwest::blocking::RequestBuilder) -> Seq<char>;

/// `format!("{:?}", ..)` of a builder, through `RequestBuilder`'s derived
/// `Debug`: the named function of the builder.
#[verifier::external_body]
fn builder_debug_text(request: &reqwest::blocking::RequestBuilder) -> (r: String)
    ensures
        r@ == builder_debug(*request),
{
    format!("{:?}", request)
}

/// Writes the multipart `curl` command for `request` from its debug text, as
/// [`curl_multipart_from_debug`] does; the form parts and credentials are
/// given, since the builder does not show them.
pub fn to_curl_multipart(
    request: &reqwest::blocking::RequestBuilder,
    form: &[(&str, &str)],
    credentials: Option<&str>,
) -> (r: Option<String>)
    ensures
        opt_view(r) == multipart_command(builder_debug(*request), str_pairs(form@), opt_str_view(credentials)),
{
    let debug = builder_debug_text(request);
    curl_multipart_from_debug(debug.as_str(), form, credentials)
}

/// Every command that [`curl_from_parts`] writes begins with
/// `curl -X METHOD "URL"` for the request's method and URL.
pub proof fn lemma_command_begins_with_head(p: RequestView)
    requires
        curl_command(p) is Ok,
    ensures
        join_spaces(command_head(p.method, p.url)).len() <= curl_command(p)->Ok_0.len(),
        curl_command(p)->Ok_0.subrange(0, join_spaces(command_head(p.method, p.url)).len() as int)
            == join_spaces(command_head(p.method, p.url)),
{
    let head = command_head(p.method, p.url);
    let h = headers_words(p.headers)->Ok_0;
    let b = body_words(p.body)->Ok_0;
    assert(head + h + b == head + (h + b));
    lemma_join_prefix(head, h + b);
}

/// Every command that [`curl_multipart_from_debug`] writes begins with
/// `curl -X METHOD "URL"` for the method and URL read from the debug text.
pub proof fn lemma_multipart_begins_with_head(
    method: Seq<char>,
    url: Seq<char>,
    credentials: Option<Seq<char>>,
    form: Seq<(Seq<char>, Seq<char>)>,
)
    ensures
        join_spaces(command_head(method, url)).len() <= join_spaces(
            multipart_words(method, url, credentials, form),
        ).len(),
        join_spaces(multipart_words(method, url, credentials, form)).subrange(
            0,
            join_spaces(command_head(method, url)).len() as int,
        ) == join_spaces(command_head(method, url)),
{
    let head = command_head(method, url);
    let rest = credential_words(credentials) + seq!["-H"@, quoted(MULTIPART_CONTENT_TYPE@)]
        + flagged_pairs("-F"@, "="@, form);
    assert(multipart_words(method, url, credentials, form) =~= head + rest);
    lemma_join_prefix(head, rest);
}

/// A request without headers or body is written as `curl -X METHOD "URL"`
/// and nothing more.
pub proof fn lemma_bare_request_command(method: Seq<char>, url: Seq<char>)
    ensures
        curl_command(RequestView { method, url, headers: Seq::empty(), body: None }) == Ok::<
            Seq<char>,
            CurlError,
        >(join_spaces(command_head(method, url))),
{
    let head = command_head(method, url);
    assert(head + Seq::<Seq<char>>::empty() + Seq::<Seq<char>>::empty() == head);
}

/// Whether a header can be written: an authorization value must hold
/// decodable credentials, any other value must be text.
pub open spec fn header_writable(name: Seq<char>, value: Seq<u8>) -> bool {
    if is_authorization(name) {
        authorization_credentials(value) is Some
    } else {
        header_value_text(value) is Some
    }
}

/// The flag word written for a header.
pub open spec fn header_flag(name: Seq<char>) -> Seq<char> {
    if is_authorization(name) {
        "--user"@
    } else {
        "-H"@
    }
}

/// The quoted word written after a header's flag.
pub open spec fn header_argument(name: Seq<char>, value: Seq<u8>) -> Seq<char> {
    if is_authorization(name) {
        quoted(authorization_credentials(value)->Some_0)
    } else {
        quoted(name + ": "@ + header_value_text(value)->Some_0)
    }
}

/// The header words are one flag and one argument per header, for every
/// header and in order; they exist exactly when every header is writable.
proof fn lemma_headers_words_shape(hs: Seq<(Seq<char>, Seq<u8>)>)
    ensures
        headers_words(hs) is Ok <==> forall|i: int| 0 <= i < hs.len() ==> header_writable(#[trigger] hs[i].0, hs[i].1),
        headers_words(hs) is Ok ==> headers_words(hs)->Ok_0.len() == 2 * hs.len(),
        headers_words(hs) is Ok ==> forall|i: int|
            #![trigger hs[i]]
            0 <= i < hs.len() ==> headers_words(hs)->Ok_0[2 * i] == header_flag(hs[i].0) && headers_words(
                hs,
            )->Ok_0[2 * i + 1] == header_argument(hs[i].0, hs[i].1),
    decreases hs.len(),
{
    if hs.len() > 0 {
        let prev = hs.drop_last();
        lemma_headers_words_shape(prev);
        assert(forall|i: int| 0 <= i < prev.len() ==> #[trigger] prev[i] == hs[i]);
        let last = hs.last();
        assert(hs[hs.len() - 1] == last);
        if headers_words(hs) is Ok {
            let a = headers_words(prev)->Ok_0;
            let w = headers_words(hs)->Ok_0;
            assert forall|i: int| #![trigger hs[i]] 0 <= i < hs.len() implies w[2 * i] == header_flag(hs[i].0)
                && w[2 * i + 1] == header_argument(hs[i].0, hs[i].1) by {
                if i < prev.len() {
                    assert(prev[i] == hs[i]);
                }
            }
        }
        if forall|i: int| 0 <= i < hs.len() ==> header_writable(#[trigger] hs[i].0, hs[i].1) {
            assert(forall|i: int| 0 <= i < prev.len() ==> header_writable(#[trigger] prev[i].0, prev[i].1));
            assert(header_writable(hs[hs.len() - 1].0, hs[hs.len() - 1].1));
        }
        if headers_words(hs) is Ok {
            assert forall|i: int| 0 <= i < hs.len() implies header_writable(#[trigger] hs[i].0, hs[i].1) by {
                if i < prev.len() {
                    assert(prev[i] == hs[i]);
                    assert(header_writable(prev[i].0, prev[i].1));
                }
            }
        }
    }
}

/// Every header of the request is written, in order: the command is
/// `curl -X METHOD "URL"`, then for each header its flag (`--user` for the
/// authorization, `-H` otherwise) and its quoted argument (the decoded
/// credentials, or `name: value`), then `-d 'body'` where there is a body.
/// A command is written exactly when every header is writable and the body,
/// if any, is UTF-8.
pub proof fn lemma_curl_command_writes_every_header(p: RequestView)
    ensures
        curl_command(p) is Ok <==> (forall|i: int|
            0 <= i < p.headers.len() ==> header_writable(#[trigger] p.headers[i].0, p.headers[i].1)) && (
        p.body matches Some(b) ==> valid_utf8(b)),
        curl_command(p) is Ok ==> exists|w: Seq<Seq<char>>, d: Seq<Seq<char>>|
            {
                &&& curl_command(p)->Ok_0 == join_spaces(seq!["curl"@, "-X"@, p.method, quoted(p.url)] + w + d)
                &&& w.len() == 2 * p.headers.len()
                &&& forall|i: int|
                    #![trigger p.headers[i]]
                    0 <= i < p.headers.len() ==> w[2 * i] == header_flag(p.headers[i].0) && w[2 * i + 1]
                        == header_argument(p.headers[i].0, p.headers[i].1)
                &&& p.body is None ==> d.len() == 0
                &&& p.body matches Some(b) ==> d == seq!["-d"@, seq!['\''] + decode_utf8(b) + seq!['\'']]
            },
{
    lemma_headers_words_shape(p.headers);
    if curl_command(p) is Ok {
        let w = headers_words(p.headers)->Ok_0;
        let d = body_words(p.body)->Ok_0;
        assert(curl_command(p)->Ok_0 == join_spaces(seq!["curl"@, "-X"@, p.method, quoted(p.url)] + w + d));
    }
}

/// The flagged words are one flag and one quoted `key SEP value` per pair,
/// for every pair and in order.
pub proof fn lemma_flagged_pairs_shape(flag: Seq<char>, sep: Seq<char>, pairs: Seq<(Seq<char>, Seq<char>)>)
    ensures
        flagged_pairs(flag, sep, pairs).len() == 2 * pairs.len(),
        forall|i: int| 0 <= i < pairs.len() ==> #[trigger] flagged_pairs(flag, sep, pairs)[2 * i] == flag,
        forall|i: int|
            0 <= i < pairs.len() ==> #[trigger] flagged_pairs(flag, sep, pairs)[2 * i + 1] == quoted(
                pairs[i].0 + sep + pairs[i].1,
            ),
    decreases pairs.len(),
{
    if pairs.len() > 0 {
        let prev = pairs.drop_last();
        lemma_flagged_pairs_shape(flag, sep, prev);
        let w = flagged_pairs(flag, sep, pairs);
        let a = flagged_pairs(flag, sep, prev);
        let tail = seq![flag, quoted(pairs.last().0 + sep + pairs.last().1)];
        assert(w == a + tail);
        assert forall|i: int| 0 <= i < pairs.len() implies #[trigger] w[2 * i] == flag by {
            if i < prev.len() {
                assert(a[2 * i] == flag);
            } else {
                assert(w[2 * i] == tail[0]);
            }
        }
        assert forall|i: int| 0 <= i < pairs.len() implies #[trigger] w[2 * i + 1] == quoted(
            pairs[i].0 + sep + pairs[i].1,
        ) by {
            if i < prev.len() {
                assert(prev[i] == pairs[i]);
                assert(a[2 * i + 1] == quoted(prev[i].0 + sep + prev[i].1));
            } else {
                assert(pairs.last() == pairs[i]);
                assert(w[2 * i + 1] == tail[1]);
            }
        }
    }
}

/// A multipart command ends with one `-F "key=value"` per form part, for
/// every part (repeated keys included) and in order, after
/// `curl -X METHOD "URL"`, `--user "credentials"` where credentials are
/// given, and the multipart content type.
pub proof fn lemma_multipart_writes_every_part(
    debug: Seq<char>,
    form: Seq<(Seq<char>, Seq<char>)>,
    credentials: Option<Seq<char>>,
)
    ensures
        multipart_command(debug, form, credentials) matches Some(s) ==> exists|
            method: Seq<char>,
            url: Seq<char>,
            f: Seq<Seq<char>>,
        |
            {
                &&& s == join_spaces(
                    seq!["curl"@, "-X"@, method, quoted(url)] + (match credentials {
                        Some(c) => seq!["--user"@, quoted(c)],
                        None => Seq::empty(),
                    }) + seq!["-H"@, quoted(MULTIPART_CONTENT_TYPE@)] + f,
                )
                &&& f.len() == 2 * form.len()
                &&& forall|i: int|
                    #![trigger form[i]]
                    0 <= i < form.len() ==> f[2 * i] == "-F"@ && f[2 * i + 1] == quoted(
                        form[i].0 + "="@ + form[i].1,
                    )
            },
{
    lemma_flagged_pairs_shape("-F"@, "="@, form);
    if multipart_command(debug, form, credentials) is Some {
        let rest = request_fields(debug)->Some_0;
        let method = required_group(regex_first_group(METHOD_PATTERN@, rest))->Some_0;
        let url = url_text(
            required_group(regex_first_group(SCHEME_PATTERN@, rest))->Some_0,
            required_group(regex_first_group(HOST_PATTERN@, rest))->Some_0,
            required_group(regex_first_group(PATH_PATTERN@, rest))->Some_0,
            optional_group(regex_first_group(QUERY_PATTERN@, rest))->Some_0,
        );
        let f = flagged_pairs("-F"@, "="@, form);
        assert(multipart_command(debug, form, credentials) == Some(
            join_spaces(multipart_words(method, url, credentials, form)),
        ));
        assert(multipart_words(method, url, credentials, form) == seq!["curl"@, "-X"@, method, quoted(url)]
            + (match credentials {
            Some(c) => seq!["--user"@, quoted(c)],
            None => Seq::empty(),
        }) + seq!["-H"@, quoted(MULTIPART_CONTENT_TYPE@)] + f);
    }
}

/// Credentials and form parts relate calls on the same debug text: the
/// command with credentials `c` is the one without, with `--user "c"`
/// right after the quoted URL, and either succeeds exactly when the other
/// does.
pub proof fn lemma_multipart_credentials_insert(debug: Seq<char>, form: Seq<(Seq<char>, Seq<char>)>, c: Seq<char>)
    ensures
        multipart_command(debug, form, Some(c)) is Some <==> multipart_command(debug, form, None) is Some,
        multipart_command(debug, form, None) is Some ==> exists|head: Seq<Seq<char>>, tail: Seq<Seq<char>>|
            {
                &&& head.len() == 4
                &&& multipart_command(debug, form, None) == Some(join_spaces(head + tail))
                &&& multipart_command(debug, form, Some(c)) == Some(
                    join_spaces(head + seq!["--user"@, quoted(c)] + tail),
                )
            },
{
    if multipart_command(debug, form, None) is Some {
        let rest = request_fields(debug)->Some_0;
        let method = required_group(regex_first_group(METHOD_PATTERN@, rest))->Some_0;
        let url = url_text(
            required_group(regex_first_group(SCHEME_PATTERN@, rest))->Some_0,
            required_group(regex_first_group(HOST_PATTERN@, rest))->Some_0,
            required_group(regex_first_group(PATH_PATTERN@, rest))->Some_0,
            optional_group(regex_first_group(QUERY_PATTERN@, rest))->Some_0,
        );
        let head = command_head(method, url);
        let tail = seq!["-H"@, quoted(MULTIPART_CONTENT_TYPE@)] + flagged_pairs("-F"@, "="@, form);
        assert(multipart_words(method, url, None, form) =~= head + tail);
        assert(multipart_words(method, url, Some(c), form) =~= head + seq!["--user"@, quoted(c)] + tail);
    }
}

} // verus!
