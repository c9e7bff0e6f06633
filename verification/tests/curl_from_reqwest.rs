use myrustutils::curl_from_reqwest::{curl_from_parts, curl_multipart_from_debug, to_curl_multipart, CurlError, HeaderEntry, RequestParts};
use myrustutils::to_curl;
use reqwest::blocking::Client;
use reqwest::header::ACCEPT;
use reqwest::Url;

#[test]
fn simple_get_to_curl() {
    let client = Client::new();

    let url = Url::parse("http://example.com/").unwrap();
    let request = client.get(url);
    let result = to_curl(&request).unwrap();
    assert_eq!(result, "curl -X GET \"http://example.com/\"");
}

#[test]
fn create_url() {
    assert_eq!(myrustutils::create_url(&["http://a", "b"]).unwrap().as_str(), "http://a/b");
    assert_eq!(myrustutils::create_url(&["http://a/", "/b"]).unwrap().as_str(), "http://a/b");
    assert_eq!(myrustutils::create_url(&["http://a", "b/"]).unwrap().as_str(), "http://a/b/");
    assert_eq!(myrustutils::create_url(&["http://a", "b/"]).unwrap().as_str(), "http://a/b/");
    assert_eq!(myrustutils::create_url(&["http://a", "/b/"]).unwrap().as_str(), "http://a/b/");
    assert_eq!(myrustutils::create_url(&["http://a//", "///b///"]).unwrap().as_str(), "http://a/b/");
    // urls with only hostname always have trailing slash
    assert_eq!(myrustutils::create_url(&["http://a"]).unwrap().as_str(), "http://a/");
}

#[test]
fn create_url_with_more_parts() {
    assert_eq!(
        myrustutils::create_url(&["http://example.com/api", "workspace", "test1"]).unwrap(),
        "http://example.com/api/workspace/test1"
    );
    assert_eq!(
        myrustutils::create_url(&["http://example.com/api/", "/workspace/", "test1/"]).unwrap(),
        "http://example.com/api/workspace/test1/"
    );
}

#[test]
fn create_url_rejects_a_bad_base() {
    assert_eq!(myrustutils::create_url(&["not a url", "b"]), None);
}

fn parts(method: &str, url: &str, headers: Vec<(&str, &[u8])>, body: Option<&[u8]>) -> RequestParts {
    RequestParts {
        method: method.to_string(),
        url: url.to_string(),
        headers: headers
            .into_iter()
            .map(|(n, v)| HeaderEntry { name: n.to_string(), value: v.to_vec() })
            .collect(),
        body: body.map(|b| b.to_vec()),
    }
}

#[test]
fn parts_with_header_and_credentials() {
    let p = parts(
        "GET",
        "http://example.com/api/admin/import-status?username=admin&page=0&limit=2",
        vec![("accept", b"application/json"), ("authorization", b"Basic YWRtaW46c2VjcmV0")],
        None,
    );
    assert_eq!(
        curl_from_parts(&p).unwrap(),
        "curl -X GET \"http://example.com/api/admin/import-status?username=admin&page=0&limit=2\" -H \"accept: application/json\" --user \"admin:secret\""
    );
}

#[test]
fn parts_authorization_name_ignores_case() {
    let p = parts("GET", "http://a/", vec![("Authorization", b"Basic b2NyZDpzZWNyZXQ=")], None);
    assert_eq!(curl_from_parts(&p).unwrap(), "curl -X GET \"http://a/\" --user \"ocrd:secret\"");
}

#[test]
fn parts_with_body() {
    let body: &[u8] = b"{\"workspace-id\": \"test1\"}";
    let p = parts("POST", "http://example.com/workflow", vec![], Some(body));
    assert_eq!(
        curl_from_parts(&p).unwrap(),
        "curl -X POST \"http://example.com/workflow\" -d '{\"workspace-id\": \"test1\"}'"
    );
}

#[test]
fn parts_header_value_not_text() {
    let p = parts("GET", "http://a/", vec![("x-data", b"\x01bad")], None);
    assert_eq!(curl_from_parts(&p), Err(CurlError::HeaderNotText));
}

#[test]
fn parts_tab_is_header_text() {
    let p = parts("GET", "http://a/", vec![("x-data", b"a\tb")], None);
    assert_eq!(curl_from_parts(&p).unwrap(), "curl -X GET \"http://a/\" -H \"x-data: a\tb\"");
}

#[test]
fn parts_authorization_not_base64() {
    let p = parts("GET", "http://a/", vec![("authorization", b"Basic !!!!")], None);
    assert_eq!(curl_from_parts(&p), Err(CurlError::AuthorizationNotDecodable));
}

#[test]
fn parts_authorization_too_short() {
    let p = parts("GET", "http://a/", vec![("authorization", b"Basic")], None);
    assert_eq!(curl_from_parts(&p), Err(CurlError::AuthorizationNotDecodable));
}

#[test]
fn parts_first_failing_header_decides() {
    let p = parts(
        "GET",
        "http://a/",
        vec![("x-data", b"\x01"), ("authorization", b"Basic !!!!")],
        None,
    );
    assert_eq!(curl_from_parts(&p), Err(CurlError::HeaderNotText));
}

#[test]
fn parts_body_not_utf8() {
    let body: &[u8] = b"\xff\xfe";
    let p = parts("POST", "http://a/", vec![], Some(body));
    assert_eq!(curl_from_parts(&p), Err(CurlError::BodyNotText));
}

#[test]
fn get_with_header_query_and_auth_to_curl() {
    let client = Client::new();
    let url = Url::parse("http://example.com/api/").unwrap().join("admin/import-status").unwrap();
    let request = client
        .get(url)
        .header(ACCEPT, "application/json")
        .query(&[("username", "admin"), ("page", "0"), ("limit", "2")])
        .basic_auth("admin", Some("secret"));
    assert_eq!(
        to_curl(&request).unwrap(),
        "curl -X GET \"http://example.com/api/admin/import-status?username=admin&page=0&limit=2\" -H \"accept: application/json\" --user \"admin:secret\""
    );
}

#[test]
fn post_with_body_to_curl() {
    let client = Client::new();
    let url = Url::parse("http://example.com/").unwrap().join("workflow").unwrap();
    let request = client.post(url).body("{\"a\": 1}").basic_auth("ocrd", Some("secret"));
    assert_eq!(
        to_curl(&request).unwrap(),
        "curl -X POST \"http://example.com/workflow\" --user \"ocrd:secret\" -d '{\"a\": 1}'"
    );
}

#[test]
fn streamed_body_is_not_clonable() {
    let client = Client::new();
    let request = client
        .post("http://example.com/")
        .body(reqwest::blocking::Body::new(std::io::empty()));
    assert_eq!(to_curl(&request), Err(CurlError::NotClonable));
}

#[test]
fn builder_error_cannot_be_cloned() {
    let client = Client::new();
    let request = client.get("not a url");
    assert_eq!(to_curl(&request), Err(CurlError::NotClonable));
}

const DEBUG_TEXT: &str = "RequestBuilder { client: Client { accepts: Accepts }, request: Ok(Request { method: POST, url: Url { scheme: \"http\", cannot_be_a_base: false, username: \"\", password: None, host: Some(Domain(\"example.com\")), port: None, path: \"/workspace/test1\", query: None, fragment: None }, headers: {\"content-type\": \"multipart/form-data; boundary=abc\", \"authorization\": Sensitive} }) }";

#[test]
fn multipart_from_debug_text() {
    assert_eq!(
        curl_multipart_from_debug(DEBUG_TEXT, &[("workspace", "@foo.zip")], Some("secret")).unwrap(),
        "curl -X POST \"http://example.com/workspace/test1\" --user \"secret\" -H \"Content-type: multipart/form-data\" -F \"workspace=@foo.zip\""
    );
}

#[test]
fn multipart_from_debug_text_with_query() {
    let text = "Ok(Request { method: GET, url: Url { scheme: \"https\", host: Some(Domain(\"h.org\")), port: None, path: \"/p\", query: Some(\"a=1&b=2\"), fragment: None }, headers: {\"accept\": \"*/*\"} })";
    assert_eq!(
        curl_multipart_from_debug(text, &[], None).unwrap(),
        "curl -X GET \"https://h.org/p?a=1&b=2\" -H \"Content-type: multipart/form-data\""
    );
}

#[test]
fn multipart_from_debug_text_without_request() {
    assert_eq!(curl_multipart_from_debug("Err(builder error)", &[], None), None);
}

#[test]
fn multipart_from_debug_text_without_path() {
    let text = "Ok(Request { method: GET, url: Url { scheme: \"http\", host: Some(Domain(\"a\")), query: None }, headers: {} })";
    assert_eq!(curl_multipart_from_debug(text, &[], None), None);
}

#[test]
fn multipart_with_several_form_parts() {
    let text = "Ok(Request { method: PUT, url: Url { scheme: \"http\", host: Some(Ipv4(127.0.0.1)), path: \"/up\", query: None }, headers: {} })";
    assert_eq!(
        curl_multipart_from_debug(text, &[("a", "1"), ("file", "@x.txt")], None).unwrap(),
        "curl -X PUT \"http://127.0.0.1/up\" -H \"Content-type: multipart/form-data\" -F \"a=1\" -F \"file=@x.txt\""
    );
}

#[test]
fn multipart_builder_to_curl() {
    let client = Client::new();
    let url = Url::parse("http://example.com/").unwrap().join("workspace/test1").unwrap();
    let request = client
        .post(url)
        .header("content-type", "multipart/form-data; boundary=xyz")
        .basic_auth("ocrd", Some("secret"));
    let command = to_curl_multipart(&request, &[("workspace", "@foo.zip")], Some("secret")).unwrap();
    assert_eq!(
        command,
        "curl -X POST \"http://example.com/workspace/test1\" --user \"secret\" -H \"Content-type: multipart/form-data\" -F \"workspace=@foo.zip\""
    );
}

#[test]
fn error_messages() {
    assert_eq!(CurlError::NotClonable.message(), "Request cannot be cloned");
    assert_eq!(CurlError::HeaderNotText.message(), "failed to convert header to a str");
    assert_eq!(CurlError::BodyNotText.message(), "body is not UTF-8 text");
}

#[test]
fn header_value_not_text_to_curl() {
    let client = Client::new();
    let request = client
        .get("http://example.com/")
        .header("x", reqwest::header::HeaderValue::from_bytes(b"\xe4").unwrap());
    assert_eq!(to_curl(&request), Err(CurlError::HeaderNotText));
}

#[test]
fn multipart_credentials_and_parts_across_calls() {
    let client = Client::new();
    let request = client.get("http://example.com/a?x=1");
    let plain = to_curl_multipart(&request, &[], None).unwrap();
    assert_eq!(plain, "curl -X GET \"http://example.com/a?x=1\" -H \"Content-type: multipart/form-data\"");
    let with_user = to_curl_multipart(&request, &[], Some("pw")).unwrap();
    assert_eq!(with_user, "curl -X GET \"http://example.com/a?x=1\" --user \"pw\" -H \"Content-type: multipart/form-data\"");
    let with_parts = to_curl_multipart(&request, &[("k", "v"), ("f", "@g")], None).unwrap();
    assert_eq!(with_parts, format!("{} -F \"k=v\" -F \"f=@g\"", plain));
}
