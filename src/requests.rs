use vstd::prelude::*;
use crate::response::{
    fallback_body, find_content, find_page, get_http_static, get_response, response_for,
    serialize_response, status_for_key, wire_response, Page,
};

verus! {

/// The request methods that the server accepts.
#[derive(Debug, Clone, Copy, PartialEq, Eq, Structural)]
pub enum HTTPRequest {
    GET,
    POST,
    PUT,
    PATCH,
    DELETE,
}

/// The method's token on the wire.
pub open spec fn method_name(m: HTTPRequest) -> Seq<char> {
    match m {
        HTTPRequest::GET => seq!['G', 'E', 'T'],
        HTTPRequest::POST => seq!['P', 'O', 'S', 'T'],
        HTTPRequest::PUT => seq!['P', 'U', 'T'],
        HTTPRequest::PATCH => seq!['P', 'A', 'T', 'C', 'H'],
        HTTPRequest::DELETE => seq!['D', 'E', 'L', 'E', 'T', 'E'],
    }
}

/// The methods in the order in which a request line is tried against them.
pub open spec fn method_order() -> Seq<HTTPRequest> {
    seq![
        HTTPRequest::GET,
        HTTPRequest::POST,
        HTTPRequest::PUT,
        HTTPRequest::PATCH,
        HTTPRequest::DELETE,
    ]
}

impl HTTPRequest {
    pub fn as_str(&self) -> (r: &str)
        ensures
            r@ == method_name(*self),
    {
        proof {
            reveal_strlit("GET");
            reveal_strlit("POST");
            reveal_strlit("PUT");
            reveal_strlit("PATCH");
            reveal_strlit("DELETE");
        }
        match self {
            HTTPRequest::GET => "GET",
            HTTPRequest::POST => "POST",
            HTTPRequest::PUT => "PUT",
            HTTPRequest::PATCH => "PATCH",
            HTTPRequest::DELETE => "DELETE",
        }
    }

    pub fn allowed_methods() -> (r: Vec<HTTPRequest>)
        ensures
            r@ == method_order(),
    {
        let r = vec![
            HTTPRequest::GET,
            HTTPRequest::POST,
            HTTPRequest::PUT,
            HTTPRequest::PATCH,
            HTTPRequest::DELETE,
        ];
        assert(r@ =~= method_order());
        r
    }
}

/// Whether `line` begins with the method's token followed by a space.
pub open spec fn starts_with_method(line: Seq<char>, m: HTTPRequest) -> bool {
    let n = method_name(m).len();
    line.len() > n && line.subrange(0, n as int) == method_name(m) && line[n as int] == ' '
}

/// The method whose token, followed by a space, begins `line`.
pub open spec fn request_method(line: Seq<char>) -> Option<HTTPRequest> {
    if starts_with_method(line, HTTPRequest::GET) {
        Some(HTTPRequest::GET)
    } else if starts_with_method(line, HTTPRequest::POST) {
        Some(HTTPRequest::POST)
    } else if starts_with_method(line, HTTPRequest::PUT) {
        Some(HTTPRequest::PUT)
    } else if starts_with_method(line, HTTPRequest::PATCH) {
        Some(HTTPRequest::PATCH)
    } else if starts_with_method(line, HTTPRequest::DELETE) {
        Some(HTTPRequest::DELETE)
    } else {
        None
    }
}

/// The protocol token that ends a request line, with the space before it.
pub open spec fn protocol_suffix() -> Seq<char> {
    seq![' ', 'H', 'T', 'T', 'P', '/', '1', '.', '1']
}

/// Unicode White_Space.
pub open spec fn is_whitespace(c: char) -> bool {
    ('\t' <= c && c <= '\r') || c == ' ' || c == '\u{85}' || c == '\u{a0}' || c == '\u{1680}'
        || ('\u{2000}' <= c && c <= '\u{200a}') || c == '\u{2028}' || c == '\u{2029}'
        || c == '\u{202f}' || c == '\u{205f}' || c == '\u{3000}'
}

/// The end of the run of characters other than whitespace that starts at `j`.
pub open spec fn run_end(line: Seq<char>, j: int) -> int
    decreases line.len() - j,
{
    if 0 <= j < line.len() && !is_whitespace(line[j]) {
        run_end(line, j + 1)
    } else {
        j
    }
}

/// Whether the protocol token stands at `j`, its `.` standing for any
/// character but a newline.
pub open spec fn protocol_at(line: Seq<char>, j: int) -> bool {
    &&& 0 <= j
    &&& j + 9 <= line.len()
    &&& line[j + 7] != '\n'
    &&& forall|k: int| 0 <= k < 9 && k != 7 ==> line[j + k] == #[trigger] protocol_suffix()[k]
}

/// The method and path of the pattern `<METHOD> <PATH> HTTP/1.1` matched at
/// position `i` of `line`: a method token and a space, a path made of a slash
/// and every following character up to the next whitespace, then the protocol token.
pub open spec fn match_at(line: Seq<char>, i: int) -> Option<(HTTPRequest, Seq<char>)> {
    if 0 <= i < line.len() {
        match request_method(line.subrange(i, line.len() as int)) {
            None => None,
            Some(m) => {
                let p0 = i + method_name(m).len() + 1;
                let e = run_end(line, p0);
                if p0 < line.len() && line[p0] == '/' && protocol_at(line, e) {
                    Some((m, line.subrange(p0, e)))
                } else {
                    None
                }
            },
        }
    } else {
        None
    }
}

/// The leftmost match of the request pattern at position `i` or later.
pub open spec fn search_from(line: Seq<char>, i: int) -> Option<(HTTPRequest, Seq<char>)>
    decreases line.len() - i,
{
    if 0 <= i < line.len() {
        match match_at(line, i) {
            Some(r) => Some(r),
            None => search_from(line, i + 1),
        }
    } else {
        None
    }
}

/// The method and path of the leftmost match of `<METHOD> <PATH> HTTP/1.1` in
/// `line`, or `None` when the line holds no such match.
pub open spec fn parse_request(line: Seq<char>) -> Option<(HTTPRequest, Seq<char>)> {
    search_from(line, 0)
}

/// The characters of `s` but its slashes.
pub open spec fn strip_slashes(s: Seq<char>) -> Seq<char>
    decreases s.len(),
{
    if s.len() == 0 {
        s
    } else if s.last() == '/' {
        strip_slashes(s.drop_last())
    } else {
        strip_slashes(s.drop_last()).push(s.last())
    }
}

/// The page that a path names: the path without slashes, or `index` when that is empty.
pub open spec fn endpoint_of(path: Seq<char>) -> Seq<char> {
    if strip_slashes(path).len() == 0 {
        "index"@
    } else {
        strip_slashes(path)
    }
}

/// The status key for a method: 201 for POST, 200 for the others.
pub open spec fn status_key(m: HTTPRequest) -> Seq<char> {
    if m == HTTPRequest::POST {
        "201"@
    } else {
        "200"@
    }
}

/// The body of the response to a line that is not a request: the page
/// `error_500`, or else the page `error_404`, or else the fixed fallback body.
pub open spec fn server_error_body(pages: Seq<Page>) -> Seq<char> {
    match find_page(pages, "error_500"@) {
        Some(c) => c,
        None => match find_page(pages, "error_404"@) {
            Some(c) => c,
            None => fallback_body(),
        },
    }
}

/// The full response to a request line, given the static pages.
pub open spec fn route(line: Seq<char>, pages: Seq<Page>) -> Seq<char> {
    match parse_request(line) {
        None => wire_response(
            status_for_key("500"@).0 as nat,
            status_for_key("500"@).1,
            server_error_body(pages),
        ),
        Some((m, path)) => response_for(status_for_key(status_key(m)), endpoint_of(path), pages),
    }
}

fn is_space(c: char) -> (r: bool)
    ensures
        r == is_whitespace(c),
{
    ('\t' <= c && c <= '\r') || c == ' ' || c == '\u{85}' || c == '\u{a0}' || c == '\u{1680}'
        || ('\u{2000}' <= c && c <= '\u{200a}') || c == '\u{2028}' || c == '\u{2029}'
        || c == '\u{202f}' || c == '\u{205f}' || c == '\u{3000}'
}

fn chars_of(s: &str) -> (r: Vec<char>)
    ensures
        r@ == s@,
{
    let n = s.unicode_len();
    let mut r: Vec<char> = Vec::new();
    let mut i: usize = 0;
    while i < n
        invariant
            n == s@.len(),
            i <= n,
            r@ == s@.subrange(0, i as int),
        decreases n - i,
    {
        r.push(s.get_char(i));
        i = i + 1;
        assert(r@ =~= s@.subrange(0, i as int));
    }
    assert(r@ =~= s@);
    r
}

/// Whether `m`'s token followed by a space stands at position `i`.
fn method_at(line: &Vec<char>, i: usize, m: HTTPRequest) -> (r: bool)
    requires
        i <= line@.len(),
    ensures
        r == starts_with_method(line@.subrange(i as int, line@.len() as int), m),
{
    let ghost rest = line@.subrange(i as int, line@.len() as int);
    let name = m.as_str();
    let n = name.unicode_len();
    let len = line.len();
    if len - i <= n {
        return false;
    }
    let mut j: usize = 0;
    while j < n
        invariant
            n == name@.len(),
            name@ == method_name(m),
            rest == line@.subrange(i as int, line@.len() as int),
            len == line@.len(),
            i <= line@.len(),
            rest.len() == line@.len() - i,
            rest.len() > n,
            j <= n,
            forall|k: int| 0 <= k < j ==> rest[k] == name@[k],
        decreases n - j,
    {
        assert(rest[j as int] == line@[i + j]);
        if line[i + j] != name.get_char(j) {
            assert(rest.subrange(0, n as int)[j as int] != name@[j as int]);
            return false;
        }
        j = j + 1;
    }
    assert(rest.subrange(0, n as int) =~= name@);
    line[i + n] == ' '
}

/// The method and the bounds of the path of the pattern matched at position `i`.
fn match_here(line: &Vec<char>, i: usize) -> (r: Option<(HTTPRequest, usize, usize)>)
    requires
        i < line@.len(),
    ensures
        match r {
            Some((m, p0, e)) => p0 <= e <= line@.len() && match_at(line@, i as int) == Some(
                (m, line@.subrange(p0 as int, e as int)),
            ),
            None => match_at(line@, i as int) is None,
        },
{
    let ghost rest = line@.subrange(i as int, line@.len() as int);
    let methods = HTTPRequest::allowed_methods();
    let mut k: usize = 0;
    let mut found: Option<HTTPRequest> = None;
    while k < methods.len() && found.is_none()
        invariant
            methods@ == method_order(),
            k <= methods@.len(),
            i < line@.len(),
            rest == line@.subrange(i as int, line@.len() as int),
            forall|j: int| 0 <= j < k && (found is None || j + 1 < k) ==> !starts_with_method(
                rest,
                #[trigger] methods@[j],
            ),
            match found {
                Some(m) => k >= 1 && m == methods@[k - 1] && starts_with_method(rest, m),
                None => true,
            },
        decreases methods@.len() - k,
    {
        if method_at(line, i, methods[k]) {
            found = Some(methods[k]);
        }
        k = k + 1;
    }
    let m = match found {
        None => {
            return None;
        },
        Some(m) => m,
    };
    assert(request_method(rest) == Some(m));
    let len = line.len();
    let p0 = i + m.as_str().unicode_len() + 1;
    if p0 >= len || line[p0] != '/' {
        return None;
    }
    let mut e = p0;
    while e < len && !is_space(line[e])
        invariant
            p0 <= e <= len,
            len == line@.len(),
            run_end(line@, p0 as int) == run_end(line@, e as int),
        decreases len - e,
    {
        e = e + 1;
    }
    assert(run_end(line@, e as int) == e as int);
    if len - e < 9 {
        return None;
    }
    let token = " HTTP/1.1";
    proof {
        reveal_strlit(" HTTP/1.1");
    }
    assert(token@ =~= protocol_suffix());
    let mut k: usize = 0;
    while k < 9
        invariant
            len == line@.len(),
            e + 9 <= len,
            token@ == protocol_suffix(),
            i < len,
            rest == line@.subrange(i as int, line@.len() as int),
            request_method(rest) == Some(m),
            p0 == i + method_name(m).len() + 1,
            p0 < len,
            line@[p0 as int] == '/',
            run_end(line@, p0 as int) == e as int,
            k <= 9,
            forall|j: int| 0 <= j < k && j != 7 ==> line@[e + j] == #[trigger] protocol_suffix()[j],
            k > 7 ==> line@[e + 7] != '\n',
        decreases 9 - k,
    {
        if k == 7 {
            if line[e + 7] == '\n' {
                return None;
            }
        } else if line[e + k] != token.get_char(k) {
            assert(line@[e + k] != protocol_suffix()[k as int]);
            assert(!protocol_at(line@, e as int));
            return None;
        }
        k = k + 1;
    }
    Some((m, p0, e))
}

/// Finds the leftmost match of `<METHOD> <PATH> HTTP/1.1` in a request line and
/// returns its method and path.
pub fn parse_request_line(line: &str) -> (r: Option<(HTTPRequest, String)>)
    ensures
        match r {
            Some((m, p)) => parse_request(line@) == Some((m, p@)),
            None => parse_request(line@) is None,
        },
{
    let chars = chars_of(line);
    let len = chars.len();
    let mut i: usize = 0;
    while i < len
        invariant
            len == chars@.len(),
            chars@ == line@,
            i <= len,
            search_from(line@, 0) == search_from(line@, i as int),
        decreases len - i,
    {
        match match_here(&chars, i) {
            Some((m, p0, e)) => {
                let path = line.substring_char(p0, e);
                return Some((m, String::from_str(path)));
            },
            None => {},
        }
        i = i + 1;
    }
    None
}

/// The page name for a path: the path without slashes, or `index` when nothing is left.
pub fn endpoint_name(path: &str) -> (r: String)
    ensures
        r@ == endpoint_of(path@),
{
    let n = path.unicode_len();
    let mut out = String::new();
    let mut i: usize = 0;
    while i < n
        invariant
            n == path@.len(),
            i <= n,
            out@ == strip_slashes(path@.subrange(0, i as int)),
        decreases n - i,
    {
        assert(path@.subrange(0, i + 1).drop_last() =~= path@.subrange(0, i as int));
        if path.get_char(i) != '/' {
            out.append(path.substring_char(i, i + 1));
        }
        assert(out@ =~= strip_slashes(path@.subrange(0, i + 1)));
        i = i + 1;
    }
    assert(path@.subrange(0, n as int) =~= path@);
    if out.unicode_len() == 0 {
        String::from_str("index")
    } else {
        out
    }
}

/// The page that a request line asks for: its endpoint, or `error_500` for a
/// line that is not a request. These, with `error_404`, are the only pages that
/// answering the line reads.
pub open spec fn page_for(line: Seq<char>) -> Seq<char> {
    match parse_request(line) {
        None => "error_500"@,
        Some((m, path)) => endpoint_of(path),
    }
}

/// The name of the page that answering `request_type` looks up first.
pub fn requested_page(request_type: &str) -> (r: String)
    ensures
        r@ == page_for(request_type@),
{
    match parse_request_line(request_type) {
        None => String::from_str("error_500"),
        Some((_, path)) => endpoint_name(path.as_str()),
    }
}

/// Answers one request line: the page that its path names under 200 (201 for
/// POST), 404 when that page is missing, and 500 for a line that is not a request.
pub fn process_request(request_type: &str, pages: &Vec<Page>) -> (r: String)
    ensures
        r@ == route(request_type@, pages@),
{
    match parse_request_line(request_type) {
        None => {
            let status = get_http_static("500");
            let body = match find_content(pages, "error_500") {
                Some(b) => b,
                None => match find_content(pages, "error_404") {
                    Some(b) => b,
                    None => String::from_str("No Resource(s) Found."),
                },
            };
            serialize_response(status.status_code, status.status_message.as_str(), body.as_str())
        },
        Some((method, path)) => {
            let key = if method == HTTPRequest::POST {
                "201"
            } else {
                "200"
            };
            let endpoint = endpoint_name(path.as_str());
            get_response(get_http_static(key), endpoint.as_str(), pages)
        },
    }
}

/// The request line for method `m` and path `/` followed by `e`.
pub open spec fn request_line(m: HTTPRequest, e: Seq<char>) -> Seq<char> {
    method_name(m) + seq![' ', '/'] + e + protocol_suffix()
}

/// Whether `e` can follow the leading slash of a path and name a page as it stands.
pub open spec fn is_page_name(e: Seq<char>) -> bool {
    forall|k: int| 0 <= k < e.len() ==> #[trigger] e[k] != '/' && !is_whitespace(e[k])
}

proof fn lemma_strip_concat(a: Seq<char>, b: Seq<char>)
    ensures
        strip_slashes(a + b) == strip_slashes(a) + strip_slashes(b),
    decreases b.len(),
{
    if b.len() == 0 {
        assert(a + b =~= a);
        assert(strip_slashes(a) + strip_slashes(b) =~= strip_slashes(a));
    } else {
        assert((a + b).drop_last() =~= a + b.drop_last());
        lemma_strip_concat(a, b.drop_last());
        if b.last() == '/' {
        } else {
            assert(strip_slashes(a + b) =~= strip_slashes(a) + strip_slashes(b));
        }
    }
}

proof fn lemma_strip_without_slashes(e: Seq<char>)
    requires
        forall|k: int| 0 <= k < e.len() ==> #[trigger] e[k] != '/',
    ensures
        strip_slashes(e) == e,
    decreases e.len(),
{
    if e.len() > 0 {
        let t = e.drop_last();
        assert(forall|k: int| 0 <= k < t.len() ==> #[trigger] t[k] == e[k]);
        lemma_strip_without_slashes(t);
        assert(t.push(e.last()) =~= e);
    }
}

proof fn lemma_method_prefix(m: HTTPRequest, rest: Seq<char>)
    requires
        rest.len() > 0,
        rest[0] == ' ',
    ensures
        request_method(method_name(m) + rest) == Some(m),
{
    let line = method_name(m) + rest;
    let n = method_name(m).len();
    assert(line.subrange(0, n as int) =~= method_name(m));
    assert(line[n as int] == ' ');
    assert(line[0] == method_name(m)[0]);
    assert(line[1] == method_name(m)[1]);
    assert forall|m2: HTTPRequest| m2 != m implies !starts_with_method(line, m2) by {
        if starts_with_method(line, m2) {
            let n2 = method_name(m2).len();
            assert(line.subrange(0, n2 as int)[0] == line[0]);
            assert(line.subrange(0, n2 as int)[1] == line[1]);
        }
    }
}

proof fn lemma_run_end(line: Seq<char>, j: int, stop: int)
    requires
        0 <= j <= stop < line.len(),
        is_whitespace(line[stop]),
        forall|k: int| j <= k < stop ==> !is_whitespace(#[trigger] line[k]),
    ensures
        run_end(line, j) == stop,
    decreases stop - j,
{
    if j < stop {
        lemma_run_end(line, j + 1, stop);
    }
}

#[verifier::rlimit(60)]
proof fn lemma_match_request_line(m: HTTPRequest, e: Seq<char>)
    requires
        is_page_name(e),
    ensures
        match_at(request_line(m, e), 0) == Some((m, seq!['/'] + e)),
{
    let line = request_line(m, e);
    let n = method_name(m).len();
    let p0: int = n + 1int;
    let stop: int = p0 + 1int + e.len();
    assert(line.len() == stop + 9);
    assert(line[n as int] == ' ');
    assert(line[p0] == '/');
    assert forall|k: int| 0 <= k < e.len() implies line[p0 + 1 + k] == #[trigger] e[k] by {}
    assert forall|k: int| 0 <= k < 9 implies line[stop + k] == #[trigger] protocol_suffix()[k] by {}
    let rest = seq![' ', '/'] + e + protocol_suffix();
    assert(line =~= method_name(m) + rest);
    assert(line.subrange(0, line.len() as int) =~= line);
    lemma_method_prefix(m, rest);
    assert forall|k: int| p0 <= k < stop implies !is_whitespace(#[trigger] line[k]) by {
        if k > p0 {
            assert(line[p0 + 1 + (k - p0 - 1)] == e[k - p0 - 1]);
        }
    }
    assert(line[stop + 0] == protocol_suffix()[0]);
    lemma_run_end(line, p0, stop);
    assert(line[stop + 7] == protocol_suffix()[7]);
    assert(protocol_at(line, stop));
    assert(line.subrange(p0, stop) =~= seq!['/'] + e);
    assert(match_at(line, 0) == Some((m, seq!['/'] + e)));
}

/// A line `<METHOD> /<e> HTTP/1.1`, where `e` holds no slash and no whitespace,
/// is a request for method `<METHOD>` and the page `e`, or `index` when `e` is empty.
pub proof fn lemma_parse_request_line(m: HTTPRequest, e: Seq<char>)
    requires
        is_page_name(e),
    ensures
        parse_request(request_line(m, e)) == Some((m, seq!['/'] + e)),
        endpoint_of(seq!['/'] + e) == (if e.len() == 0 {
            "index"@
        } else {
            e
        }),
{
    lemma_match_request_line(m, e);
    assert(request_line(m, e).len() > 0);
    lemma_strip_concat(seq!['/'], e);
    let slash = seq!['/'];
    assert(slash.drop_last() =~= Seq::<char>::empty());
    assert(slash.last() == '/');
    assert(strip_slashes(Seq::<char>::empty()) == Seq::<char>::empty());
    assert(strip_slashes(slash) =~= Seq::<char>::empty());
    lemma_strip_without_slashes(e);
    assert(strip_slashes(seq!['/']) + e =~= e);
}

proof fn lemma_status_keys()
    ensures
        status_for_key("200"@) == (200u32, "Ok"@),
        status_for_key("201"@) == (201u32, "Created"@),
        status_for_key("500"@) == (500u32, "Internal Server Error"@),
{
    reveal_strlit("200");
    reveal_strlit("201");
    reveal_strlit("500");
    assert("201"@[2] != "200"@[2]);
    assert("500"@[0] != "200"@[0]);
    assert("500"@[0] != "201"@[0]);
}

/// A request for an existing page is answered with that page, under 201 for
/// POST and 200 for every other method.
pub proof fn lemma_existing_page(m: HTTPRequest, e: Seq<char>, pages: Seq<Page>)
    requires
        e.len() > 0,
        is_page_name(e),
        find_page(pages, e) is Some,
    ensures
        route(request_line(m, e), pages) == (if m == HTTPRequest::POST {
            wire_response(201, "Created"@, find_page(pages, e)->0)
        } else {
            wire_response(200, "Ok"@, find_page(pages, e)->0)
        }),
{
    lemma_parse_request_line(m, e);
    lemma_status_keys();
}

/// A request for a missing page is answered with 404, whatever the method:
/// with the page `error_404`, or with the fixed fallback body when that is missing too.
pub proof fn lemma_missing_page(m: HTTPRequest, e: Seq<char>, pages: Seq<Page>)
    requires
        e.len() > 0,
        is_page_name(e),
        find_page(pages, e) is None,
    ensures
        route(request_line(m, e), pages) == wire_response(
            404,
            "Not Found"@,
            match find_page(pages, "error_404"@) {
                Some(c) => c,
                None => fallback_body(),
            },
        ),
{
    lemma_parse_request_line(m, e);
}

/// The path `/` names the page `index`.
pub proof fn lemma_root_is_index(pages: Seq<Page>)
    ensures
        route("GET / HTTP/1.1"@, pages) == response_for(status_for_key("200"@), "index"@, pages),
{
    reveal_strlit("GET / HTTP/1.1");
    let e = Seq::<char>::empty();
    assert("GET / HTTP/1.1"@ =~= request_line(HTTPRequest::GET, e));
    lemma_parse_request_line(HTTPRequest::GET, e);
}

/// A line that is not a request is answered with 500: with the page
/// `error_500`, or else the page `error_404`, or else the fixed fallback body.
pub proof fn lemma_malformed_line(line: Seq<char>, pages: Seq<Page>)
    requires
        parse_request(line) is None,
    ensures
        route(line, pages) == wire_response(500, "Internal Server Error"@, server_error_body(pages)),
{
    lemma_status_keys();
}

/// Every response carries one Content-Length header that holds the byte length
/// of the body that follows it.
pub proof fn lemma_content_length(line: Seq<char>, pages: Seq<Page>)
    ensures
        exists|code: nat, message: Seq<char>, body: Seq<char>|
            route(line, pages) == #[trigger] wire_response(code, message, body),
{
    match parse_request(line) {
        None => {
            let status = status_for_key("500"@);
            assert(route(line, pages) == wire_response(
                status.0 as nat,
                status.1,
                server_error_body(pages),
            ));
        },
        Some((m, path)) => {
            let status = status_for_key(status_key(m));
            match find_page(pages, endpoint_of(path)) {
                Some(c) => {
                    assert(route(line, pages) == wire_response(status.0 as nat, status.1, c));
                },
                None => {
                    let b = match find_page(pages, "error_404"@) {
                        Some(c) => c,
                        None => fallback_body(),
                    };
                    assert(route(line, pages) == wire_response(404, "Not Found"@, b));
                },
            }
        },
    }
}

} // verus!
