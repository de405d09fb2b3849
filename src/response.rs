use vstd::prelude::*;
use vstd::string::StringSliceAdditionalSpecFns;
use vstd::utf8::encode_utf8;

verus! {

/// A status code together with its reason phrase.
#[derive(Clone)]
pub struct HTTPResponse {
    pub status_code: u32,
    pub status_message: String,
}

impl HTTPResponse {
    pub fn new(status_code: u32, status_message: &str) -> (r: Self)
        ensures
            r.status_code == status_code,
            r.status_message@ == status_message@,
    {
        HTTPResponse { status_code, status_message: String::from_str(status_message) }
    }

    pub fn update(&mut self, status_code: u32, status_message: &str)
        ensures
            final(self).status_code == status_code,
            final(self).status_message@ == status_message@,
    {
        self.status_code = status_code;
        self.status_message = String::from_str(status_message);
    }
}

/// One static document: the content served for the endpoint `name`
/// (on disk, the file `<name>.html`).
pub struct Page {
    pub name: String,
    pub content: String,
}

/// The code and reason phrase that the catalog gives for a status key.
pub open spec fn status_for_key(key: Seq<char>) -> (u32, Seq<char>) {
    if key == "200"@ {
        (200, "Ok"@)
    } else if key == "201"@ {
        (201, "Created"@)
    } else if key == "500"@ {
        (500, "Internal Server Error"@)
    } else if key == "405"@ {
        (405, "Method Not Allowed"@)
    } else {
        (404, "Not Found"@)
    }
}

/// The content of the first page named `name`, if there is one.
pub open spec fn find_page(pages: Seq<Page>, name: Seq<char>) -> Option<Seq<char>>
    decreases pages.len(),
{
    if pages.len() == 0 {
        None
    } else {
        match find_page(pages.drop_last(), name) {
            Some(c) => Some(c),
            None => if pages.last().name@ == name {
                Some(pages.last().content@)
            } else {
                None
            },
        }
    }
}

/// The body served when neither the requested page nor the not-found page exists.
pub open spec fn fallback_body() -> Seq<char> {
    "No Resource(s) Found."@
}

/// The decimal digits of `n`, most significant first, without leading zeros.
pub open spec fn decimal(n: nat) -> Seq<char>
    decreases n,
{
    if n < 10 {
        "0123456789"@.subrange(n as int, n + 1 as int)
    } else {
        decimal(n / 10) + "0123456789"@.subrange((n % 10) as int, (n % 10) + 1 as int)
    }
}

/// The length of `body` in UTF-8 bytes, as `str::len` reports it.
pub open spec fn byte_len(body: Seq<char>) -> nat {
    (encode_utf8(body).len() as usize) as nat
}

/// The wire form of a response: status line, one Content-Length header
/// holding the body's length in UTF-8 bytes, a blank line, then the body.
pub open spec fn wire_response(code: nat, message: Seq<char>, body: Seq<char>) -> Seq<char> {
    "HTTP/1.1 "@ + decimal(code) + " "@ + message + "\r\nContent-Length: "@ + decimal(byte_len(body)) + "\r\n\r\n"@ + body
}

/// The response for a status and the page `file`: the page's content under that
/// status, or else 404 with the page `error_404`, or else with the fixed fallback body.
pub open spec fn response_for(status: (u32, Seq<char>), file: Seq<char>, pages: Seq<Page>) -> Seq<
    char,
> {
    match find_page(pages, file) {
        Some(c) => wire_response(status.0 as nat, status.1, c),
        None => wire_response(
            404,
            "Not Found"@,
            match find_page(pages, "error_404"@) {
                Some(c) => c,
                None => fallback_body(),
            },
        ),
    }
}

/// Whether two strings hold the same characters.
pub fn same_text(a: &str, b: &str) -> (r: bool)
    ensures
        r == (a@ == b@),
{
    let n = a.unicode_len();
    if n != b.unicode_len() {
        return false;
    }
    let mut i: usize = 0;
    while i < n
        invariant
            n == a@.len(),
            n == b@.len(),
            i <= n,
            forall|j: int| 0 <= j < i ==> a@[j] == b@[j],
        decreases n - i,
    {
        if a.get_char(i) != b.get_char(i) {
            return false;
        }
        i = i + 1;
    }
    assert(a@ =~= b@);
    true
}

/// Looks a status key up in the response catalog; unknown keys give 404 Not Found.
pub fn get_http_static(key: &str) -> (r: HTTPResponse)
    ensures
        (r.status_code, r.status_message@) == status_for_key(key@),
{
    if same_text(key, "200") {
        HTTPResponse::new(200, "Ok")
    } else if same_text(key, "201") {
        HTTPResponse::new(201, "Created")
    } else if same_text(key, "500") {
        HTTPResponse::new(500, "Internal Server Error")
    } else if same_text(key, "405") {
        HTTPResponse::new(405, "Method Not Allowed")
    } else {
        HTTPResponse::new(404, "Not Found")
    }
}

/// The content of the first page named `name`.
pub fn find_content(pages: &Vec<Page>, name: &str) -> (r: Option<String>)
    ensures
        match r {
            Some(c) => find_page(pages@, name@) == Some(c@),
            None => find_page(pages@, name@) is None,
        },
{
    let mut found: Option<String> = None;
    let mut i: usize = 0;
    while i < pages.len()
        invariant
            i <= pages@.len(),
            match found {
                Some(c) => find_page(pages@.subrange(0, i as int), name@) == Some(c@),
                None => find_page(pages@.subrange(0, i as int), name@) is None,
            },
        decreases pages@.len() - i,
    {
        assert(pages@.subrange(0, i + 1).drop_last() =~= pages@.subrange(0, i as int));
        if found.is_none() && same_text(pages[i].name.as_str(), name) {
            found = Some(pages[i].content.clone());
        }
        i = i + 1;
    }
    assert(pages@.subrange(0, pages@.len() as int) =~= pages@);
    found
}

/// Appends the decimal digits of `n`.
fn append_decimal(out: &mut String, n: u64)
    ensures
        final(out)@ == old(out)@ + decimal(n as nat),
    decreases n,
{
    let digits = "0123456789";
    proof {
        reveal_strlit("0123456789");
    }
    if n >= 10 {
        append_decimal(out, n / 10);
    }
    let d = (n % 10) as usize;
    out.append(digits.substring_char(d, d + 1));
    assert(out@ =~= old(out)@ + decimal(n as nat));
}

/// Serializes a status and a body into the wire form of a response.
pub fn serialize_response(status_code: u32, status_message: &str, body: &str) -> (r: String)
    ensures
        r@ == wire_response(status_code as nat, status_message@, body@),
{
    let n = body.len();
    let mut out = String::from_str("HTTP/1.1 ");
    append_decimal(&mut out, status_code as u64);
    out.append(" ");
    out.append(status_message);
    out.append("\r\nContent-Length: ");
    append_decimal(&mut out, n as u64);
    out.append("\r\n\r\n");
    out.append(body);
    assert(out@ =~= wire_response(status_code as nat, status_message@, body@));
    out
}

/// The response that serves page `response_file` under `http_response`, falling
/// back to 404 with the page `error_404`, or with a fixed body when that is missing too.
pub fn get_response(http_response: HTTPResponse, response_file: &str, pages: &Vec<Page>) -> (r:
    String)
    ensures
        r@ == response_for(
            (http_response.status_code, http_response.status_message@),
            response_file@,
            pages@,
        ),
{
    let mut http_response = http_response;
    let content = match find_content(pages, response_file) {
        Some(body) => body,
        None => {
            http_response.update(404, "Not Found");
            match find_content(pages, "error_404") {
                Some(body) => body,
                None => String::from_str("No Resource(s) Found."),
            }
        },
    };
    serialize_response(
        http_response.status_code,
        http_response.status_message.as_str(),
        content.as_str(),
    )
}

} // verus!
