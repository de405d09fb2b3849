use vstd::prelude::*;

verus! {

/// The form of a listening address on the command line: four dot-separated
/// numbers, a colon and a port.
pub const IP_REGEX: &'static str = "\\b(\\d+).(\\d+).(\\d+).(\\d+):(\\d+)\\b";

/// The largest TCP port.
pub const MAX_PORT_NUMBER: u64 = 65535;

/// Why an address was refused.
#[derive(Debug, Clone, Copy, PartialEq, Eq, Structural)]
pub enum AddressError {
    /// Nothing in the text has the form of an address.
    NotAnAddress,
    /// The port is not a decimal number up to 65535.
    InvalidPort,
    /// An address segment has a leading zero, or is not a decimal number.
    InvalidSegment,
}

impl AddressError {
    /// The message reported to the operator.
    pub fn message(&self) -> (r: &str)
        ensures
            r@ == (match self {
                AddressError::NotAnAddress => "ValueParse Error: Not a valid IP address."@,
                AddressError::InvalidPort => "Value Error: Not a valid TCP Port."@,
                AddressError::InvalidSegment => "Value Error: Not a valid IP Segment."@,
            }),
    {
        match self {
            AddressError::NotAnAddress => "ValueParse Error: Not a valid IP address.",
            AddressError::InvalidPort => "Value Error: Not a valid TCP Port.",
            AddressError::InvalidSegment => "Value Error: Not a valid IP Segment.",
        }
    }
}

/// The first match of `pattern` in `text`, as the whole match followed by
/// each capture group (empty where a group took no part in the match).
pub uninterp spec fn pattern_captures(pattern: Seq<char>, text: Seq<char>) -> Option<Seq<Seq<char>>>;

/// Relies on regex::Regex::new and regex::Regex::captures: the captures of the
/// leftmost-first match of `pattern` in `text`, a function of the two alone.
#[verifier::external_body]
fn find_captures(pattern: &str, text: &str) -> (r: Option<Vec<String>>)
    ensures
        match r {
            Some(v) => pattern_captures(pattern@, text@) == Some(v@.map_values(|s: String| s@)),
            None => pattern_captures(pattern@, text@) is None,
        },
{
    let re = match regex::Regex::new(pattern) {
        Ok(re) => re,
        Err(_) => return None,
    };
    let caps = re.captures(text)?;
    Some(caps.iter().map(|g| g.map_or(String::new(), |m| m.as_str().to_string())).collect())
}

pub open spec fn is_ascii_digit(c: char) -> bool {
    '0' <= c && c <= '9'
}

pub open spec fn all_digits(s: Seq<char>) -> bool {
    forall|k: int| 0 <= k < s.len() ==> is_ascii_digit(#[trigger] s[k])
}

/// The number that a string of decimal digits writes.
pub open spec fn digits_value(s: Seq<char>) -> nat
    decreases s.len(),
{
    if s.len() == 0 {
        0
    } else {
        digits_value(s.drop_last()) * 10 + ((s.last() as u32 - '0' as u32) as nat)
    }
}

/// A port: one or more decimal digits writing a number up to 65535.
pub open spec fn is_valid_port(p: Seq<char>) -> bool {
    p.len() > 0 && all_digits(p) && digits_value(p) <= MAX_PORT_NUMBER
}

/// An address segment: decimal digits, with no leading zero unless it is the only one.
pub open spec fn is_valid_segment(s: Seq<char>) -> bool {
    all_digits(s) && !(s.len() > 1 && s[0] == '0')
}

/// The outcome of checking the captures of an address: the whole match, or
/// the first fault found (the port before the segments).
pub open spec fn check_captures(c: Seq<Seq<char>>) -> Result<Seq<char>, AddressError> {
    if c.len() != 6 {
        Err(AddressError::NotAnAddress)
    } else if !is_valid_port(c[5]) {
        Err(AddressError::InvalidPort)
    } else if !(forall|i: int| 1 <= i <= 4 ==> is_valid_segment(#[trigger] c[i])) {
        Err(AddressError::InvalidSegment)
    } else {
        Ok(c[0])
    }
}

proof fn lemma_digits_value_prefix(s: Seq<char>, j: int)
    requires
        all_digits(s),
        0 <= j <= s.len(),
    ensures
        digits_value(s.subrange(0, j)) <= digits_value(s),
    decreases s.len(),
{
    if j < s.len() {
        let t = s.drop_last();
        assert(t.subrange(0, j) =~= s.subrange(0, j));
        assert(all_digits(t));
        lemma_digits_value_prefix(t, j);
    } else {
        assert(s.subrange(0, j) =~= s);
    }
}

fn is_port(p: &str) -> (r: bool)
    ensures
        r == is_valid_port(p@),
{
    let n = p.unicode_len();
    if n == 0 {
        return false;
    }
    let mut value: u64 = 0;
    let mut i: usize = 0;
    while i < n
        invariant
            n == p@.len(),
            i <= n,
            all_digits(p@.subrange(0, i as int)),
            value == digits_value(p@.subrange(0, i as int)),
            value <= MAX_PORT_NUMBER,
        decreases n - i,
    {
        let c = p.get_char(i);
        assert(p@.subrange(0, i + 1).drop_last() =~= p@.subrange(0, i as int));
        if c < '0' || c > '9' {
            assert(!is_ascii_digit(p@[i as int]));
            return false;
        }
        value = value * 10 + (c as u64 - '0' as u64);
        assert(all_digits(p@.subrange(0, i + 1)));
        if value > MAX_PORT_NUMBER {
            proof {
                if all_digits(p@) {
                    lemma_digits_value_prefix(p@, i + 1);
                }
            }
            return false;
        }
        i = i + 1;
    }
    assert(p@.subrange(0, n as int) =~= p@);
    true
}

fn is_segment(s: &str) -> (r: bool)
    ensures
        r == is_valid_segment(s@),
{
    let n = s.unicode_len();
    let mut i: usize = 0;
    while i < n
        invariant
            n == s@.len(),
            i <= n,
            forall|k: int| 0 <= k < i ==> is_ascii_digit(#[trigger] s@[k]),
        decreases n - i,
    {
        let c = s.get_char(i);
        if c < '0' || c > '9' {
            return false;
        }
        i = i + 1;
    }
    !(n > 1 && s.get_char(0) == '0')
}

/// Checks the captures of an address match (the whole match, four segments and
/// the port) and returns the whole match. Segments are not held to 255.
pub fn parse_ip(captures: &Vec<String>) -> (r: Result<String, AddressError>)
    ensures
        match r {
            Ok(s) => check_captures(captures@.map_values(|c: String| c@)) == Ok::<
                Seq<char>,
                AddressError,
            >(s@),
            Err(e) => check_captures(captures@.map_values(|c: String| c@)) == Err::<
                Seq<char>,
                AddressError,
            >(e),
        },
{
    let ghost c = captures@.map_values(|c: String| c@);
    if captures.len() != 6 {
        return Err(AddressError::NotAnAddress);
    }
    if !is_port(captures[5].as_str()) {
        return Err(AddressError::InvalidPort);
    }
    let mut i: usize = 1;
    while i <= 4
        invariant
            c == captures@.map_values(|c: String| c@),
            c.len() == 6,
            is_valid_port(c[5]),
            1 <= i <= 5,
            forall|j: int| 1 <= j < i ==> is_valid_segment(#[trigger] c[j]),
        decreases 5 - i,
    {
        if !is_segment(captures[i].as_str()) {
            assert(!is_valid_segment(c[i as int]));
            return Err(AddressError::InvalidSegment);
        }
        i = i + 1;
    }
    Ok(String::from_str(captures[0].as_str()))
}

/// Finds an address `host:port` in `text` and checks it.
pub fn validate_address(text: &str) -> (r: Result<String, AddressError>)
    ensures
        match pattern_captures(IP_REGEX@, text@) {
            None => r == Err::<String, AddressError>(AddressError::NotAnAddress),
            Some(c) => match r {
                Ok(s) => check_captures(c) == Ok::<Seq<char>, AddressError>(s@),
                Err(e) => check_captures(c) == Err::<Seq<char>, AddressError>(e),
            },
        },
{
    match find_captures(IP_REGEX, text) {
        None => Err(AddressError::NotAnAddress),
        Some(captures) => parse_ip(&captures),
    }
}

} // verus!
