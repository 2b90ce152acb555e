//! The options of a tool that prints the messages of a connection: where to
//! connect to, and how to print.
use std::num::ParseIntError;
use vstd::prelude::*;
use vstd::string::StrSliceExecFns;

pub mod laws;

verus! {

/// The error of the standard library for a text that is not a number.
#[verifier::external_type_specification]
#[verifier::external_body]
pub struct ExParseIntError(std::num::ParseIntError);

/// Where to connect to.
#[derive(Debug)]
pub enum Addr {
    /// A serial port.
    Serial { path: String, baud_rate: u32 },
    /// A socket address for UDP, as it was given.
    Udp(String),
    /// A socket address for TCP, as it was given.
    Tcp(String),
}

/// Why a text is not an address.
#[derive(Debug)]
pub enum AddrError {
    /// There is neither a known scheme nor a colon.
    NoColon,
    /// What follows the colon is not a number.
    BaudRate(ParseIntError),
}

/// How to print a message.
#[derive(Debug, Clone, Copy, PartialEq, Eq, Structural)]
pub enum Format {
    /// As it is formatted for debugging, over several lines.
    DebugPretty,
    /// As it is formatted for debugging.
    Debug,
    /// As JSON, over several lines.
    JsonPretty,
    /// As JSON.
    Json,
}

/// The position of the first colon; the length of the text, if there is none.
pub open spec fn colon_index(text: Seq<char>) -> int
    decreases text.len(),
{
    if text.len() == 0 || text[0] == ':' {
        0
    } else {
        1 + colon_index(text.skip(1))
    }
}

/// Whether a text is made of decimal digits.
pub open spec fn are_digits(text: Seq<char>) -> bool {
    forall|i: int| 0 <= i < text.len() ==> '0' <= #[trigger] text[i] <= '9'
}

/// The number that decimal digits stand for.
pub open spec fn digits_value(digits: Seq<char>) -> nat
    decreases digits.len(),
{
    if digits.len() == 0 {
        0
    } else {
        10 * digits_value(digits.drop_last()) + (digits.last() as nat - '0' as nat) as nat
    }
}

/// The number that a text stands for: decimal digits, maybe with a plus sign in
/// front of them.
pub open spec fn decimal(text: Seq<char>) -> Option<nat> {
    let digits = if text.len() > 0 && text[0] == '+' {
        text.skip(1)
    } else {
        text
    };
    if digits.len() > 0 && are_digits(digits) {
        Some(digits_value(digits))
    } else {
        None
    }
}

/// Calls `u32::from_str`, which takes decimal digits with an optional plus sign
/// in front of them and nothing else, and fails if the number is too large.
/// Which error comes is not said.
#[verifier::external_body]
fn parse_u32(text: &str) -> (parsed: Result<u32, ParseIntError>)
    ensures
        match parsed {
            Ok(number) => decimal(text@) == Some(number as nat),
            Err(_) => decimal(text@) is None || decimal(text@)->Some_0 > u32::MAX,
        },
{
    text.parse::<u32>()
}

/// What follows the prefix, if the text starts with it.
fn strip_prefix<'a>(text: &'a str, prefix: &str) -> (rest: Option<&'a str>)
    ensures
        match rest {
            Some(rest) => text@ == prefix@ + rest@,
            None => !prefix@.is_prefix_of(text@),
        },
{
    let len: usize = text.unicode_len();
    let prefix_len: usize = prefix.unicode_len();
    if len < prefix_len {
        return None;
    }
    let mut i: usize = 0;
    while i < prefix_len
        invariant
            i <= prefix_len == prefix@.len(),
            prefix_len <= text@.len(),
            forall|j: int| 0 <= j < i ==> prefix@[j] == text@[j],
        decreases prefix_len - i,
    {
        if prefix.get_char(i) != text.get_char(i) {
            assert(prefix@[i as int] != text@.subrange(0, prefix@.len() as int)[i as int]);
            return None;
        }
        i = i + 1;
    }
    let rest = text.substring_char(prefix_len, len);
    assert(text@ =~= prefix@ + rest@);
    Some(rest)
}

/// What stands before the first colon and what follows it.
fn split_at_colon<'a>(text: &'a str) -> (parts: Option<(&'a str, &'a str)>)
    ensures
        match parts {
            Some((before, after)) => {
                &&& colon_index(text@) < text@.len()
                &&& before@ == text@.take(colon_index(text@))
                &&& after@ == text@.skip(colon_index(text@) + 1)
            },
            None => colon_index(text@) == text@.len(),
        },
{
    let len: usize = text.unicode_len();
    let mut i: usize = 0;
    assert(text@.skip(0) =~= text@);
    while i < len && text.get_char(i) != ':'
        invariant
            i <= len == text@.len(),
            colon_index(text@) == i + colon_index(text@.skip(i as int)),
        decreases len - i,
    {
        assert(text@.skip(i as int).skip(1) =~= text@.skip(i + 1));
        i = i + 1;
    }
    if i < len {
        let before = text.substring_char(0, i);
        let after = text.substring_char(i + 1, len);
        assert(before@ =~= text@.take(i as int));
        assert(after@ =~= text@.skip(i + 1));
        Some((before, after))
    } else {
        None
    }
}

impl AddrError {
    /// What [`AddrError::NoColon`] is reported as.
    pub fn no_colon_text() -> (text: &'static str)
        ensures
            text@ == "expected ':' in serial address"@,
    {
        "expected ':' in serial address"
    }
}

impl Addr {
    /// Reads an address: `tcp://` or `udp://` with a socket address, or else a
    /// serial port and its baud rate with a colon between them. A socket address
    /// is handed on as it stands; whether it is one, the caller finds out.
    pub fn from_str(s: &str) -> (addr: Result<Addr, AddrError>)
        ensures
            ({
                let at = colon_index(s@);
                let baud_rate = decimal(s@.skip(at + 1));
                if "tcp://"@.is_prefix_of(s@) {
                    addr matches Ok(Addr::Tcp(rest)) && rest@ == s@.skip("tcp://"@.len() as int)
                } else if "udp://"@.is_prefix_of(s@) {
                    addr matches Ok(Addr::Udp(rest)) && rest@ == s@.skip("udp://"@.len() as int)
                } else if at == s@.len() {
                    addr matches Err(AddrError::NoColon)
                } else if baud_rate is Some && baud_rate->Some_0 <= u32::MAX {
                    &&& addr matches Ok(Addr::Serial { path, baud_rate: rate })
                    &&& path@ == s@.take(at)
                    &&& rate == baud_rate->Some_0
                } else {
                    addr matches Err(AddrError::BaudRate(_))
                }
            }),
    {
        if let Some(rest) = strip_prefix(s, "tcp://") {
            proof {
                lemma_prefix(s@, "tcp://"@, rest@);
            }
            return Ok(Addr::Tcp(rest.to_owned()));
        }
        if let Some(rest) = strip_prefix(s, "udp://") {
            proof {
                lemma_prefix(s@, "udp://"@, rest@);
            }
            return Ok(Addr::Udp(rest.to_owned()));
        }
        match split_at_colon(s) {
            None => Err(AddrError::NoColon),
            Some((path, baud_rate)) => match parse_u32(baud_rate) {
                Ok(baud_rate) => Ok(Addr::Serial { path: path.to_owned(), baud_rate }),
                Err(error) => Err(AddrError::BaudRate(error)),
            },
        }
    }
}

proof fn lemma_prefix(text: Seq<char>, prefix: Seq<char>, rest: Seq<char>)
    requires
        text == prefix + rest,
    ensures
        prefix.is_prefix_of(text),
        rest == text.skip(prefix.len() as int),
{
    assert(prefix =~= text.subrange(0, prefix.len() as int));
    assert(rest =~= text.skip(prefix.len() as int));
}

impl Format {
    /// How to print, if JSON or few lines were asked for.
    pub fn new(json: bool, minify: bool) -> (format: Format)
        ensures
            format == (match (json, minify) {
                (false, false) => Format::DebugPretty,
                (false, true) => Format::Debug,
                (true, false) => Format::JsonPretty,
                (true, true) => Format::Json,
            }),
    {
        match (json, minify) {
            (false, false) => Format::DebugPretty,
            (false, true) => Format::Debug,
            (true, false) => Format::JsonPretty,
            (true, true) => Format::Json,
        }
    }
}

} // verus!
