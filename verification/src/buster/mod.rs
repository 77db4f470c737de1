//! A web fuzzer's core: reading raw requests, putting words in place of the
//! `FUZZ` placeholder, preparing headers and deciding which responses to report.
use vstd::prelude::*;
use vstd::string::*;

use reqwest::header::HeaderValue;

pub mod cli;
pub mod filehandle;
pub mod safebuster;
pub mod shared;
pub mod text;

verus! {

/// A text cut in two at a delimiter: what stands before it and what follows it.
#[derive(Clone, Debug)]
pub struct PartingFileInfo(pub String, pub String);

/// The placeholder that the words of the word list replace.
pub const FUZZ: &'static str = "FUZZ";

/// The status codes whose responses are filtered where no codes are given:
/// OK, Created, Accepted, Non-Authoritative Information, No Content, Reset
/// Content, Partial Content, Multi-Status, Already Reported, IM Used, Moved
/// Permanently, Found, Temporary Redirect, Unauthorized, Forbidden, Method Not
/// Allowed and Bad Request.
pub open spec fn default_status_codes() -> Seq<u16> {
    seq![200, 201, 202, 203, 204, 205, 206, 207, 208, 226, 301, 302, 307, 401, 403, 405, 400]
}

/// The default status codes, in the order above.
pub fn default_status_code() -> (r: Vec<u16>)
    ensures
        r@ == default_status_codes(),
{
    let v: Vec<u16> = vec![200, 201, 202, 203, 204, 205, 206, 207, 208, 226, 301, 302, 307, 401, 403, 405, 400];
    proof {
        assert(v@ =~= default_status_codes());
    }
    v
}

/// Every character is a tab or visible ASCII (from a space to `~`).
pub open spec fn visible_ascii(s: Seq<char>) -> bool {
    forall|i: int|
        0 <= i < s.len() ==> {
            let x: u32 = #[trigger] s[i] as u32;
            (32 <= x < 127) || x == 9
        }
}

/// The bytes a header value holds.
pub uninterp spec fn header_value_bytes(v: HeaderValue) -> Seq<u8>;

/// Every byte is a tab or visible ASCII (from a space to `~`).
pub open spec fn visible_ascii_bytes(b: Seq<u8>) -> bool {
    forall|i: int| 0 <= i < b.len() ==> ((32 <= #[trigger] b[i] < 127) || b[i] == 9)
}

/// The characters that ASCII bytes stand for.
pub open spec fn ascii_text(b: Seq<u8>) -> Seq<char> {
    Seq::new(b.len(), |i: int| b[i] as char)
}

/// The text of a header value: its bytes read as characters where each is a
/// tab or visible ASCII; nothing otherwise.
pub open spec fn header_value_text(v: HeaderValue) -> Option<Seq<char>> {
    if visible_ascii_bytes(header_value_bytes(v)) {
        Some(ascii_text(header_value_bytes(v)))
    } else {
        None
    }
}

/// Calls `HeaderValue::to_str`. Claimed, as its source shows: it succeeds
/// exactly where every byte of the value is a tab or visible ASCII, and then
/// gives those bytes as text, one character per byte.
#[verifier::external_body]
fn header_value_to_str(v: &HeaderValue) -> (r: Option<String>)
    ensures
        r is Some <==> visible_ascii_bytes(header_value_bytes(*v)),
        r matches Some(s) ==> s@ == ascii_text(header_value_bytes(*v)),
{
    match v.to_str() {
        Ok(s) => Some(s.to_owned()),
        Err(_) => None,
    }
}

/// Text of a header value.
pub trait HeaderValeExt {
    /// The value as text; empty where it holds anything but tab and visible ASCII.
    fn to_string(&self) -> (r: String)
        ensures
            visible_ascii(r@),
    ;
}

impl HeaderValeExt for HeaderValue {
    /// The value's text where it is all tab and visible ASCII; empty otherwise.
    fn to_string(&self) -> (r: String)
        ensures
            r@ == match header_value_text(*self) {
                Some(t) => t,
                None => Seq::<char>::empty(),
            },
    {
        match header_value_to_str(self) {
            Some(s) => s,
            None => String::new(),
        }
    }
}

} // verus!
