//! The fuzzer's settings: the HTTP method and the arguments of a run.
use vstd::prelude::*;
use vstd::string::*;

use super::text::chars_of;

verus! {

/// The HTTP methods a fuzzing request can use.
#[derive(Debug, Clone, Copy, PartialEq, Eq, Structural)]
pub enum HTTPMethods {
    POST,
    GET,
}

/// The text `GET`.
pub open spec fn get_text() -> Seq<char> {
    seq!['G', 'E', 'T']
}

/// The text `POST`.
pub open spec fn post_text() -> Seq<char> {
    seq!['P', 'O', 'S', 'T']
}

/// The name under which a method is written.
pub open spec fn method_name(m: HTTPMethods) -> Seq<char> {
    match m {
        HTTPMethods::GET => get_text(),
        HTTPMethods::POST => post_text(),
    }
}

/// The method whose name is `upper`, where `upper` is already in upper case.
pub open spec fn method_named(upper: Seq<char>) -> Result<HTTPMethods, ()> {
    if upper == get_text() {
        Ok(HTTPMethods::GET)
    } else if upper == post_text() {
        Ok(HTTPMethods::POST)
    } else {
        Err(())
    }
}

/// What `str::to_uppercase` returns for text whose view is `s`.
pub uninterp spec fn spec_to_uppercase(s: Seq<char>) -> Seq<char>;

/// Every character of `s` is ASCII.
pub open spec fn all_ascii(s: Seq<char>) -> bool {
    forall|i: int| 0 <= i < s.len() ==> (s[i] as u32) < 128
}

/// The ASCII upper-case form of `c`: `a`..=`z` become `A`..=`Z`, nothing else changes.
pub open spec fn ascii_upper_char(c: char) -> char {
    if 97 <= (c as u32) <= 122 {
        ((c as u32) - 32) as char
    } else {
        c
    }
}

/// `s` with each character in ASCII upper case.
pub open spec fn ascii_upper(s: Seq<char>) -> Seq<char> {
    Seq::new(s.len(), |i: int| ascii_upper_char(s[i]))
}

/// The method that a name denotes, compared without regard to case, as
/// the text is first put in upper case by `str::to_uppercase`.
pub open spec fn method_from_name(s: Seq<char>) -> Result<HTTPMethods, ()> {
    method_named(spec_to_uppercase(s))
}

/// Calls `str::to_uppercase`. Claimed: the result is `spec_to_uppercase` of the
/// argument (a function of the text alone), and on text made only of ASCII
/// characters it is the ASCII upper-case form, as the Unicode upper-case
/// mapping that the documentation names maps `a`..=`z` to `A`..=`Z` and keeps
/// the other ASCII characters. The mapping of other characters is not stated.
#[verifier::external_body]
fn to_uppercase(s: &str) -> (r: String)
    ensures
        r@ == spec_to_uppercase(s@),
        all_ascii(s@) ==> r@ == ascii_upper(s@),
{
    s.to_uppercase()
}

/// Whether two texts are equal, character by character.
pub fn str_equal(a: &str, b: &str) -> (r: bool)
    ensures
        r == (a@ == b@),
{
    let av = chars_of(a);
    let bv = chars_of(b);
    if av.len() != bv.len() {
        return false;
    }
    let mut i: usize = 0;
    while i < av.len()
        invariant
            av@ == a@,
            bv@ == b@,
            av.len() == bv.len(),
            i <= av.len(),
            forall|k: int| 0 <= k < i ==> av@[k] == bv@[k],
        decreases av.len() - i,
    {
        if av[i] != bv[i] {
            return false;
        }
        i = i + 1;
    }
    assert(av@ =~= bv@);
    true
}

impl HTTPMethods {
    /// The method written in upper case in `upper`.
    pub fn from_uppercase(upper: &str) -> (r: Result<HTTPMethods, ()>)
        ensures
            r == method_named(upper@),
    {
        proof {
            reveal_strlit("GET");
            reveal_strlit("POST");
            assert("GET"@ =~= get_text());
            assert("POST"@ =~= post_text());
        }
        if str_equal(upper, "GET") {
            Ok(HTTPMethods::GET)
        } else if str_equal(upper, "POST") {
            Ok(HTTPMethods::POST)
        } else {
            Err(())
        }
    }

    /// The method that `s` names, in any case (`get`, `Post`, ...).
    pub fn from_name(s: &str) -> (r: Result<HTTPMethods, ()>)
        ensures
            r == method_from_name(s@),
            all_ascii(s@) ==> r == method_named(ascii_upper(s@)),
    {
        let upper = to_uppercase(s);
        HTTPMethods::from_uppercase(upper.as_str())
    }

    /// The name of the method as written in a request line.
    pub fn to_string(&self) -> (r: String)
        ensures
            r@ == method_name(*self),
    {
        proof {
            reveal_strlit("GET");
            reveal_strlit("POST");
        }
        match self {
            HTTPMethods::GET => "GET".to_owned(),
            HTTPMethods::POST => "POST".to_owned(),
        }
    }
}

impl std::str::FromStr for HTTPMethods {
    type Err = ();

    fn from_str(s: &str) -> (r: Result<Self, Self::Err>)
        ensures
            r == method_from_name(s@),
            all_ascii(s@) ==> r == method_named(ascii_upper(s@)),
    {
        HTTPMethods::from_name(s)
    }
}

/// Writing a method's name and reading it back gives the same method: the
/// name is ASCII, and its upper-case form names the method.
pub proof fn lemma_method_name_round_trip(m: HTTPMethods)
    ensures
        all_ascii(method_name(m)),
        method_named(ascii_upper(method_name(m))) == Ok::<HTTPMethods, ()>(m),
{
    assert(ascii_upper(get_text()) =~= get_text());
    assert(ascii_upper(post_text()) =~= post_text());
}

/// The settings of a fuzzing run.
#[derive(Debug, Clone)]
pub struct Args {
    /// The target URL, where `FUZZ` may stand.
    pub url: Option<String>,
    /// Request headers, each written `Name: value`.
    pub headers: Option<Vec<String>>,
    /// The path of the word list.
    pub wordlist: String,
    /// The request method; GET where none is given.
    pub method: Option<HTTPMethods>,
    /// The number of worker threads.
    pub threads: usize,
    /// The body of a POST request.
    pub data: String,
    /// Status codes that filter a response.
    pub filter_status: Option<Vec<u16>>,
    /// Text that filters a response whose body contains it.
    pub contain: Option<String>,
    /// Response lengths that filter a response.
    pub filter_reponse_len: Option<Vec<usize>>,
    /// Word counts that filter a response.
    pub filter_words: Option<Vec<u32>>,
    /// The number of requests in flight at once.
    pub concurrent_tasks: usize,
    /// The path of a raw request file.
    pub file: Option<String>,
}

impl Default for Args {
    fn default() -> (r: Self)
        ensures
            r.url is None,
            r.headers is None,
            r.wordlist@ == Seq::<char>::empty(),
            r.method is None,
            r.threads == 0,
            r.data@ == Seq::<char>::empty(),
            r.filter_status is None,
            r.contain is None,
            r.filter_reponse_len is None,
            r.filter_words is None,
            r.concurrent_tasks == 0,
            r.file is None,
    {
        Args {
            url: None,
            headers: None,
            wordlist: String::new(),
            method: None,
            threads: 0,
            data: String::new(),
            filter_status: None,
            contain: None,
            filter_reponse_len: None,
            filter_words: None,
            concurrent_tasks: 0,
            file: None,
        }
    }
}

} // verus!
