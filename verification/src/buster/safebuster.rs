//! The decisions of a fuzzing run: putting a word in place of the `FUZZ`
//! placeholder, planning the request, and choosing which responses to report.
use vstd::prelude::*;
use vstd::string::*;

use reqwest::header::HeaderMap;

use super::cli::{Args, HTTPMethods};
use super::shared::{
    default_header_lines, header_map_contents, header_map_room, headers_after,
    no_headers, prepare_headers,
};
use super::text::{
    contains_seq, contains_str, count_lines, count_words, lemma_replace_absent,
    lemma_replace_by_itself, line_count, replace_seq, replace_str, strings_view, word_count,
};
use super::{default_status_code, default_status_codes, FUZZ};

verus! {

broadcast use {vstd::string::group_string_axioms, vstd::laws_eq::group_laws_eq};

/// The placeholder `FUZZ`.
pub open spec fn fuzz() -> Seq<char> {
    seq!['F', 'U', 'Z', 'Z']
}

/// `s` with each placeholder replaced by `word`.
pub open spec fn fuzz_text(s: Seq<char>, word: Seq<char>) -> Seq<char> {
    replace_seq(s, fuzz(), word)
}

/// Each of `hs` with each placeholder replaced by `word`.
pub open spec fn fuzz_lines(hs: Seq<Seq<char>>, word: Seq<char>) -> Seq<Seq<char>> {
    hs.map_values(|h: Seq<char>| fuzz_text(h, word))
}

/// The URL, the body or a header holds the placeholder.
pub open spec fn args_have_fuzz(a: Args) -> bool {
    ||| (a.url matches Some(u) && contains_seq(u@, fuzz()))
    ||| contains_seq(a.data@, fuzz())
    ||| (a.headers matches Some(hs) && exists|i: int|
        0 <= i < hs@.len() && contains_seq(#[trigger] hs@[i]@, fuzz()))
}

/// `r` is `a` with each placeholder in the URL, the body and the headers
/// replaced by `word`, and nothing else changed.
pub open spec fn fuzzed_args(a: Args, word: Seq<char>, r: Args) -> bool {
    &&& match a.url {
        Some(u) => r.url is Some && r.url->0@ == fuzz_text(u@, word),
        None => r.url is None,
    }
    &&& r.data@ == fuzz_text(a.data@, word)
    &&& match a.headers {
        Some(hs) => r.headers is Some && strings_view(r.headers->0@) == fuzz_lines(
            strings_view(hs@),
            word,
        ),
        None => r.headers is None,
    }
    &&& r == (Args { url: r.url, data: r.data, headers: r.headers, ..a })
}

/// Every header line has each placeholder replaced by the word, line by line,
/// and no line is added or dropped; the URL and body likewise.
pub proof fn lemma_fuzzed_each_line(a: Args, word: Seq<char>, r: Args)
    requires
        fuzzed_args(a, word, r),
    ensures
        a.url matches Some(u) ==> r.url is Some && r.url->0@ == replace_seq(u@, fuzz(), word),
        r.data@ == replace_seq(a.data@, fuzz(), word),
        a.headers matches Some(hs) ==> {
            &&& r.headers is Some
            &&& r.headers->0@.len() == hs@.len()
            &&& forall|i: int|
                0 <= i < hs@.len() ==> #[trigger] r.headers->0@[i]@ == replace_seq(
                    hs@[i]@,
                    fuzz(),
                    word,
                )
        },
        r.method == a.method,
        r.filter_status == a.filter_status,
{
    if let Some(hs) = a.headers {
        let xs = r.headers->0;
        assert(strings_view(xs@).len() == xs@.len());
        assert forall|i: int| 0 <= i < hs@.len() implies #[trigger] xs@[i]@ == replace_seq(
            hs@[i]@,
            fuzz(),
            word,
        ) by {
            assert(strings_view(xs@)[i] == xs@[i]@);
            assert(strings_view(hs@)[i] == hs@[i]@);
        }
    }
}

fn fuzz_str() -> (r: &'static str)
    ensures
        r@ == fuzz(),
{
    proof {
        reveal_strlit("FUZZ");
        assert("FUZZ"@ =~= fuzz());
    }
    FUZZ
}

/// The settings with `word` in place of each `FUZZ` of the URL, the body and
/// the headers; none where the placeholder stands nowhere.
pub fn search_fuzz(args: Args, word: &str) -> (r: Option<Args>)
    ensures
        r is None <==> !args_have_fuzz(args),
        r is Some <==> ((args.url matches Some(u) && contains_seq(u@, fuzz())) || contains_seq(
            args.data@,
            fuzz(),
        ) || (args.headers matches Some(hs) && exists|i: int|
            0 <= i < hs@.len() && contains_seq(#[trigger] hs@[i]@, fuzz()))),
        r matches Some(x) ==> fuzzed_args(args, word@, x),
        r matches Some(x) ==> (args.url matches Some(u) ==> x.url is Some && x.url->0@
            == replace_seq(u@, fuzz(), word@)),
        r matches Some(x) ==> x.data@ == replace_seq(args.data@, fuzz(), word@),
        r matches Some(x) ==> (args.url is None ==> x.url is None) && (args.headers is None
            ==> x.headers is None),
        r matches Some(x) ==> x == (Args { url: x.url, data: x.data, headers: x.headers, ..args }),
        r matches Some(x) ==> (args.headers matches Some(hs) ==> {
            &&& x.headers is Some
            &&& x.headers->0@.len() == hs@.len()
            &&& forall|i: int|
                0 <= i < hs@.len() ==> #[trigger] x.headers->0@[i]@ == replace_seq(
                    hs@[i]@,
                    fuzz(),
                    word@,
                )
        }),
{
    let ghost a = args;
    let Args {
        url,
        headers,
        wordlist,
        method,
        threads,
        data,
        filter_status,
        contain,
        filter_reponse_len,
        filter_words,
        concurrent_tasks,
        file,
    } = args;
    let pat = fuzz_str();
    let mut found = false;

    let new_url = match url {
        Some(u) => {
            if contains_str(u.as_str(), pat) {
                found = true;
                Some(replace_str(u.as_str(), pat, word))
            } else {
                proof {
                    lemma_replace_absent(u@, fuzz(), word@);
                }
                Some(u)
            }
        },
        None => None,
    };

    let new_data = if contains_str(data.as_str(), pat) {
        found = true;
        replace_str(data.as_str(), pat, word)
    } else {
        proof {
            lemma_replace_absent(data@, fuzz(), word@);
        }
        data
    };

    let new_headers = match headers {
        Some(hs) => {
            let ghost hv = strings_view(hs@);
            let mut out: Vec<String> = Vec::new();
            let mut i: usize = 0;
            let ghost found_before = found;
            while i < hs.len()
                invariant
                    hv == strings_view(hs@),
                    i <= hs.len(),
                    strings_view(out@) == fuzz_lines(hv.take(i as int), word@),
                    pat@ == fuzz(),
                    found == (found_before || exists|j: int|
                        0 <= j < i && contains_seq(#[trigger] hs@[j]@, fuzz())),
                decreases hs.len() - i,
            {
                let h = hs[i].as_str();
                let ghost old_out = out@;
                if contains_str(h, pat) {
                    found = true;
                    out.push(replace_str(h, pat, word));
                } else {
                    proof {
                        lemma_replace_absent(h@, fuzz(), word@);
                    }
                    out.push(h.to_owned());
                }
                proof {
                    assert(strings_view(out@) =~= strings_view(old_out).push(out@[i as int]@));
                    assert(fuzz_lines(hv.take(i + 1), word@) =~= fuzz_lines(
                        hv.take(i as int),
                        word@,
                    ).push(fuzz_text(hv[i as int], word@)));
                }
                i = i + 1;
            }
            proof {
                assert(hv.take(hs.len() as int) =~= hv);
            }
            Some(out)
        },
        None => None,
    };

    if !found {
        return None;
    }
    let res = Args {
        url: new_url,
        headers: new_headers,
        wordlist,
        method,
        threads,
        data: new_data,
        filter_status,
        contain,
        filter_reponse_len,
        filter_words,
        concurrent_tasks,
        file,
    };
    proof {
        assert(fuzzed_args(a, word@, res));
        lemma_fuzzed_each_line(a, word@, res);
    }
    Some(res)
}

/// A response is filtered (not reported) when its status is among the
/// filtered ones (the defaults where none are given), its length among the
/// filtered lengths, its body contains the filter text, or its word count
/// is among the filtered counts.
pub open spec fn response_filtered(
    status_code: u16,
    res_body: Seq<char>,
    res_len: usize,
    words: int,
    filters: Args,
) -> bool {
    ||| match filters.filter_status {
        Some(v) => v@.contains(status_code),
        None => default_status_codes().contains(status_code),
    }
    ||| (filters.filter_reponse_len matches Some(v) && v@.contains(res_len))
    ||| (filters.contain matches Some(c) && contains_seq(res_body, c@))
    ||| (filters.filter_words matches Some(v) && exists|i: int|
        0 <= i < v@.len() && #[trigger] v@[i] as int == words)
}

/// Whether `x` is among the items of `v`, for a type whose `==` is equality.
fn vec_contains<T: PartialEq>(v: &Vec<T>, x: &T) -> (r: bool)
    requires
        vstd::laws_eq::obeys_concrete_eq::<T>(),
    ensures
        r == v@.contains(*x),
{
    proof {
        reveal(vstd::laws_eq::obeys_concrete_eq);
    }
    let mut i: usize = 0;
    while i < v.len()
        invariant
            vstd::laws_eq::obeys_concrete_eq::<T>(),
            i <= v.len(),
            forall|j: int| 0 <= j < i ==> v@[j] != *x,
        decreases v.len() - i,
    {
        proof {
            reveal(vstd::laws_eq::obeys_concrete_eq);
        }
        if v[i] == *x {
            return true;
        }
        i = i + 1;
    }
    false
}

fn contains_count(v: &Vec<u32>, x: usize) -> (r: bool)
    ensures
        r == exists|i: int| 0 <= i < v@.len() && #[trigger] v@[i] as int == x,
{
    let mut i: usize = 0;
    while i < v.len()
        invariant
            i <= v.len(),
            forall|j: int| 0 <= j < i ==> v@[j] as int != x,
        decreases v.len() - i,
    {
        if v[i] as usize == x {
            return true;
        }
        i = i + 1;
    }
    false
}

/// Whether a response is filtered, its word count taken as any count.
fn response_is_filtered(
    status_code: u16,
    res_body: &str,
    res_len: usize,
    words: usize,
    filters: &Args,
) -> (r: bool)
    ensures
        r == response_filtered(status_code, res_body@, res_len, words as int, *filters),
{
    let status_match = match &filters.filter_status {
        Some(status_vec) => vec_contains(status_vec, &status_code),
        None => vec_contains(&default_status_code(), &status_code),
    };
    let length_match = match &filters.filter_reponse_len {
        Some(leng) => vec_contains(leng, &res_len),
        None => false,
    };
    let content_match = match &filters.contain {
        Some(match_cont) => contains_str(res_body, match_cont.as_str()),
        None => false,
    };
    let words_match = match &filters.filter_words {
        Some(num_words) => contains_count(num_words, words),
        None => false,
    };
    status_match || length_match || content_match || words_match
}

/// Whether a response is filtered by the settings: see `response_filtered`.
pub fn filter_response(
    status_code: u16,
    res_body: &str,
    res_len: usize,
    words: u32,
    filters: &Args,
) -> (r: bool)
    ensures
        r == response_filtered(status_code, res_body@, res_len, words as int, *filters),
        r <==> ((match filters.filter_status {
            Some(v) => v@.contains(status_code),
            None => default_status_codes().contains(status_code),
        }) || (filters.filter_reponse_len matches Some(v) && v@.contains(res_len)) || (
        filters.contain matches Some(c) && contains_seq(res_body@, c@)) || (
        filters.filter_words matches Some(v) && v@.contains(words))),
        filters.filter_status matches Some(v) && v@.contains(status_code) ==> r,
        filters.filter_status is None && default_status_codes().contains(status_code) ==> r,
        filters.filter_reponse_len matches Some(v) && v@.contains(res_len) ==> r,
        filters.contain matches Some(c) && contains_seq(res_body@, c@) ==> r,
        filters.filter_words matches Some(v) && v@.contains(words) ==> r,
        (filters.filter_status matches Some(v) && !v@.contains(status_code))
            && filters.filter_reponse_len is None && filters.contain is None
            && filters.filter_words is None ==> !r,
{
    response_is_filtered(status_code, res_body, res_len, words as usize, filters)
}

/// What is reported of a response: its size in bytes, its words and its lines.
#[derive(Debug, Clone, Copy, PartialEq, Eq, Structural)]
pub struct ResponseSummary {
    pub size: usize,
    pub words: usize,
    pub lines: usize,
}

/// The report on a response with status `status_code` and body `body`; none
/// where the settings filter it, the body's byte length standing for its
/// length and its words for its word count.
pub fn summarize_response(status_code: u16, body: &str, args: &Args) -> (r: Option<
    ResponseSummary,
>)
    ensures
        r is None <==> response_filtered(
            status_code,
            body@,
            body.spec_bytes().len() as usize,
            word_count(body@) as int,
            *args,
        ),
        r matches Some(s) ==> {
            &&& s.size == body.spec_bytes().len() as usize
            &&& s.words == word_count(body@)
            &&& s.lines == line_count(body@)
        },
{
    let len: usize = body.len();
    let words: usize = count_words(body);
    if response_is_filtered(status_code, body, len, words, args) {
        return None;
    }
    Some(ResponseSummary { size: len, words, lines: count_lines(body) })
}

/// Why no request can be made for a word.
#[derive(Debug, Clone, Copy, PartialEq, Eq, Structural)]
pub enum CraftError {
    /// No `FUZZ` stands in the URL, the body or the headers.
    NoFuzz,
    /// The header map cannot grow to take the header lines' names.
    TooManyHeaders,
    /// No URL is given.
    MissingUrl,
}

/// The request to send for one word.
pub struct RequestPlan {
    /// GET, or POST with a body.
    pub method: HTTPMethods,
    /// The URL, with the word in place.
    pub url: String,
    /// The headers, with the word in place.
    pub headers: HeaderMap,
    /// The body of a POST request, with the word in place.
    pub body: Option<String>,
}

/// The method a request uses: the one given, GET where none is.
pub open spec fn method_or_get(m: Option<HTTPMethods>) -> HTTPMethods {
    match m {
        Some(x) => x,
        None => HTTPMethods::GET,
    }
}

/// The header lines of `a` with the placeholder replaced by `word` fit in a
/// header map for certain: there are none, or they hold fewer than
/// `header_map_room()` names.
pub open spec fn fuzzed_headers_fit(a: Args, word: Seq<char>) -> bool {
    match a.headers {
        Some(h) => headers_after(no_headers(), fuzz_lines(strings_view(h@), word)).dom().len()
            < header_map_room(),
        None => true,
    }
}

/// The request for `word`: the settings with the word in place of each
/// placeholder, and their headers (the defaults where none are given).
/// Errors, in the order they are met: no placeholder; header lines that the
/// header map cannot take (where `HeaderMap::insert` panics); no URL.
pub fn craft_request_plan(args: Args, word: &str) -> (r: Result<RequestPlan, CraftError>)
    ensures
        (r matches Err(CraftError::NoFuzz)) <==> !args_have_fuzz(args),
        (r matches Err(CraftError::TooManyHeaders)) ==> args_have_fuzz(args) && !fuzzed_headers_fit(
            args,
            word@,
        ),
        (r matches Err(CraftError::MissingUrl)) ==> args_have_fuzz(args) && args.url is None,
        (args_have_fuzz(args) && fuzzed_headers_fit(args, word@) && args.url is None) ==> (
        r matches Err(CraftError::MissingUrl)),
        (args_have_fuzz(args) && fuzzed_headers_fit(args, word@) && args.url is Some) ==> r is Ok,
        r matches Ok(p) ==> (args.method matches Some(m) ==> p.method == m),
        r matches Ok(p) ==> (args.method is None ==> p.method == HTTPMethods::GET),
        r matches Ok(p) ==> (p.body is Some <==> args.method == Some(HTTPMethods::POST)),
        r matches Ok(p) ==> {
            &&& args.url is Some
            &&& p.method == method_or_get(args.method)
            &&& p.url@ == fuzz_text(args.url->0@, word@)
            &&& header_map_contents(p.headers) == headers_after(
                no_headers(),
                match args.headers {
                    Some(h) => fuzz_lines(strings_view(h@), word@),
                    None => default_header_lines(),
                },
            )
            &&& (p.body is Some <==> p.method == HTTPMethods::POST)
            &&& (p.body matches Some(b) ==> b@ == fuzz_text(args.data@, word@))
        },
{
    let fuzzed = match search_fuzz(args, word) {
        Some(a) => a,
        None => {
            return Err(CraftError::NoFuzz);
        },
    };
    let Args { url, headers, method, data, .. } = fuzzed;
    let headers_hash = match prepare_headers(headers) {
        Some(m) => m,
        None => {
            return Err(CraftError::TooManyHeaders);
        },
    };
    let url = match url {
        Some(u) => u,
        None => {
            return Err(CraftError::MissingUrl);
        },
    };
    match method {
        Some(HTTPMethods::POST) => Ok(
            RequestPlan { method: HTTPMethods::POST, url, headers: headers_hash, body: Some(data) },
        ),
        _ => Ok(RequestPlan { method: HTTPMethods::GET, url, headers: headers_hash, body: None }),
    }
}

/// The method sent is the one given, GET where none is.
pub proof fn lemma_method_sent(m: Option<HTTPMethods>)
    ensures
        m matches Some(x) ==> method_or_get(m) == x,
        m is None ==> method_or_get(m) == HTTPMethods::GET,
{
}

/// With only a status list given, a response is filtered exactly when its
/// status is in the list.
pub proof fn lemma_status_filter_exact(
    status_code: u16,
    res_body: Seq<char>,
    res_len: usize,
    words: int,
    f: Args,
)
    requires
        f.filter_status is Some,
        f.filter_reponse_len is None,
        f.contain is None,
        f.filter_words is None,
    ensures
        response_filtered(status_code, res_body, res_len, words, f) <==> f.filter_status->0@.contains(
            status_code,
        ),
{
}

/// Adding status codes to the filter list never reports a response that was filtered.
pub proof fn lemma_status_filter_monotone(
    status_code: u16,
    res_body: Seq<char>,
    res_len: usize,
    words: int,
    f: Args,
    g: Args,
)
    requires
        f.filter_status is Some,
        g.filter_status is Some,
        forall|x: u16| f.filter_status->0@.contains(x) ==> g.filter_status->0@.contains(x),
        g == (Args { filter_status: g.filter_status, ..f }),
    ensures
        response_filtered(status_code, res_body, res_len, words, f) ==> response_filtered(
            status_code,
            res_body,
            res_len,
            words,
            g,
        ),
{
}

/// A body that contains the filter text is filtered, whatever else is set.
pub proof fn lemma_body_filter(
    status_code: u16,
    res_body: Seq<char>,
    res_len: usize,
    words: int,
    f: Args,
)
    requires
        f.contain matches Some(c) && contains_seq(res_body, c@),
    ensures
        response_filtered(status_code, res_body, res_len, words, f),
{
}

/// Putting the placeholder itself in place of the placeholder changes
/// nothing: the URL, the body and the headers read as before.
pub proof fn lemma_fuzz_by_placeholder(a: Args, r: Args)
    requires
        fuzzed_args(a, fuzz(), r),
    ensures
        a.url matches Some(u) ==> r.url->0@ == u@,
        r.data@ == a.data@,
        a.headers matches Some(hs) ==> strings_view(r.headers->0@) == strings_view(hs@),
{
    lemma_replace_by_itself(a.data@, fuzz());
    if let Some(u) = a.url {
        lemma_replace_by_itself(u@, fuzz());
    }
    if let Some(hs) = a.headers {
        let hv = strings_view(hs@);
        assert forall|i: int| 0 <= i < hv.len() implies fuzz_lines(hv, fuzz())[i] == hv[i] by {
            lemma_replace_by_itself(hv[i], fuzz());
        }
        assert(fuzz_lines(hv, fuzz()) =~= hv);
    }
}

} // verus!
