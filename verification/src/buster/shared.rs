//! The request headers of a fuzzing run, read from `Name: value` lines into
//! the header map that the HTTP client sends.
use vstd::prelude::*;
use vstd::string::*;
use vstd::utf8::encode_utf8;

use reqwest::header::{HeaderMap, HeaderName, HeaderValue};

use super::filehandle::{colon, spec_read_until, FileParsing};
use super::text::{
    contains_seq, lemma_find_from, lemma_find_from_is, matches_at, strings_view, trim_seq, trim_str,
};

verus! {

broadcast use vstd::string::group_string_axioms;

#[verifier::external_type_specification]
#[verifier::external_body]
#[verifier::reject_recursive_types(T)]
pub struct ExHeaderMap<T>(reqwest::header::HeaderMap<T>);

#[verifier::external_type_specification]
#[verifier::external_body]
pub struct ExHeaderValue(reqwest::header::HeaderValue);

/// The entries of a header map: for each header name (in the lower-case form
/// the map keeps), the bytes of each value stored under it.
pub uninterp spec fn header_map_contents(m: HeaderMap) -> Map<Seq<char>, Seq<Seq<u8>>>;

/// A character that a header name may hold (an HTTP token character):
/// a letter, a digit, or one of ``!#$%&'*+-.^_`|~``.
pub open spec fn is_token_char(c: char) -> bool {
    let x: u32 = c as u32;
    ||| 48 <= x <= 57
    ||| 65 <= x <= 90
    ||| 97 <= x <= 122
    ||| x == 33 || x == 35 || x == 36 || x == 37 || x == 38 || x == 39
    ||| x == 42 || x == 43 || x == 45 || x == 46
    ||| x == 94 || x == 95 || x == 96 || x == 124 || x == 126
}

/// `s` with `A`..=`Z` in lower case.
pub open spec fn ascii_lower(s: Seq<char>) -> Seq<char> {
    Seq::new(
        s.len(),
        |i: int|
            if 65 <= (s[i] as u32) <= 90 {
                ((s[i] as u32) + 32) as char
            } else {
                s[i]
            },
    )
}

/// What `HeaderName::from_bytes` makes of the bytes of `key`: a name of 1
/// to 65535 token characters, put in lower case; nothing for any other text.
pub open spec fn spec_header_name(key: Seq<char>) -> Option<Seq<char>> {
    if 1 <= key.len() <= 65535 && forall|i: int| 0 <= i < key.len() ==> is_token_char(
        #[trigger] key[i],
    ) {
        Some(ascii_lower(key))
    } else {
        None
    }
}

/// The number of distinct names below which inserting into a header map
/// always succeeds (with fewer names its table never needs to grow past
/// `MAX_SIZE`); beyond it, whether the table can still grow depends on how
/// the names hash.
pub open spec fn header_map_room() -> nat {
    HEADER_MAP_ROOM as nat
}

/// `header_map_room()` as a number: inserting into a header map that holds
/// fewer names always succeeds.
pub const HEADER_MAP_ROOM: usize = 6554;

/// A character that a header value may hold: any from a space upwards but
/// DEL, and the tab.
pub open spec fn header_value_char_ok(c: char) -> bool {
    let x: u32 = c as u32;
    (x >= 32 && x != 127) || x == 9
}

/// Text that `HeaderValue::from_str` accepts.
pub open spec fn header_value_ok(v: Seq<char>) -> bool {
    forall|i: int| 0 <= i < v.len() ==> header_value_char_ok(#[trigger] v[i])
}

/// The entries of an empty header map.
pub open spec fn no_headers() -> Map<Seq<char>, Seq<Seq<u8>>> {
    Map::empty()
}

/// Calls `HeaderMap::new`. Claimed: the map is empty.
#[verifier::external_body]
fn header_map_new() -> (r: HeaderMap)
    ensures
        header_map_contents(r) == no_headers(),
{
    HeaderMap::new()
}

/// Calls `HeaderMap::try_insert` with the name `HeaderName::from_bytes`
/// makes of `name` (its lower-case form, `spec_header_name`) and the value
/// `HeaderValue::from_str` makes of `value`. Claimed, as its source shows:
/// on success the value's bytes are the only value under the name and the
/// other entries are unchanged ("all previous values are removed"); on
/// failure (the map cannot grow) nothing is stored; and with fewer than
/// `header_map_room()` names stored it succeeds. Where more are stored,
/// whether it succeeds is not stated: it depends on how the names hash.
#[verifier::external_body]
fn header_map_try_insert(m: &mut HeaderMap, name: &str, value: &str) -> (r: bool)
    requires
        spec_header_name(name@) is Some,
        header_value_ok(value@),
    ensures
        r ==> header_map_contents(*final(m)) == header_map_contents(*old(m)).insert(
            spec_header_name(name@)->0,
            seq![value.spec_bytes()],
        ),
        !r ==> header_map_contents(*final(m)) == header_map_contents(*old(m)),
        header_map_contents(*old(m)).dom().finite() && header_map_contents(*old(m)).dom().len()
            < header_map_room() ==> r,
{
    let header_name = HeaderName::from_bytes(name.as_bytes()).unwrap();
    let header_value = HeaderValue::from_str(value).unwrap();
    m.try_insert(header_name, header_value).is_ok()
}

/// Calls `HeaderName::from_bytes` on the bytes of `key`. Claimed, as its
/// source shows (the `HEADER_CHARS` table and `MAX_HEADER_NAME_LEN`): it
/// succeeds exactly where the text has 1 to 65535 bytes, each a token
/// character; a character beyond ASCII has bytes outside that set.
#[verifier::external_body]
fn header_name_is_valid(key: &str) -> (r: bool)
    ensures
        r == (spec_header_name(key@) is Some),
{
    HeaderName::from_bytes(key.as_bytes()).is_ok()
}

/// Calls `HeaderValue::from_str`. Claimed: it succeeds exactly where every
/// byte of the text is a tab or from 32 up but 127, as its source checks;
/// the bytes of a character beyond ASCII are all 128 or more, so this is
/// `header_value_ok` on the characters.
#[verifier::external_body]
fn header_value_is_valid(value: &str) -> (r: bool)
    ensures
        r == header_value_ok(value@),
{
    HeaderValue::from_str(value).is_ok()
}

/// A header line cut at its first colon, name and value trimmed.
pub open spec fn parse_header_line(h: Seq<char>) -> Option<(Seq<char>, Seq<char>)> {
    match spec_read_until(h, colon()) {
        Some((k, v)) => Some((trim_seq(k), trim_seq(v))),
        None => None,
    }
}

/// The trimmed name part of a header line.
pub open spec fn header_key(h: Seq<char>) -> Seq<char> {
    match parse_header_line(h) {
        Some((k, v)) => k,
        None => Seq::empty(),
    }
}

/// The trimmed value part of a header line.
pub open spec fn header_text(h: Seq<char>) -> Seq<char> {
    match parse_header_line(h) {
        Some((k, v)) => v,
        None => Seq::empty(),
    }
}

/// A header line that goes into the map: it has a colon, a valid name before
/// it and a valid value after it.
pub open spec fn header_accepted(h: Seq<char>) -> bool {
    &&& parse_header_line(h) is Some
    &&& spec_header_name(header_key(h)) is Some
    &&& header_value_ok(header_text(h))
}

/// The entries of map `m` after each accepted line of `hs` has been inserted
/// in turn, a later line replacing what an earlier one stored under its name.
pub open spec fn headers_after(
    m: Map<Seq<char>, Seq<Seq<u8>>>,
    hs: Seq<Seq<char>>,
) -> Map<Seq<char>, Seq<Seq<u8>>>
    decreases hs.len(),
{
    if hs.len() == 0 {
        m
    } else {
        let prev = headers_after(m, hs.drop_last());
        let h = hs.last();
        if header_accepted(h) {
            prev.insert(spec_header_name(header_key(h))->0, seq![encode_utf8(header_text(h))])
        } else {
            prev
        }
    }
}

/// The header lines sent where none are given.
pub open spec fn default_header_lines() -> Seq<Seq<char>> {
    seq![
        "Content-Type: application/json"@,
        "Accept: application/json"@,
        "User-Agent: SafeBuster/1.0"@,
        "Accept: */*"@,
    ]
}

/// Inserting lines adds at most one name per line.
proof fn lemma_headers_after_size(m: Map<Seq<char>, Seq<Seq<u8>>>, hs: Seq<Seq<char>>)
    requires
        m.dom().finite(),
    ensures
        headers_after(m, hs).dom().finite(),
        headers_after(m, hs).dom().len() <= m.dom().len() + hs.len(),
    decreases hs.len(),
{
    if hs.len() > 0 {
        lemma_headers_after_size(m, hs.drop_last());
    }
}

/// Of two header lines with the same name, the later one wins: after an
/// accepted line, its value is the only one under its name.
pub proof fn lemma_later_header_wins(
    m: Map<Seq<char>, Seq<Seq<u8>>>,
    hs: Seq<Seq<char>>,
    h: Seq<char>,
)
    requires
        header_accepted(h),
    ensures
        headers_after(m, hs.push(h))[spec_header_name(header_key(h))->0] == seq![
            encode_utf8(header_text(h)),
        ],
        headers_after(m, hs.push(h)).dom().contains(spec_header_name(header_key(h))->0),
{
    assert(hs.push(h).drop_last() =~= hs);
}

/// A line `N: v`, where `N` holds no colon, names a valid header and `v`
/// trimmed is a valid value, is accepted whatever characters `v` holds: its
/// name is `N` trimmed, its value is all of `v` trimmed (semicolons, further
/// colons and all), and the map then stores exactly that value's bytes under
/// the lower-case form of the name.
pub proof fn lemma_header_line_value(
    m: Map<Seq<char>, Seq<Seq<u8>>>,
    hs: Seq<Seq<char>>,
    n: Seq<char>,
    v: Seq<char>,
)
    requires
        !contains_seq(n, colon()),
        spec_header_name(trim_seq(n)) is Some,
        header_value_ok(trim_seq(v)),
    ensures
        header_accepted(n + colon() + v),
        header_key(n + colon() + v) == trim_seq(n),
        header_text(n + colon() + v) == trim_seq(v),
        headers_after(m, hs.push(n + colon() + v))[ascii_lower(trim_seq(n))] == seq![
            encode_utf8(trim_seq(v)),
        ],
{
    let h = n + colon() + v;
    lemma_find_from(n, colon(), 0);
    assert forall|j: int| 0 <= j < n.len() implies !matches_at(h, colon(), j) by {
        if matches_at(h, colon(), j) {
            assert(h.subrange(j, j + 1)[0] == h[j]);
            assert(h[j] == n[j]);
            assert(n.subrange(j, j + 1) =~= colon());
            assert(matches_at(n, colon(), j));
        }
    }
    assert(h.subrange(n.len() as int, n.len() as int + 1) =~= colon());
    lemma_find_from_is(h, colon(), 0, n.len() as int);
    assert(h.take(n.len() as int) =~= n);
    assert(h.skip(n.len() as int + 1) =~= v);
    assert(hs.push(h).drop_last() =~= hs);
}

/// An accepted header line whose name is `k`.
pub open spec fn line_names(h: Seq<char>, k: Seq<char>) -> bool {
    header_accepted(h) && spec_header_name(header_key(h))->0 == k
}

/// What a header map built from lines holds: a name is stored exactly where
/// some accepted line has it, and under it stands only the value of the last
/// such line.
pub proof fn lemma_headers_after_lookup(hs: Seq<Seq<char>>, k: Seq<char>)
    ensures
        headers_after(no_headers(), hs).dom().contains(k) <==> exists|i: int|
            0 <= i < hs.len() && line_names(#[trigger] hs[i], k),
        forall|i: int|
            0 <= i < hs.len() && line_names(#[trigger] hs[i], k) && (forall|j: int|
                i < j < hs.len() ==> !line_names(hs[j], k)) ==> headers_after(no_headers(), hs)[k]
                == seq![encode_utf8(header_text(hs[i]))],
    decreases hs.len(),
{
    if hs.len() > 0 {
        let prev = hs.drop_last();
        let n = hs.len() - 1;
        lemma_headers_after_lookup(prev, k);
        assert forall|i: int| 0 <= i < n implies hs[i] == prev[i] by {}
        if line_names(hs[n], k) {
            assert(line_names(hs[n], k));
        } else {
            if headers_after(no_headers(), prev).dom().contains(k) {
                let i = choose|i: int| 0 <= i < prev.len() && line_names(#[trigger] prev[i], k);
                assert(line_names(hs[i], k));
            }
            assert forall|i: int|
                0 <= i < hs.len() && line_names(#[trigger] hs[i], k) && (forall|j: int|
                    i < j < hs.len() ==> !line_names(hs[j], k)) implies headers_after(
                no_headers(),
                hs,
            )[k] == seq![encode_utf8(header_text(hs[i]))] by {
                assert(i < n);
                assert(line_names(prev[i], k));
                assert forall|j: int| i < j < prev.len() implies !line_names(prev[j], k) by {
                    assert(!line_names(hs[j], k));
                }
            }
        }
    }
}

/// The names stored after a prefix of the lines are among those stored after all of them.
proof fn lemma_headers_after_prefix(m: Map<Seq<char>, Seq<Seq<u8>>>, hs: Seq<Seq<char>>, i: int)
    requires
        m.dom().finite(),
        0 <= i <= hs.len(),
    ensures
        headers_after(m, hs.take(i)).dom().subset_of(headers_after(m, hs).dom()),
        headers_after(m, hs.take(i)).dom().len() <= headers_after(m, hs).dom().len(),
    decreases hs.len() - i,
{
    lemma_headers_after_size(m, hs);
    if i == hs.len() {
        assert(hs.take(i) =~= hs);
    } else {
        lemma_headers_after_prefix(m, hs, i + 1);
        assert(hs.take(i + 1).drop_last() =~= hs.take(i));
    }
    vstd::set_lib::lemma_len_subset(
        headers_after(m, hs.take(i)).dom(),
        headers_after(m, hs).dom(),
    );
}

/// Inserts each accepted line of `lines` into `hash`, in order; false where
/// the map could not take a name, which only happens once the lines hold at
/// least `header_map_room()` names.
fn insert_header_lines(hash: &mut HeaderMap, lines: &Vec<String>) -> (r: bool)
    requires
        header_map_contents(*old(hash)).dom().finite(),
    ensures
        r ==> header_map_contents(*final(hash)) == headers_after(
            header_map_contents(*old(hash)),
            strings_view(lines@),
        ),
        headers_after(header_map_contents(*old(hash)), strings_view(lines@)).dom().len()
            < header_map_room() ==> r,
        !r ==> headers_after(header_map_contents(*old(hash)), strings_view(lines@)).dom().len()
            >= header_map_room(),
{
    let ghost m0 = header_map_contents(*hash);
    let ghost lv = strings_view(lines@);
    let mut i: usize = 0;
    proof {
        assert(lv.take(0) =~= Seq::<Seq<char>>::empty());
    }
    while i < lines.len()
        invariant
            lv == strings_view(lines@),
            i <= lines.len(),
            m0 == header_map_contents(*old(hash)),
            m0.dom().finite(),
            header_map_contents(*hash) == headers_after(m0, lv.take(i as int)),
        decreases lines.len() - i,
    {
        proof {
            lemma_headers_after_size(m0, lv.take(i as int));
            lemma_headers_after_prefix(m0, lv, i as int);
            assert(lv.take(i + 1).drop_last() =~= lv.take(i as int));
            assert(lv.take(i + 1).last() == lines@[i as int]@);
        }
        let header = lines[i].as_str();
        match FileParsing::read_until_char(header, ":") {
            Some(parts) => {
                proof {
                    reveal_strlit(":");
                    assert(":"@ =~= colon());
                }
                let key = trim_str(parts.0.as_str());
                let value = trim_str(parts.1.as_str());
                if header_name_is_valid(key.as_str()) {
                    if header_value_is_valid(value.as_str()) {
                        if !header_map_try_insert(hash, key.as_str(), value.as_str()) {
                            return false;
                        }
                    }
                }
            },
            None => {
                proof {
                    reveal_strlit(":");
                    assert(":"@ =~= colon());
                }
            },
        }
        i = i + 1;
    }
    proof {
        assert(lv.take(lines.len() as int) =~= lv);
    }
    true
}

/// The header map of the default headers: JSON content and accept types and
/// the tool's user agent, then `Accept: */*`, which replaces the first accept type.
pub fn init_headers_with_defaults() -> (r: HeaderMap)
    ensures
        header_map_contents(r) == headers_after(
            no_headers(),
            default_header_lines(),
        ),
{
    let mut hash = header_map_new();
    let mut lines: Vec<String> = Vec::new();
    lines.push("Content-Type: application/json".to_owned());
    lines.push("Accept: application/json".to_owned());
    lines.push("User-Agent: SafeBuster/1.0".to_owned());
    lines.push("Accept: */*".to_owned());
    proof {
        assert(strings_view(lines@) =~= default_header_lines());
        lemma_headers_after_size(no_headers(), default_header_lines());
    }
    insert_header_lines(&mut hash, &lines);
    hash
}

/// The header map of the given `Name: value` lines; lines without a colon,
/// with an invalid name or with an invalid value are left out. None where
/// the map cannot grow to take another name (where `HeaderMap::insert`
/// panics), which only happens once the lines hold at least
/// `header_map_room()` names.
pub fn init_headers_with_value(headers: Vec<String>) -> (r: Option<HeaderMap>)
    ensures
        r matches Some(m) ==> header_map_contents(m) == headers_after(
            no_headers(),
            strings_view(headers@),
        ),
        headers_after(no_headers(), strings_view(headers@)).dom().len() < header_map_room()
            ==> r is Some,
        r is None ==> headers_after(no_headers(), strings_view(headers@)).dom().len()
            >= header_map_room(),
{
    let mut hash = header_map_new();
    if insert_header_lines(&mut hash, &headers) {
        Some(hash)
    } else {
        None
    }
}

/// The header map of a run: the given lines where there are any, the
/// default headers otherwise; none where the given lines do not fit (see
/// `init_headers_with_value`).
pub fn prepare_headers(headers: Option<Vec<String>>) -> (r: Option<HeaderMap>)
    ensures
        r matches Some(m) ==> header_map_contents(m) == headers_after(
            no_headers(),
            match headers {
                Some(h) => strings_view(h@),
                None => default_header_lines(),
            },
        ),
        headers is None ==> r is Some,
        (headers matches Some(h) && headers_after(no_headers(), strings_view(h@)).dom().len()
            < header_map_room()) ==> r is Some,
        r is None ==> (headers matches Some(h) && headers_after(
            no_headers(),
            strings_view(h@),
        ).dom().len() >= header_map_room()),
{
    match headers {
        Some(h) => init_headers_with_value(h),
        None => Some(init_headers_with_defaults()),
    }
}

} // verus!
