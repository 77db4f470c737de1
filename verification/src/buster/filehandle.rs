//! Reading a raw HTTP request (as captured by a proxy or a browser) into the
//! settings of a fuzzing run: method, target URL, headers and body.
use vstd::prelude::*;
use vstd::string::*;

use super::cli::{all_ascii, ascii_upper, method_from_name, method_named, Args, HTTPMethods};
use super::PartingFileInfo;
use super::shared::ascii_lower;
use super::text::{
    chars_of, contains_seq, find_chars, index_view, find_first, join_seq, lemma_find_from, matches_at,
    lemma_join_split, split_seq, split_str, strings_view, trim_seq, trim_str, lemma_find_from_is,
    lemma_no_char_before, lemma_split_first, lemma_split_none, lemma_split_words,
};

verus! {

broadcast use vstd::string::group_string_axioms;

/// Line end of a request: `\r\n`.
pub open spec fn crlf() -> Seq<char> {
    seq!['\r', '\n']
}

/// End of the header block: `\r\n\r\n`.
pub open spec fn blank_line() -> Seq<char> {
    seq!['\r', '\n', '\r', '\n']
}

/// A single space.
pub open spec fn space() -> Seq<char> {
    seq![' ']
}

/// A single colon.
pub open spec fn colon() -> Seq<char> {
    seq![':']
}

/// The scheme prefix `http://`.
pub open spec fn http_prefix() -> Seq<char> {
    seq!['h', 't', 't', 'p', ':', '/', '/']
}

/// `input` cut at the first occurrence of `delimiter`: the text before and the text after it.
pub open spec fn spec_read_until(input: Seq<char>, delimiter: Seq<char>) -> Option<(Seq<char>, Seq<char>)> {
    match find_first(input, delimiter) {
        Some(k) => Some((input.take(k), input.skip(k + delimiter.len()))),
        None => None,
    }
}

/// `c` is the upper-case ASCII letter `upper` or its lower-case form.
pub open spec fn same_letter(c: char, upper: char) -> bool {
    c == upper || (c as u32) == (upper as u32) + 32
}

/// `n` is the word `Host`, in any ASCII case.
pub open spec fn is_host_name(n: Seq<char>) -> bool {
    &&& n.len() == 4
    &&& same_letter(n[0], 'H')
    &&& same_letter(n[1], 'O')
    &&& same_letter(n[2], 'S')
    &&& same_letter(n[3], 'T')
}

/// A header line whose name (the text before its first colon, trimmed) is `Host`.
pub open spec fn is_host_line(h: Seq<char>) -> bool {
    match spec_read_until(h, colon()) {
        Some((name, value)) => is_host_name(trim_seq(name)),
        None => false,
    }
}

/// The index of the first `Host` line in `hs` at or after `i`.
pub open spec fn first_host_line_from(hs: Seq<Seq<char>>, i: int) -> Option<int>
    decreases hs.len() - i,
{
    if i < 0 || i >= hs.len() {
        None
    } else if is_host_line(hs[i]) {
        Some(i)
    } else {
        first_host_line_from(hs, i + 1)
    }
}

/// The host named by a header line: the text after its first colon,
/// trimmed, when that is not empty.
pub open spec fn host_field(h: Seq<char>) -> Option<Seq<char>> {
    match spec_read_until(h, colon()) {
        Some((name, value)) => if trim_seq(value).len() > 0 {
            Some(trim_seq(value))
        } else {
            None
        },
        None => None,
    }
}

/// The host named by the first `Host` line.
pub open spec fn host_of_headers(hs: Seq<Seq<char>>) -> Option<Seq<char>> {
    match first_host_line_from(hs, 0) {
        Some(i) => host_field(hs[i]),
        None => None,
    }
}

/// The request line, the header block and the body of a raw request, where
/// the request line ends at the first `\r\n` and the header block at the
/// first `\r\n\r\n` after it.
pub open spec fn request_parts(content: Seq<char>) -> Option<(Seq<char>, Seq<char>, Seq<char>)> {
    match spec_read_until(content, crlf()) {
        Some((line, rest)) => match spec_read_until(rest, blank_line()) {
            Some((headers, body)) => Some((line, headers, body)),
            None => None,
        },
        None => None,
    }
}

/// Why a raw request cannot be read.
#[derive(Debug, Clone, Copy, PartialEq, Eq, Structural)]
pub enum RequestFileError {
    /// No `\r\n` ends the request line.
    MissingRequestLine,
    /// No `\r\n\r\n` ends the header block.
    MissingHeaderEnd,
    /// No header line is named `Host`, or the first that is names no host.
    HostNotFound,
    /// The request line holds no space, so no path follows the method.
    MissingPath,
}

/// What reading the raw request `content` fails on first, if anything.
pub open spec fn request_problem(content: Seq<char>) -> Option<RequestFileError> {
    match spec_read_until(content, crlf()) {
        None => Some(RequestFileError::MissingRequestLine),
        Some((line, rest)) => match spec_read_until(rest, blank_line()) {
            None => Some(RequestFileError::MissingHeaderEnd),
            Some((headers, body)) => if host_of_headers(split_seq(headers, crlf())) is None {
                Some(RequestFileError::HostNotFound)
            } else if split_seq(line, space()).len() < 2 {
                Some(RequestFileError::MissingPath)
            } else {
                None
            },
        },
    }
}

/// The raw request `content` can be read into settings.
pub open spec fn request_well_formed(content: Seq<char>) -> bool {
    request_problem(content) is None
}

/// The settings read from a well-formed raw request, on top of `args`.
pub open spec fn prepared_args_match(args: Args, content: Seq<char>, r: Args) -> bool {
    let (line, headers, body) = request_parts(content)->0;
    let words = split_seq(line, space());
    let host = host_of_headers(split_seq(headers, crlf()))->0;
    &&& r.method == method_from_name(words[0]).ok()
    &&& (all_ascii(words[0]) ==> r.method == method_named(ascii_upper(words[0])).ok())
    &&& r.headers is Some
    &&& strings_view(r.headers->0@) == split_seq(headers, crlf())
    &&& r.url is Some
    &&& r.url->0@ == http_prefix() + host + words[1]
    &&& r.data@ == body
    &&& r == (Args { method: r.method, headers: r.headers, url: r.url, data: r.data, ..args })
}

/// A raw HTTP request file, read into the settings of a run.
pub struct FileParsing {
    /// The settings, as far as read.
    pub args: Args,
    /// The text of the request file.
    pub file_content: String,
}

fn crlf_str() -> (r: &'static str)
    ensures
        r@ == crlf(),
{
    proof {
        reveal_strlit("\r\n");
        assert("\r\n"@ =~= crlf());
    }
    "\r\n"
}

fn blank_line_str() -> (r: &'static str)
    ensures
        r@ == blank_line(),
{
    proof {
        reveal_strlit("\r\n\r\n");
        assert("\r\n\r\n"@ =~= blank_line());
    }
    "\r\n\r\n"
}

fn space_str() -> (r: &'static str)
    ensures
        r@ == space(),
{
    proof {
        reveal_strlit(" ");
        assert(" "@ =~= space());
    }
    " "
}

fn colon_str() -> (r: &'static str)
    ensures
        r@ == colon(),
{
    proof {
        reveal_strlit(":");
        assert(":"@ =~= colon());
    }
    ":"
}

fn http_prefix_str() -> (r: &'static str)
    ensures
        r@ == http_prefix(),
{
    proof {
        reveal_strlit("http://");
        assert("http://"@ =~= http_prefix());
    }
    "http://"
}

fn same_letter_exec(c: char, upper: char) -> (r: bool)
    requires
        (upper as u32) < 128,
    ensures
        r == same_letter(c, upper),
{
    c == upper || (c as u32) == (upper as u32) + 32
}

/// Whether the header line is named `Host`, in any ASCII case.
fn is_host_line_exec(h: &str) -> (r: bool)
    ensures
        r == is_host_line(h@),
{
    match FileParsing::read_until_char(h, colon_str()) {
        Some(parts) => {
            let name = chars_of(trim_str(parts.0.as_str()).as_str());
            name.len() == 4 && same_letter_exec(name[0], 'H') && same_letter_exec(name[1], 'O')
                && same_letter_exec(name[2], 'S') && same_letter_exec(name[3], 'T')
        },
        None => false,
    }
}

/// The host a header line names: the trimmed text after its first colon, where not empty.
fn host_value(h: &str) -> (r: Option<String>)
    ensures
        match r {
            Some(s) => host_field(h@) == Some(s@),
            None => host_field(h@) is None,
        },
{
    match FileParsing::read_until_char(h, colon_str()) {
        Some(parts) => {
            let value = trim_str(parts.1.as_str());
            if value.as_str().unicode_len() > 0 {
                Some(value)
            } else {
                None
            }
        },
        None => None,
    }
}

/// The index of the first header line named `Host`.
fn first_host_index(hs: &Vec<String>) -> (r: Option<usize>)
    ensures
        index_view(r) == first_host_line_from(strings_view(hs@), 0),
        r matches Some(i) ==> i < hs.len() && strings_view(hs@)[i as int] == hs@[i as int]@,
{
    let ghost hv = strings_view(hs@);
    let mut i: usize = 0;
    while i < hs.len()
        invariant
            hv == strings_view(hs@),
            i <= hs.len(),
            first_host_line_from(hv, 0) == first_host_line_from(hv, i as int),
        decreases hs.len() - i,
    {
        assert(hv[i as int] == hs@[i as int]@);
        if is_host_line_exec(hs[i].as_str()) {
            return Some(i);
        }
        i = i + 1;
    }
    None
}

impl FileParsing {
    /// The text of the request file, as last loaded.
    pub open spec fn content(&self) -> Seq<char> {
        self.file_content@
    }

    /// A parser for the request file named in `args`, with nothing loaded yet.
    pub fn new(args: Args) -> (r: Self)
        ensures
            r.args == args,
            r.content() == Seq::<char>::empty(),
    {
        FileParsing { args, file_content: String::new() }
    }

    /// Takes in the text of the request file.
    pub fn set_file_content(&mut self, content: String)
        ensures
            final(self).args == old(self).args,
            final(self).content() == content@,
    {
        self.file_content = content;
    }

    /// Sets the method to the one the request line names in its first word;
    /// to none where that word names no method.
    pub fn extract_method(&mut self, line: &str)
        ensures
            final(self).args == (Args {
                method: method_from_name(split_seq(line@, space())[0]).ok(),
                ..old(self).args
            }),
            all_ascii(split_seq(line@, space())[0]) ==> final(self).args.method == method_named(
                ascii_upper(split_seq(line@, space())[0]),
            ).ok(),
            final(self).content() == old(self).content(),
    {
        let path = split_str(line, space_str());
        proof {
            lemma_join_split(line@, space());
            assert(path@[0]@ == strings_view(path@)[0]);
        }
        let method_type = HTTPMethods::from_name(path[0].as_str()).ok();
        self.args.method = method_type;
    }

    /// Appends a POST path to the base URL; `/` where there is none.
    pub fn extract_post_path(&mut self, parts: Option<String>)
        requires
            old(self).args.url is Some,
        ensures
            final(self).args.url is Some,
            final(self).args.url->0@ == old(self).args.url->0@ + match parts {
                Some(p) => p@,
                None => seq!['/'],
            },
            final(self).args == (Args { url: final(self).args.url, ..old(self).args }),
            final(self).content() == old(self).content(),
    {
        let mut url = match &self.args.url {
            Some(base) => base.clone(),
            None => String::new(),
        };
        match parts {
            Some(path) => {
                url.append(path.as_str());
            },
            None => {
                proof {
                    reveal_strlit("/");
                    assert("/"@ =~= seq!['/']);
                }
                url.append("/");
            },
        }
        self.args.url = Some(url);
    }

    /// `input` cut at the first occurrence of `delimiter`; none where it does not occur.
    pub fn read_until_char(input: &str, delimiter: &str) -> (r: Option<PartingFileInfo>)
        ensures
            match r {
                Some(p) => spec_read_until(input@, delimiter@) == Some((p.0@, p.1@)),
                None => spec_read_until(input@, delimiter@) is None,
            },
    {
        let iv = chars_of(input);
        let dv = chars_of(delimiter);
        match find_chars(&iv, &dv, 0) {
            Some(k) => {
                proof {
                    lemma_find_from(input@, delimiter@, 0);
                }
                let n: usize = iv.len();
                let d: usize = dv.len();
                assert(k + d <= n);
                let before = input.substring_char(0, k).to_owned();
                let after = input.substring_char(k + d, n).to_owned();
                proof {
                    assert(before@ =~= input@.take(k as int));
                    assert(after@ =~= input@.skip(k + d));
                }
                Some(PartingFileInfo(before, after))
            },
            None => None,
        }
    }

    /// Sets the headers to the lines of the header block.
    pub fn extract_headers(&mut self, file_remaining: String)
        ensures
            final(self).args.headers is Some,
            strings_view(final(self).args.headers->0@) == split_seq(file_remaining@, crlf()),
            final(self).args == (Args { headers: final(self).args.headers, ..old(self).args }),
            final(self).content() == old(self).content(),
    {
        let headers_vec = split_str(file_remaining.as_str(), crlf_str());
        self.args.headers = Some(headers_vec);
    }

    /// The URL `http://host` of the host named by the first `Host` header line.
    pub fn extract_hostname(&self, headers: &Option<Vec<String>>) -> (r: Option<String>)
        requires
            headers is Some,
            host_of_headers(strings_view(headers->0@)) is Some,
        ensures
            r is Some,
            r->0@ == http_prefix() + host_of_headers(strings_view(headers->0@))->0,
    {
        let hs = match headers {
            Some(h) => h,
            None => {
                return None;
            },
        };
        proof {
            assert(strings_view(hs@) == strings_view(headers->0@));
        }
        match first_host_index(hs) {
            Some(i) => {
                match host_value(hs[i].as_str()) {
                    Some(host) => {
                        let mut url = http_prefix_str().to_owned();
                        url.append(host.as_str());
                        Some(url)
                    },
                    None => None,
                }
            },
            None => None,
        }
    }

    /// Appends the path of the request line (its second word) to the URL.
    pub fn extract_get_path(&mut self, parts: Option<String>)
        requires
            parts is Some,
            split_seq(parts->0@, space()).len() >= 2,
            old(self).args.url is Some,
        ensures
            final(self).args.url is Some,
            final(self).args.url->0@ == old(self).args.url->0@ + split_seq(parts->0@, space())[1],
            final(self).args == (Args { url: final(self).args.url, ..old(self).args }),
            final(self).content() == old(self).content(),
    {
        let part = match parts {
            Some(p) => p,
            None => {
                return;
            },
        };
        let path = split_str(part.as_str(), space_str());
        let isolated_path = &path[1];
        proof {
            assert(path@[1]@ == strings_view(path@)[1]);
        }
        let mut url = match &self.args.url {
            Some(base) => base.clone(),
            None => String::new(),
        };
        url.append(isolated_path.as_str());
        self.args.url = Some(url);
    }

    /// The cut text that a search found.
    pub fn handle_match_parsing(buf: Option<PartingFileInfo>) -> (r: PartingFileInfo)
        requires
            buf is Some,
        ensures
            r == buf->0,
    {
        match buf {
            Some(value) => value,
            None => PartingFileInfo(String::new(), String::new()),
        }
    }

    /// What reading the loaded request file fails on first, if anything.
    pub fn check_request_file(&self) -> (r: Result<(), RequestFileError>)
        ensures
            match r {
                Ok(()) => request_problem(self.content()) is None,
                Err(e) => request_problem(self.content()) == Some(e),
            },
    {
        let first_line = match FileParsing::read_until_char(self.file_content.as_str(), crlf_str()) {
            Some(p) => p,
            None => {
                return Err(RequestFileError::MissingRequestLine);
            },
        };
        let raw_headers = match FileParsing::read_until_char(first_line.1.as_str(), blank_line_str()) {
            Some(p) => p,
            None => {
                return Err(RequestFileError::MissingHeaderEnd);
            },
        };
        let lines = split_str(raw_headers.0.as_str(), crlf_str());
        if !Self::has_host(&lines) {
            return Err(RequestFileError::HostNotFound);
        }
        let words = split_str(first_line.0.as_str(), space_str());
        if words.len() < 2 {
            return Err(RequestFileError::MissingPath);
        }
        Ok(())
    }

    /// Whether a `Host` header line names a host.
    fn has_host(hs: &Vec<String>) -> (r: bool)
        ensures
            r == (host_of_headers(strings_view(hs@)) is Some),
    {
        match first_host_index(hs) {
            Some(i) => {
                host_value(hs[i].as_str()).is_some()
            },
            None => false,
        }
    }

    /// Reads the loaded request file into the settings: the method from the
    /// first word of the request line, the headers from the header block,
    /// the URL from the `Host` header followed by the path of the request
    /// line, and the body from what follows the header block.
    pub fn prepare_args_from_file(&mut self)
        requires
            request_well_formed(old(self).content()),
        ensures
            prepared_args_match(old(self).args, old(self).content(), final(self).args),
            ({
                let (line, rest) = spec_read_until(old(self).content(), crlf())->0;
                let (headers, body) = spec_read_until(rest, blank_line())->0;
                &&& final(self).args.url is Some
                &&& final(self).args.url->0@ == http_prefix() + host_of_headers(
                    split_seq(headers, crlf()),
                )->0 + split_seq(line, space())[1]
                &&& final(self).args.data@ == body
                &&& final(self).args.headers is Some
                &&& strings_view(final(self).args.headers->0@) == split_seq(headers, crlf())
                &&& final(self).args.method == method_from_name(split_seq(line, space())[0]).ok()
                &&& final(self).args == (Args {
                    method: final(self).args.method,
                    headers: final(self).args.headers,
                    url: final(self).args.url,
                    data: final(self).args.data,
                    ..old(self).args
                })
            }),
            final(self).content() == old(self).content(),
    {
        let parsing = FileParsing::read_until_char(self.file_content.as_str(), crlf_str());
        let first_line = FileParsing::handle_match_parsing(parsing);
        self.extract_method(first_line.0.as_str());

        let parsing = FileParsing::read_until_char(first_line.1.as_str(), blank_line_str());
        let raw_headers = FileParsing::handle_match_parsing(parsing);
        self.extract_headers(raw_headers.0);

        let url = self.extract_hostname(&self.args.headers);
        self.args.url = url;

        self.extract_get_path(Some(first_line.0));

        self.args.data = raw_headers.1;
    }
}

/// Cutting a text at a delimiter loses nothing: the text is what stands
/// before the delimiter, the delimiter and what follows it, and what stands
/// before holds no occurrence of the delimiter.
pub proof fn lemma_read_until_reassembles(input: Seq<char>, delimiter: Seq<char>)
    requires
        spec_read_until(input, delimiter) is Some,
    ensures
        ({
            let (before, after) = spec_read_until(input, delimiter)->0;
            &&& input == before + delimiter + after
            &&& delimiter.len() > 0 ==> !contains_seq(before, delimiter)
        }),
{
    lemma_find_from(input, delimiter, 0);
    let k: int = find_first(input, delimiter)->0;
    let (before, after) = spec_read_until(input, delimiter)->0;
    assert(input =~= before + delimiter + after);
    if delimiter.len() > 0 {
        lemma_find_from(before, delimiter, 0);
        if contains_seq(before, delimiter) {
            let j: int = find_first(before, delimiter)->0;
            assert(before.subrange(j, j + delimiter.len()) =~= input.subrange(
                j,
                j + delimiter.len(),
            ));
            assert(matches_at(input, delimiter, j));
        }
    }
}

/// Reading a well-formed request file gives the URL `http://` + the host of
/// the `Host` line + the second word of the request line (the path with any
/// query string), the header lines of the header block, the body after it,
/// and the method named by the first word.
pub proof fn lemma_prepared_args(args: Args, content: Seq<char>, r: Args)
    requires
        request_well_formed(content),
        prepared_args_match(args, content, r),
    ensures
        ({
            let (line, rest) = spec_read_until(content, crlf())->0;
            let (headers, body) = spec_read_until(rest, blank_line())->0;
            &&& r.url is Some
            &&& r.url->0@ == http_prefix() + host_of_headers(split_seq(headers, crlf()))->0
                + split_seq(line, space())[1]
            &&& r.data@ == body
            &&& r.headers is Some
            &&& strings_view(r.headers->0@) == split_seq(headers, crlf())
            &&& r.method == method_from_name(split_seq(line, space())[0]).ok()
            &&& r.threads == args.threads
            &&& r.wordlist == args.wordlist
            &&& r.file == args.file
        }),
{
}

/// A well-formed raw request is exactly its request line, its header lines
/// and its body, put back together with the line ends between them: reading
/// it loses nothing.
pub proof fn lemma_request_reassembles(content: Seq<char>)
    requires
        request_well_formed(content),
    ensures
        ({
            let (line, headers, body) = request_parts(content)->0;
            content == line + crlf() + join_seq(split_seq(headers, crlf()), crlf()) + blank_line()
                + body
        }),
{
    let k: int = find_first(content, crlf())->0;
    lemma_find_from(content, crlf(), 0);
    let rest = content.skip(k + 2);
    let j: int = find_first(rest, blank_line())->0;
    lemma_find_from(rest, blank_line(), 0);
    let (line, headers, body) = request_parts(content)->0;
    lemma_join_split(headers, crlf());
    assert(rest =~= headers + blank_line() + body);
    assert(content =~= line + crlf() + rest);
}

} // verus!

verus! {

/// Cutting `a + d + b` at `d`, where `d` does not occur before the end of
/// `a`, gives `a` and `b`.
pub proof fn lemma_read_until_first(a: Seq<char>, d: Seq<char>, b: Seq<char>)
    requires
        forall|j: int| 0 <= j < a.len() ==> !matches_at(a + d + b, d, j),
    ensures
        spec_read_until(a + d + b, d) == Some((a, b)),
{
    let s = a + d + b;
    assert(s.subrange(a.len() as int, (a.len() + d.len()) as int) =~= d);
    lemma_find_from_is(s, d, 0, a.len() as int);
    assert(s.take(a.len() as int) =~= a);
    assert(s.skip((a.len() + d.len()) as int) =~= b);
}

/// Where `a` holds no line feed, `\r\n` does not occur in `a + crlf() + b`
/// before the end of `a`.
proof fn lemma_no_lf_before(a: Seq<char>, b: Seq<char>)
    requires
        forall|i: int| 0 <= i < a.len() ==> a[i] != '\n',
    ensures
        forall|j: int| 0 <= j < a.len() ==> !matches_at(#[trigger] (a + crlf() + b), crlf(), j),
{
    assert forall|j: int| 0 <= j < a.len() implies !matches_at(a + crlf() + b, crlf(), j) by {
        let s = a + crlf() + b;
        if matches_at(s, crlf(), j) {
            assert(s.subrange(j, j + 2)[1] == s[j + 1]);
            if j + 1 < a.len() {
                assert(s[j + 1] == a[j + 1]);
            } else {
                assert(s[j + 1] == '\r');
            }
        }
    }
}

/// Text without a line feed holds no `\r\n`.
proof fn lemma_no_lf_anywhere(a: Seq<char>)
    requires
        forall|i: int| 0 <= i < a.len() ==> a[i] != '\n',
    ensures
        forall|j: int| 0 <= j ==> !matches_at(a, crlf(), j),
{
    assert forall|j: int| 0 <= j implies !matches_at(a, crlf(), j) by {
        if matches_at(a, crlf(), j) {
            assert(a.subrange(j, j + 2)[1] == a[j + 1]);
        }
    }
}

/// A header line `n: h`, where `n` holds no colon and is `Host` in any case
/// once trimmed, names the host `h` trimmed.
pub proof fn lemma_host_line(n: Seq<char>, h: Seq<char>)
    requires
        forall|i: int| 0 <= i < n.len() ==> n[i] != ':',
        is_host_name(trim_seq(n)),
    ensures
        is_host_line(n + colon() + h),
        trim_seq(h).len() > 0 ==> host_field(n + colon() + h) == Some(trim_seq(h)),
        trim_seq(h).len() == 0 ==> host_field(n + colon() + h) is None,
{
    lemma_no_char_before(n, ':', h);
    lemma_read_until_first(n, colon(), h);
}

/// The host comes from the first header line named `Host`: where the first
/// line is one, it names the host, whatever lines follow.
pub proof fn lemma_host_first_line(n: Seq<char>, h: Seq<char>, rest: Seq<Seq<char>>)
    requires
        forall|i: int| 0 <= i < n.len() ==> n[i] != ':',
        is_host_name(trim_seq(n)),
        trim_seq(h).len() > 0,
    ensures
        host_of_headers(seq![n + colon() + h] + rest) == Some(trim_seq(h)),
{
    lemma_host_line(n, h);
    let hs = seq![n + colon() + h] + rest;
    assert(hs[0] == n + colon() + h);
}

/// Searching from `i + 1` past a leading line is searching from `i` in the rest.
proof fn lemma_first_host_shift(h: Seq<char>, rest: Seq<Seq<char>>, i: int)
    requires
        0 <= i,
    ensures
        first_host_line_from(seq![h] + rest, i + 1) == match first_host_line_from(rest, i) {
            Some(k) => Some(k + 1),
            None => None::<int>,
        },
    decreases rest.len() - i,
{
    let hs = seq![h] + rest;
    if i < rest.len() {
        assert(hs[i + 1] == rest[i]);
        lemma_first_host_shift(h, rest, i + 1);
    }
}

/// A header line without a colon is passed over in the search for the host.
pub proof fn lemma_host_skips_plain_line(h: Seq<char>, rest: Seq<Seq<char>>)
    requires
        forall|i: int| 0 <= i < h.len() ==> h[i] != ':',
    ensures
        host_of_headers(seq![h] + rest) == host_of_headers(rest),
{
    lemma_find_from(h, colon(), 0);
    if find_first(h, colon()) is Some {
        let k = find_first(h, colon())->0;
        assert(h.subrange(k, k + 1)[0] == h[k]);
    }
    let hs = seq![h] + rest;
    assert(hs[0] == h);
    lemma_first_host_shift(h, rest, 0);
    if first_host_line_from(rest, 0) is Some {
        let k = first_host_line_from(rest, 0)->0;
        lemma_first_host_index(rest, 0);
        assert(hs[k + 1] == rest[k]);
    }
}

/// A header line `n: v` whose name is not `Host` is passed over in the
/// search for the host.
pub proof fn lemma_host_skips_other_line(n: Seq<char>, v: Seq<char>, rest: Seq<Seq<char>>)
    requires
        forall|i: int| 0 <= i < n.len() ==> n[i] != ':',
        !is_host_name(trim_seq(n)),
    ensures
        host_of_headers(seq![n + colon() + v] + rest) == host_of_headers(rest),
{
    lemma_no_char_before(n, ':', v);
    lemma_read_until_first(n, colon(), v);
    let h = n + colon() + v;
    let hs = seq![h] + rest;
    assert(hs[0] == h);
    lemma_first_host_shift(h, rest, 0);
    if first_host_line_from(rest, 0) is Some {
        let k = first_host_line_from(rest, 0)->0;
        lemma_first_host_index(rest, 0);
        assert(hs[k + 1] == rest[k]);
    }
}

/// What the search for the `Host` line finds lies in range.
proof fn lemma_first_host_index(hs: Seq<Seq<char>>, i: int)
    ensures
        first_host_line_from(hs, i) matches Some(k) ==> i <= k < hs.len(),
    decreases hs.len() - i,
{
    if 0 <= i < hs.len() && !is_host_line(hs[i]) {
        lemma_first_host_index(hs, i + 1);
    }
}

/// Reading a request file `m p v\r\n` + header block + `\r\n\r\n` + body,
/// with no space in `m` or `p`, no line feed in the request line, and a first
/// header line `n: h` whose name is `Host` in any case: the URL is `http://`,
/// then `h` trimmed, then `p` exactly as written (its query string and any
/// `FUZZ` in it included); the body is all that follows the header block;
/// the headers are the lines of the header block; the method is the one `m`
/// names.
pub proof fn lemma_read_request_file(
    args: Args,
    m: Seq<char>,
    p: Seq<char>,
    v: Seq<char>,
    n: Seq<char>,
    h: Seq<char>,
    more: Seq<char>,
    body: Seq<char>,
    r: Args,
)
    requires
        forall|i: int| 0 <= i < m.len() ==> m[i] != ' ' && m[i] != '\n',
        forall|i: int| 0 <= i < p.len() ==> p[i] != ' ' && p[i] != '\n',
        forall|i: int| 0 <= i < v.len() ==> v[i] != '\n',
        forall|i: int| 0 <= i < n.len() ==> n[i] != ':' && n[i] != '\n',
        forall|i: int| 0 <= i < h.len() ==> h[i] != '\n',
        is_host_name(trim_seq(n)),
        trim_seq(h).len() > 0,
        more.len() == 0 || (more.len() >= 2 && more.take(2) == crlf()),
        forall|j: int|
            0 <= j < (n + colon() + h + more).len() ==> !matches_at(
                #[trigger] (n + colon() + h + more + blank_line() + body),
                blank_line(),
                j,
            ),
        prepared_args_match(
            args,
            m + seq![' '] + p + seq![' '] + v + crlf() + n + colon() + h + more + blank_line()
                + body,
            r,
        ),
    ensures
        request_well_formed(
            m + seq![' '] + p + seq![' '] + v + crlf() + n + colon() + h + more + blank_line()
                + body,
        ),
        r.url is Some,
        r.url->0@ == http_prefix() + trim_seq(h) + p,
        r.data@ == body,
        r.headers is Some,
        strings_view(r.headers->0@)[0] == n + colon() + h,
        r.method == method_from_name(m).ok(),
{
    let line = m + seq![' '] + p + seq![' '] + v;
    let first = n + colon() + h;
    let hdrs = first + more;
    let rest = hdrs + blank_line() + body;
    let content = m + seq![' '] + p + seq![' '] + v + crlf() + n + colon() + h + more
        + blank_line() + body;
    assert(content =~= line + crlf() + rest);
    assert forall|i: int| 0 <= i < line.len() implies line[i] != '\n' by {
        if i < m.len() {
            assert(line[i] == m[i]);
        } else if i == m.len() {
        } else if i < m.len() + 1 + p.len() {
            assert(line[i] == p[i - m.len() - 1]);
        } else if i == m.len() + 1 + p.len() {
        } else {
            assert(line[i] == v[i - m.len() - 2 - p.len()]);
        }
    }
    lemma_no_lf_before(line, rest);
    lemma_read_until_first(line, crlf(), rest);
    assert(n + colon() + h + more + blank_line() + body =~= hdrs + blank_line() + body);
    lemma_read_until_first(hdrs, blank_line(), body);
    assert forall|i: int| 0 <= i < first.len() implies first[i] != '\n' by {
        if i < n.len() {
            assert(first[i] == n[i]);
        } else if i == n.len() {
        } else {
            assert(first[i] == h[i - n.len() - 1]);
        }
    }
    if more.len() == 0 {
        assert(hdrs =~= first);
        lemma_no_lf_anywhere(first);
        lemma_split_none(first, crlf());
        assert(split_seq(hdrs, crlf()) =~= seq![first] + Seq::<Seq<char>>::empty());
        lemma_host_first_line(n, h, Seq::<Seq<char>>::empty());
    } else {
        let more2 = more.skip(2);
        assert(more =~= more.take(2) + more2);
        assert(hdrs =~= first + crlf() + more2);
        lemma_no_lf_before(first, more2);
        lemma_split_first(first, crlf(), more2);
        lemma_host_first_line(n, h, split_seq(more2, crlf()));
    }
    lemma_split_words(m, p, v);
    assert(request_parts(content) == Some((line, hdrs, body)));
}

/// The `Host` line is found by its name in any ASCII case: a name is `Host`
/// exactly where its lower-case form, the form a header map keys it by, is
/// `host`.
pub proof fn lemma_host_name_any_case(n: Seq<char>)
    ensures
        is_host_name(n) <==> ascii_lower(n) == seq!['h', 'o', 's', 't'],
{
    if n.len() == 4 {
        lemma_lower_letter(n[0], 'H', 'h');
        lemma_lower_letter(n[1], 'O', 'o');
        lemma_lower_letter(n[2], 'S', 's');
        lemma_lower_letter(n[3], 'T', 't');
        assert(ascii_lower(n)[0] == ascii_lower(seq![n[0]])[0]);
        assert(ascii_lower(n)[1] == ascii_lower(seq![n[1]])[0]);
        assert(ascii_lower(n)[2] == ascii_lower(seq![n[2]])[0]);
        assert(ascii_lower(n)[3] == ascii_lower(seq![n[3]])[0]);
        if is_host_name(n) {
            assert(ascii_lower(n) =~= seq!['h', 'o', 's', 't']);
        }
        if ascii_lower(n) == seq!['h', 'o', 's', 't'] {
            assert(ascii_lower(n)[0] == 'h');
            assert(ascii_lower(n)[1] == 'o');
            assert(ascii_lower(n)[2] == 's');
            assert(ascii_lower(n)[3] == 't');
        }
    } else {
        assert(ascii_lower(n).len() == n.len());
    }
}

/// A character is an upper-case letter or its lower-case form exactly where
/// its lower-case form is that lower-case letter.
proof fn lemma_lower_letter(c: char, upper: char, lower: char)
    requires
        65 <= (upper as u32) <= 90,
        (lower as u32) == (upper as u32) + 32,
    ensures
        same_letter(c, upper) <==> ascii_lower(seq![c])[0] == lower,
{
    let x: u32 = c as u32;
    if 65 <= x <= 90 {
        assert(ascii_lower(seq![c])[0] == ((x + 32) as char));
        assert(((x + 32) as char) as u32 == x + 32);
    } else {
        assert(ascii_lower(seq![c])[0] == c);
    }
}

} // verus!
