//! Character-level text operations on which the request parsing rests:
//! substring search, splitting, joining, replacing and whitespace trimming,
//! each stated over the `Seq<char>` view of the strings involved.
use vstd::prelude::*;
use vstd::string::*;

verus! {

broadcast use vstd::string::group_string_axioms;

/// `pat` occurs in `s` starting at index `i`.
pub open spec fn matches_at(s: Seq<char>, pat: Seq<char>, i: int) -> bool {
    &&& 0 <= i
    &&& i + pat.len() <= s.len()
    &&& s.subrange(i, i + pat.len()) == pat
}

/// The index of the first occurrence of `pat` in `s` that starts at or after `i`.
pub open spec fn find_from(s: Seq<char>, pat: Seq<char>, i: int) -> Option<int>
    decreases s.len() + 1 - i,
{
    if i < 0 || i + pat.len() > s.len() {
        None
    } else if matches_at(s, pat, i) {
        Some(i)
    } else {
        find_from(s, pat, i + 1)
    }
}

/// The index of the first occurrence of `pat` in `s`.
pub open spec fn find_first(s: Seq<char>, pat: Seq<char>) -> Option<int> {
    find_from(s, pat, 0)
}

/// `pat` occurs somewhere in `s`.
pub open spec fn contains_seq(s: Seq<char>, pat: Seq<char>) -> bool {
    find_first(s, pat) is Some
}

/// `s` cut at every occurrence of `sep`, scanning left to right; the pieces
/// never include the separators themselves. The separator must not be
/// empty: for an empty one this gives `s` whole, unlike `str::split`.
pub open spec fn split_seq(s: Seq<char>, sep: Seq<char>) -> Seq<Seq<char>>
    recommends
        sep.len() > 0,
    decreases s.len(),
{
    if sep.len() == 0 {
        seq![s]
    } else {
        match find_first(s, sep) {
            Some(k) => {
                proof {
                    lemma_find_from(s, sep, 0);
                }
                seq![s.take(k)] + split_seq(s.skip(k + sep.len()), sep)
            },
            None => seq![s],
        }
    }
}

/// The pieces of `parts`, with `sep` between each two neighbours.
pub open spec fn join_seq(parts: Seq<Seq<char>>, sep: Seq<char>) -> Seq<char>
    decreases parts.len(),
{
    if parts.len() == 0 {
        Seq::empty()
    } else if parts.len() == 1 {
        parts[0]
    } else {
        parts[0] + sep + join_seq(parts.drop_first(), sep)
    }
}

/// `s` with every occurrence of `pat`, taken left to right and without
/// overlap, replaced by `rep`.
pub open spec fn replace_seq(s: Seq<char>, pat: Seq<char>, rep: Seq<char>) -> Seq<char>
    recommends
        pat.len() > 0,
    decreases s.len(),
{
    if pat.len() == 0 {
        s
    } else {
        match find_first(s, pat) {
            Some(k) => {
                proof {
                    lemma_find_from(s, pat, 0);
                }
                s.take(k) + rep + replace_seq(s.skip(k + pat.len()), pat, rep)
            },
            None => s,
        }
    }
}

/// The characters that have the Unicode `White_Space` property.
pub open spec fn is_white_space(c: char) -> bool {
    let x: u32 = c as u32;
    ||| 0x09 <= x <= 0x0d
    ||| x == 0x20
    ||| x == 0x85
    ||| x == 0xa0
    ||| x == 0x1680
    ||| 0x2000 <= x <= 0x200a
    ||| x == 0x2028
    ||| x == 0x2029
    ||| x == 0x202f
    ||| x == 0x205f
    ||| x == 0x3000
}

/// `s` without its leading white space.
pub open spec fn trim_start_seq(s: Seq<char>) -> Seq<char>
    decreases s.len(),
{
    if s.len() > 0 && is_white_space(s[0]) {
        trim_start_seq(s.drop_first())
    } else {
        s
    }
}

/// `s` without its trailing white space.
pub open spec fn trim_end_seq(s: Seq<char>) -> Seq<char>
    decreases s.len(),
{
    if s.len() > 0 && is_white_space(s.last()) {
        trim_end_seq(s.drop_last())
    } else {
        s
    }
}

/// `s` without leading and trailing white space.
pub open spec fn trim_seq(s: Seq<char>) -> Seq<char> {
    trim_end_seq(trim_start_seq(s))
}

/// The number of words of `s`: maximal runs of characters that are not white space.
pub open spec fn word_count(s: Seq<char>) -> nat
    decreases s.len(),
{
    if s.len() == 0 {
        0
    } else {
        let n = s.len() - 1;
        word_count(s.take(n)) + if !is_white_space(s[n]) && (n == 0 || is_white_space(s[n - 1])) {
            1nat
        } else {
            0nat
        }
    }
}

/// The number of `\n` characters in `s`.
pub open spec fn newline_count(s: Seq<char>) -> nat
    decreases s.len(),
{
    if s.len() == 0 {
        0
    } else {
        newline_count(s.drop_last()) + if s.last() == '\n' {
            1nat
        } else {
            0nat
        }
    }
}

/// The number of lines of `s`: one per line end, and one more for text after the last line end.
pub open spec fn line_count(s: Seq<char>) -> nat {
    newline_count(s) + if s.len() > 0 && s.last() != '\n' {
        1nat
    } else {
        0nat
    }
}

/// The views of a sequence of strings.
pub open spec fn strings_view(v: Seq<String>) -> Seq<Seq<char>> {
    v.map_values(|x: String| x@)
}

/// An optional index, as a mathematical integer.
pub open spec fn index_view(o: Option<usize>) -> Option<int> {
    match o {
        Some(k) => Some(k as int),
        None => None,
    }
}

/// What `find_from` returns: the first match at or after `i`, or no match at all.
pub proof fn lemma_find_from(s: Seq<char>, pat: Seq<char>, i: int)
    requires
        0 <= i,
    ensures
        match find_from(s, pat, i) {
            Some(k) => {
                &&& i <= k
                &&& matches_at(s, pat, k)
                &&& forall|j: int| i <= j < k ==> !matches_at(s, pat, j)
            },
            None => forall|j: int| i <= j ==> !matches_at(s, pat, j),
        },
    decreases s.len() + 1 - i,
{
    if i + pat.len() > s.len() {
    } else if matches_at(s, pat, i) {
    } else {
        lemma_find_from(s, pat, i + 1);
    }
}

/// A match with none before it, at or after `i`, is what the search from `i` finds.
pub proof fn lemma_find_from_is(s: Seq<char>, pat: Seq<char>, i: int, k: int)
    requires
        0 <= i <= k,
        matches_at(s, pat, k),
        forall|j: int| i <= j < k ==> !matches_at(s, pat, j),
    ensures
        find_from(s, pat, i) == Some(k),
    decreases k - i,
{
    if i < k {
        lemma_find_from_is(s, pat, i + 1, k);
    }
}

/// A match at or after `start` is a match in the suffix that begins at `start`.
pub proof fn lemma_matches_at_skip(s: Seq<char>, pat: Seq<char>, start: int, j: int)
    requires
        0 <= start <= s.len(),
        0 <= j,
    ensures
        matches_at(s, pat, start + j) == matches_at(s.skip(start), pat, j),
{
    if 0 <= j && j + pat.len() <= s.len() - start {
        assert(s.subrange(start + j, start + j + pat.len()) =~= s.skip(start).subrange(
            j,
            j + pat.len(),
        ));
    }
}

/// Searching from `start + j` in `s` is searching from `j` in the suffix of `s` at `start`.
pub proof fn lemma_find_from_skip(s: Seq<char>, pat: Seq<char>, start: int, j: int)
    requires
        0 <= start <= s.len(),
        0 <= j,
    ensures
        find_from(s, pat, start + j) == match find_from(s.skip(start), pat, j) {
            Some(k) => Some(k + start),
            None => None::<int>,
        },
    decreases s.len() + 1 - (start + j),
{
    lemma_matches_at_skip(s, pat, start, j);
    if start + j + pat.len() > s.len() {
    } else if matches_at(s, pat, start + j) {
    } else {
        lemma_find_from_skip(s, pat, start, j + 1);
    }
}

/// Splitting at a separator and joining again with it gives back the text.
pub proof fn lemma_join_split(s: Seq<char>, sep: Seq<char>)
    requires
        sep.len() > 0,
    ensures
        split_seq(s, sep).len() >= 1,
        join_seq(split_seq(s, sep), sep) == s,
    decreases s.len(),
{
    lemma_find_from(s, sep, 0);
    match find_first(s, sep) {
        Some(k) => {
            let rest = s.skip(k + sep.len());
            lemma_join_split(rest, sep);
            let parts = split_seq(s, sep);
            assert(parts.drop_first() =~= split_seq(rest, sep));
            assert(s =~= s.take(k) + sep + rest);
        },
        None => {},
    }
}

/// Replacing a pattern by itself changes nothing.
pub proof fn lemma_replace_by_itself(s: Seq<char>, pat: Seq<char>)
    requires
        pat.len() > 0,
    ensures
        replace_seq(s, pat, pat) == s,
    decreases s.len(),
{
    lemma_find_from(s, pat, 0);
    match find_first(s, pat) {
        Some(k) => {
            let rest = s.skip(k + pat.len());
            lemma_replace_by_itself(rest, pat);
            assert(s =~= s.take(k) + pat + rest);
        },
        None => {},
    }
}

/// Text that holds no occurrence of the pattern is left as it is.
pub proof fn lemma_replace_absent(s: Seq<char>, pat: Seq<char>, rep: Seq<char>)
    requires
        pat.len() > 0,
        !contains_seq(s, pat),
    ensures
        replace_seq(s, pat, rep) == s,
{
}

/// The characters of `s`, in order.
pub fn chars_of(s: &str) -> (v: Vec<char>)
    ensures
        v@ == s@,
{
    let mut v: Vec<char> = Vec::new();
    for c in it: s.chars()
        invariant
            it.seq() == s@,
            v@ == it.seq().take(it.index()),
    {
        v.push(c);
    }
    v
}

/// Whether `pat` occurs in `s` at index `i`.
pub fn matches_at_exec(s: &Vec<char>, pat: &Vec<char>, i: usize) -> (b: bool)
    ensures
        b == matches_at(s@, pat@, i as int),
{
    if i > s.len() || pat.len() > s.len() - i {
        return false;
    }
    let mut j: usize = 0;
    while j < pat.len()
        invariant
            i + pat.len() <= s.len(),
            j <= pat.len(),
            forall|k: int| 0 <= k < j ==> s@[i + k] == pat@[k],
        decreases pat.len() - j,
    {
        if s[i + j] != pat[j] {
            assert(s@.subrange(i as int, i + pat.len())[j as int] != pat@[j as int]);
            return false;
        }
        j = j + 1;
    }
    assert(s@.subrange(i as int, i + pat.len()) =~= pat@);
    true
}

/// The first occurrence of `pat` in `s` at or after `from`.
pub fn find_chars(s: &Vec<char>, pat: &Vec<char>, from: usize) -> (r: Option<usize>)
    ensures
        index_view(r) == find_from(s@, pat@, from as int),
{
    let mut i: usize = from;
    while i <= s.len() && pat.len() <= s.len() - i
        invariant
            from <= i,
            find_from(s@, pat@, from as int) == find_from(s@, pat@, i as int),
        decreases s.len() + 1 - i,
    {
        if matches_at_exec(s, pat, i) {
            return Some(i);
        }
        if i == s.len() {
            assert(find_from(s@, pat@, i + 1) is None);
            return None;
        }
        i = i + 1;
    }
    None
}

/// The text of `s` from character `from` up to character `to`.
fn chars_slice_string(s: &str, from: usize, to: usize) -> (r: String)
    requires
        from <= to <= s@.len(),
    ensures
        r@ == s@.subrange(from as int, to as int),
{
    s.substring_char(from, to).to_owned()
}

/// Whether `pat` occurs in `s`.
pub fn contains_str(s: &str, pat: &str) -> (b: bool)
    ensures
        b == contains_seq(s@, pat@),
{
    let sv = chars_of(s);
    let pv = chars_of(pat);
    find_chars(&sv, &pv, 0).is_some()
}

/// The pieces of `s` between the occurrences of `sep`, as `str::split` gives them.
pub fn split_str(s: &str, sep: &str) -> (parts: Vec<String>)
    requires
        sep@.len() > 0,
    ensures
        strings_view(parts@) == split_seq(s@, sep@),
{
    let sv = chars_of(s);
    let pv = chars_of(sep);
    let mut parts: Vec<String> = Vec::new();
    let mut start: usize = 0;
    proof {
        assert(s@.skip(0) =~= s@);
    }
    loop
        invariant
            sv@ == s@,
            pv@ == sep@,
            sep@.len() > 0,
            start <= s@.len(),
            split_seq(s@, sep@) == strings_view(parts@) + split_seq(s@.skip(start as int), sep@),
        decreases s@.len() - start,
    {
        let found = find_chars(&sv, &pv, start);
        proof {
            lemma_find_from_skip(s@, sep@, start as int, 0);
            lemma_find_from(s@, sep@, start as int);
        }
        match found {
            Some(k) => {
                assert(matches_at(s@, sep@, k as int));
                let piece = chars_slice_string(s, start, k);
                let ghost old_parts = parts@;
                parts.push(piece);
                proof {
                    let rest = s@.skip(start as int);
                    assert(rest.take(k - start) =~= s@.subrange(start as int, k as int));
                    assert(rest.skip(k - start + sep@.len()) =~= s@.skip(k + sep@.len()));
                    assert(strings_view(parts@) =~= strings_view(old_parts).push(piece@));
                    assert(split_seq(rest, sep@) =~= seq![piece@] + split_seq(
                        s@.skip(k + sep@.len()),
                        sep@,
                    ));
                    assert(strings_view(parts@) + split_seq(s@.skip(k + sep@.len()), sep@)
                        =~= strings_view(old_parts) + split_seq(rest, sep@));
                }
                let plen: usize = pv.len();
                let slen: usize = sv.len();
                assert(k + plen <= slen);
                start = k + plen;
            },
            None => {
                let piece = chars_slice_string(s, start, sv.len());
                let ghost old_parts = parts@;
                parts.push(piece);
                proof {
                    assert(s@.skip(start as int) =~= s@.subrange(start as int, s@.len() as int));
                    assert(strings_view(parts@) =~= strings_view(old_parts).push(piece@));
                    assert(strings_view(parts@) =~= strings_view(old_parts) + split_seq(
                        s@.skip(start as int),
                        sep@,
                    ));
                }
                return parts;
            },
        }
    }
}

/// `s` with every occurrence of `pat` replaced by `rep`, as `str::replace` gives it.
pub fn replace_str(s: &str, pat: &str, rep: &str) -> (r: String)
    requires
        pat@.len() > 0,
    ensures
        r@ == replace_seq(s@, pat@, rep@),
{
    let sv = chars_of(s);
    let pv = chars_of(pat);
    let mut out = String::new();
    let mut start: usize = 0;
    proof {
        assert(s@.skip(0) =~= s@);
    }
    loop
        invariant
            sv@ == s@,
            pv@ == pat@,
            pat@.len() > 0,
            start <= s@.len(),
            replace_seq(s@, pat@, rep@) == out@ + replace_seq(
                s@.skip(start as int),
                pat@,
                rep@,
            ),
        decreases s@.len() - start,
    {
        let found = find_chars(&sv, &pv, start);
        proof {
            lemma_find_from_skip(s@, pat@, start as int, 0);
            lemma_find_from(s@, pat@, start as int);
        }
        match found {
            Some(k) => {
                assert(matches_at(s@, pat@, k as int));
                let piece = s.substring_char(start, k);
                let ghost old_out = out@;
                out.append(piece);
                out.append(rep);
                proof {
                    let rest = s@.skip(start as int);
                    assert(rest.take(k - start) =~= s@.subrange(start as int, k as int));
                    assert(rest.skip(k - start + pat@.len()) =~= s@.skip(k + pat@.len()));
                    assert(out@ + replace_seq(s@.skip(k + pat@.len()), pat@, rep@) =~= old_out
                        + replace_seq(rest, pat@, rep@));
                }
                let plen: usize = pv.len();
                let slen: usize = sv.len();
                assert(k + plen <= slen);
                start = k + plen;
            },
            None => {
                let piece = s.substring_char(start, sv.len());
                proof {
                    assert(s@.skip(start as int) =~= s@.subrange(start as int, s@.len() as int));
                }
                out.append(piece);
                return out;
            },
        }
    }
}

/// Whether `c` is white space in the sense of `char::is_whitespace`.
pub fn is_white_space_exec(c: char) -> (b: bool)
    ensures
        b == is_white_space(c),
{
    let x: u32 = c as u32;
    (0x09 <= x && x <= 0x0d) || x == 0x20 || x == 0x85 || x == 0xa0 || x == 0x1680 || (0x2000
        <= x && x <= 0x200a) || x == 0x2028 || x == 0x2029 || x == 0x202f || x == 0x205f || x
        == 0x3000
}

/// `s` without leading and trailing white space, as `str::trim` gives it.
pub fn trim_str(s: &str) -> (r: String)
    ensures
        r@ == trim_seq(s@),
{
    let sv = chars_of(s);
    let n = sv.len();
    let mut a: usize = 0;
    proof {
        assert(s@.skip(0) =~= s@);
    }
    while a < n && is_white_space_exec(sv[a])
        invariant
            sv@ == s@,
            n == s@.len(),
            a <= n,
            trim_start_seq(s@) == trim_start_seq(s@.skip(a as int)),
        decreases n - a,
    {
        proof {
            assert(s@.skip(a as int).drop_first() =~= s@.skip(a + 1));
        }
        a = a + 1;
    }
    let mut b: usize = n;
    proof {
        assert(s@.skip(a as int) =~= s@.subrange(a as int, n as int));
    }
    while b > a && is_white_space_exec(sv[b - 1])
        invariant
            sv@ == s@,
            n == s@.len(),
            a <= b <= n,
            trim_start_seq(s@) == s@.skip(a as int),
            trim_seq(s@) == trim_end_seq(s@.subrange(a as int, b as int)),
        decreases b - a,
    {
        proof {
            assert(s@.subrange(a as int, b as int).drop_last() =~= s@.subrange(
                a as int,
                b - 1,
            ));
        }
        b = b - 1;
    }
    chars_slice_string(s, a, b)
}

/// The number of words of `s`, as `str::split_whitespace` counts them.
pub fn count_words(s: &str) -> (r: usize)
    ensures
        r == word_count(s@),
{
    let v = chars_of(s);
    let mut count: usize = 0;
    let mut i: usize = 0;
    while i < v.len()
        invariant
            v@ == s@,
            i <= v.len(),
            count == word_count(s@.take(i as int)),
            count <= i,
        decreases v.len() - i,
    {
        proof {
            assert(s@.take(i + 1).take(i as int) =~= s@.take(i as int));
        }
        let starts: bool = !is_white_space_exec(v[i]) && (i == 0 || is_white_space_exec(v[i - 1]));
        if starts {
            count = count + 1;
        }
        i = i + 1;
    }
    proof {
        assert(s@.take(v.len() as int) =~= s@);
    }
    count
}

/// The number of lines of `s`, as `str::lines` counts them.
pub fn count_lines(s: &str) -> (r: usize)
    ensures
        r == line_count(s@),
{
    let v = chars_of(s);
    let mut count: usize = 0;
    let mut i: usize = 0;
    while i < v.len()
        invariant
            v@ == s@,
            i <= v.len(),
            count == newline_count(s@.take(i as int)),
            count <= i,
            i > 0 && s@[i - 1] != '\n' ==> count < i,
        decreases v.len() - i,
    {
        proof {
            assert(s@.take(i + 1).drop_last() =~= s@.take(i as int));
        }
        if v[i] == '\n' {
            count = count + 1;
        }
        i = i + 1;
    }
    proof {
        assert(s@.take(v.len() as int) =~= s@);
    }
    if v.len() > 0 && v[v.len() - 1] != '\n' {
        count = count + 1;
    }
    count
}

} // verus!

verus! {

/// No piece of a split holds the separator, and there is one piece more
/// than there are separators taken out.
pub proof fn lemma_split_pieces_free(s: Seq<char>, sep: Seq<char>)
    requires
        sep.len() > 0,
    ensures
        forall|i: int|
            0 <= i < split_seq(s, sep).len() ==> !contains_seq(#[trigger] split_seq(s, sep)[i], sep),
    decreases s.len(),
{
    lemma_find_from(s, sep, 0);
    match find_first(s, sep) {
        Some(k) => {
            let rest = s.skip(k + sep.len());
            lemma_split_pieces_free(rest, sep);
            let parts = split_seq(s, sep);
            let head = s.take(k);
            lemma_find_from(head, sep, 0);
            if contains_seq(head, sep) {
                let j = find_first(head, sep)->0;
                assert(head.subrange(j, j + sep.len()) =~= s.subrange(j, j + sep.len()));
                assert(matches_at(s, sep, j));
            }
            assert forall|i: int| 0 <= i < parts.len() implies !contains_seq(
                #[trigger] parts[i],
                sep,
            ) by {
                if i > 0 {
                    assert(parts[i] == split_seq(rest, sep)[i - 1]);
                }
            }
        },
        None => {
            let parts = split_seq(s, sep);
            assert(parts[0] == s);
        },
    }
}

/// Replacing a pattern is cutting at it and joining the pieces with the
/// replacement, as `str::replace` is documented to do.
pub proof fn lemma_replace_is_join_split(s: Seq<char>, pat: Seq<char>, rep: Seq<char>)
    requires
        pat.len() > 0,
    ensures
        replace_seq(s, pat, rep) == join_seq(split_seq(s, pat), rep),
    decreases s.len(),
{
    lemma_find_from(s, pat, 0);
    match find_first(s, pat) {
        Some(k) => {
            let rest = s.skip(k + pat.len());
            lemma_replace_is_join_split(rest, pat, rep);
            lemma_join_split(rest, pat);
            let parts = split_seq(s, pat);
            assert(parts.drop_first() =~= split_seq(rest, pat));
        },
        None => {},
    }
}

/// Trimming the start drops exactly the leading white space: the result is
/// the text from the first character that is not white space.
pub proof fn lemma_trim_start(s: Seq<char>) -> (i: int)
    ensures
        0 <= i <= s.len(),
        trim_start_seq(s) == s.skip(i),
        forall|k: int| 0 <= k < i ==> is_white_space(#[trigger] s[k]),
        i < s.len() ==> !is_white_space(s[i]),
    decreases s.len(),
{
    if s.len() > 0 && is_white_space(s[0]) {
        let j = lemma_trim_start(s.drop_first());
        assert(s.drop_first().skip(j) =~= s.skip(j + 1));
        assert forall|k: int| 0 <= k < j + 1 implies is_white_space(#[trigger] s[k]) by {
            if k > 0 {
                assert(s[k] == s.drop_first()[k - 1]);
            }
        }
        j + 1
    } else {
        assert(s.skip(0) =~= s);
        0
    }
}

/// Trimming the end drops exactly the trailing white space: the result is
/// the text up to the last character that is not white space.
pub proof fn lemma_trim_end(s: Seq<char>) -> (j: int)
    ensures
        0 <= j <= s.len(),
        trim_end_seq(s) == s.take(j),
        forall|k: int| j <= k < s.len() ==> is_white_space(#[trigger] s[k]),
        j > 0 ==> !is_white_space(s[j - 1]),
    decreases s.len(),
{
    if s.len() > 0 && is_white_space(s.last()) {
        let j = lemma_trim_end(s.drop_last());
        assert(s.drop_last().take(j) =~= s.take(j));
        assert forall|k: int| j <= k < s.len() implies is_white_space(#[trigger] s[k]) by {
            if k < s.len() - 1 {
                assert(s[k] == s.drop_last()[k]);
            }
        }
        j
    } else {
        assert(s.take(s.len() as int) =~= s);
        s.len() as int
    }
}

/// Trimming keeps the text between the leading and the trailing white
/// space: it starts and ends with characters that are not white space, and
/// only white space is dropped on either side.
pub proof fn lemma_trim(s: Seq<char>) -> (ij: (int, int))
    ensures
        0 <= ij.0 <= ij.1 <= s.len(),
        trim_seq(s) == s.subrange(ij.0, ij.1),
        forall|k: int| 0 <= k < ij.0 ==> is_white_space(#[trigger] s[k]),
        forall|k: int| ij.1 <= k < s.len() ==> is_white_space(#[trigger] s[k]),
        ij.0 < ij.1 ==> !is_white_space(s[ij.0]) && !is_white_space(s[ij.1 - 1]),
{
    let i = lemma_trim_start(s);
    let t = s.skip(i);
    let j = lemma_trim_end(t);
    assert(t.take(j) =~= s.subrange(i, i + j));
    assert forall|k: int| i + j <= k < s.len() implies is_white_space(#[trigger] s[k]) by {
        assert(s[k] == t[k - i]);
    }
    if j > 0 {
        assert(s[i] == t[0]);
        assert(s[i + j - 1] == t[j - 1]);
        if j == 1 {
        } else {
        }
    }
    (i, i + j)
}

/// Words of two texts with white space between them add up.
pub proof fn lemma_word_count_concat(a: Seq<char>, w: char, b: Seq<char>)
    requires
        is_white_space(w),
    ensures
        word_count(a + seq![w] + b) == word_count(a) + word_count(b),
    decreases b.len(),
{
    if b.len() == 0 {
        assert(a + seq![w] + b =~= a.push(w));
        assert((a + seq![w] + b).take(a.len() as int) =~= a);
    } else {
        let b0 = b.drop_last();
        lemma_word_count_concat(a, w, b0);
        let s = a + seq![w] + b;
        assert(s.take(s.len() - 1) =~= a + seq![w] + b0);
        assert(b.take(b.len() - 1) =~= b0);
        assert(s[s.len() - 1] == b[b.len() - 1]);
        if b.len() >= 2 {
            assert(s[s.len() - 2] == b[b.len() - 2]);
        } else {
            assert(s[s.len() - 2] == w);
        }
    }
}

/// A text of one or more characters none of which is white space is one word.
pub proof fn lemma_word_count_one(s: Seq<char>)
    requires
        s.len() > 0,
        forall|i: int| 0 <= i < s.len() ==> !is_white_space(#[trigger] s[i]),
    ensures
        word_count(s) == 1,
    decreases s.len(),
{
    if s.len() > 1 {
        let t = s.take(s.len() - 1);
        assert forall|i: int| 0 <= i < t.len() implies !is_white_space(#[trigger] t[i]) by {
            assert(t[i] == s[i]);
        }
        lemma_word_count_one(t);
        assert(!is_white_space(s[s.len() - 2]));
        assert(word_count(s) == word_count(s.take(s.len() - 1)));
    } else {
        assert(s.take(0) =~= Seq::<char>::empty());
        assert(word_count(s.take(0)) == 0);
        assert(word_count(s) == word_count(s.take(0)) + 1);
    }
}

/// Text made only of white space holds no word.
pub proof fn lemma_word_count_blank(s: Seq<char>)
    requires
        forall|i: int| 0 <= i < s.len() ==> is_white_space(#[trigger] s[i]),
    ensures
        word_count(s) == 0,
    decreases s.len(),
{
    if s.len() > 0 {
        let t = s.take(s.len() - 1);
        assert forall|i: int| 0 <= i < t.len() implies is_white_space(#[trigger] t[i]) by {
            assert(t[i] == s[i]);
        }
        lemma_word_count_blank(t);
    }
}

/// Line ends of two texts add up.
pub proof fn lemma_newline_count_concat(a: Seq<char>, b: Seq<char>)
    ensures
        newline_count(a + b) == newline_count(a) + newline_count(b),
    decreases b.len(),
{
    if b.len() == 0 {
        assert(a + b =~= a);
    } else {
        lemma_newline_count_concat(a, b.drop_last());
        assert((a + b).drop_last() =~= a + b.drop_last());
    }
}

/// Each `\n` ends a line, and text after the last one is one more line:
/// a text `a` followed by a line end has one line more than `a` has line ends,
/// and a non-empty text without line ends is one line.
pub proof fn lemma_line_count(a: Seq<char>)
    ensures
        line_count(a.push('\n')) == newline_count(a) + 1,
        (a.len() > 0 && newline_count(a) == 0) ==> line_count(a) == 1,
{
    assert(a.push('\n').drop_last() =~= a);
}

} // verus!

verus! {

/// Cutting at a separator that first occurs right after `a` gives `a` as
/// the first piece, then the pieces of what follows the separator.
pub proof fn lemma_split_first(a: Seq<char>, sep: Seq<char>, b: Seq<char>)
    requires
        sep.len() > 0,
        forall|j: int| 0 <= j < a.len() ==> !matches_at(a + sep + b, sep, j),
    ensures
        split_seq(a + sep + b, sep) == seq![a] + split_seq(b, sep),
{
    let s = a + sep + b;
    assert(s.subrange(a.len() as int, (a.len() + sep.len()) as int) =~= sep);
    lemma_find_from_is(s, sep, 0, a.len() as int);
    assert(s.take(a.len() as int) =~= a);
    assert(s.skip((a.len() + sep.len()) as int) =~= b);
}

/// Text in which the separator does not occur is a single piece.
pub proof fn lemma_split_none(s: Seq<char>, sep: Seq<char>)
    requires
        sep.len() > 0,
        forall|j: int| 0 <= j ==> !matches_at(s, sep, j),
    ensures
        split_seq(s, sep) == seq![s],
{
    lemma_find_from(s, sep, 0);
}

/// A one-character separator that no character of `a` equals does not
/// occur in `a + seq![c] + b` before the end of `a`.
pub proof fn lemma_no_char_before(a: Seq<char>, c: char, b: Seq<char>)
    requires
        forall|i: int| 0 <= i < a.len() ==> a[i] != c,
    ensures
        forall|j: int| 0 <= j < a.len() ==> !matches_at(#[trigger] (a + seq![c] + b), seq![c], j),
{
    assert forall|j: int| 0 <= j < a.len() implies !matches_at(a + seq![c] + b, seq![c], j) by {
        let s = a + seq![c] + b;
        if matches_at(s, seq![c], j) {
            assert(s.subrange(j, j + 1)[0] == s[j]);
        }
    }
}

/// A line `m p v`, cut at its spaces, where neither `m` nor `p` holds a
/// space, has `m` as its first word and `p` as its second.
pub proof fn lemma_split_words(m: Seq<char>, p: Seq<char>, v: Seq<char>)
    requires
        forall|i: int| 0 <= i < m.len() ==> m[i] != ' ',
        forall|i: int| 0 <= i < p.len() ==> p[i] != ' ',
    ensures
        split_seq(m + seq![' '] + p + seq![' '] + v, seq![' ']).len() >= 2,
        split_seq(m + seq![' '] + p + seq![' '] + v, seq![' '])[0] == m,
        split_seq(m + seq![' '] + p + seq![' '] + v, seq![' '])[1] == p,
{
    let rest = p + seq![' '] + v;
    lemma_no_char_before(m, ' ', rest);
    lemma_no_char_before(p, ' ', v);
    assert(m + seq![' '] + p + seq![' '] + v =~= m + seq![' '] + rest);
    lemma_split_first(m, seq![' '], rest);
    lemma_split_first(p, seq![' '], v);
    lemma_join_split(v, seq![' ']);
}

} // verus!
