//! Case-insensitive text matching: the query and the searched text are both
//! lowercased by std's Unicode rules, and the lowered query must occur as a
//! contiguous run of characters in the lowered text.

use vstd::prelude::*;

verus! {

/// What `str::to_lowercase` returns for a string with the characters `s`
/// (std's Unicode lowercase mapping, which can depend on context, as for a
/// final sigma).
pub uninterp spec fn lowercase(s: Seq<char>) -> Seq<char>;

/// Every character of `s` is ASCII.
pub open spec fn all_ascii(s: Seq<char>) -> bool {
    forall|i: int| 0 <= i < s.len() ==> (#[trigger] s[i] as u32) < 128
}

/// An ASCII upper-case letter.
pub open spec fn is_ascii_upper(c: char) -> bool {
    65 <= (c as u32) <= 90
}

/// An ASCII lower-case letter.
pub open spec fn is_ascii_lower(c: char) -> bool {
    97 <= (c as u32) <= 122
}

/// `c` with an ASCII upper-case letter mapped to its lower-case letter.
pub open spec fn ascii_lower_char(c: char) -> char {
    if is_ascii_upper(c) {
        ((c as u32) + 32) as char
    } else {
        c
    }
}

/// `c` with an ASCII lower-case letter mapped to its upper-case letter.
pub open spec fn ascii_upper_char(c: char) -> char {
    if is_ascii_lower(c) {
        ((c as u32) - 32) as char
    } else {
        c
    }
}

/// The characters of `s` with ASCII letters lowercased (what
/// `str::to_ascii_lowercase` returns).
pub open spec fn ascii_lower(s: Seq<char>) -> Seq<char> {
    s.map_values(|c: char| ascii_lower_char(c))
}

/// The characters of `s` with ASCII letters uppercased (what
/// `str::to_ascii_uppercase` returns).
pub open spec fn ascii_upper(s: Seq<char>) -> Seq<char> {
    s.map_values(|c: char| ascii_upper_char(c))
}

/// Calls `str::to_lowercase`. Its contract claims that the result's
/// characters are determined by the argument's characters, under the name
/// `lowercase`, and what std documents of ASCII text: on a string of ASCII
/// characters, lowercasing maps the letters `A` to `Z` to `a` to `z` and
/// keeps every other character (so the empty string stays empty).
#[verifier::external_body]
fn str_to_lowercase(s: &str) -> (r: String)
    ensures
        r@ == lowercase(s@),
        all_ascii(s@) ==> r@ == ascii_lower(s@),
{
    s.to_lowercase()
}

/// Whether `c` has the Unicode `White_Space` property, which is what
/// `char::is_whitespace` tests: tab to carriage return, space, next line,
/// no-break space, ogham space mark, the spaces from en quad to hair space,
/// line and paragraph separators, narrow no-break space, medium mathematical
/// space and ideographic space.
pub open spec fn white_space(c: char) -> bool {
    let u = c as u32;
    ||| 0x09 <= u <= 0x0d
    ||| u == 0x20
    ||| u == 0x85
    ||| u == 0xa0
    ||| u == 0x1680
    ||| 0x2000 <= u <= 0x200a
    ||| u == 0x2028
    ||| u == 0x2029
    ||| u == 0x202f
    ||| u == 0x205f
    ||| u == 0x3000
}

/// Whether `c` is white space.
pub fn char_is_whitespace(c: char) -> (r: bool)
    ensures
        r == white_space(c),
{
    let u = c as u32;
    (0x09 <= u && u <= 0x0d) || u == 0x20 || u == 0x85 || u == 0xa0 || u == 0x1680 || (0x2000
        <= u && u <= 0x200a) || u == 0x2028 || u == 0x2029 || u == 0x202f || u == 0x205f || u
        == 0x3000
}

/// Changing the case of ASCII letters keeps an ASCII string ASCII, keeps its
/// blankness, and leaves its lowercase form unchanged.
pub proof fn lemma_ascii_case_variants(q: Seq<char>)
    requires
        all_ascii(q),
    ensures
        all_ascii(ascii_upper(q)),
        all_ascii(ascii_lower(q)),
        is_blank(ascii_upper(q)) == is_blank(q),
        is_blank(ascii_lower(q)) == is_blank(q),
        ascii_lower(ascii_upper(q)) == ascii_lower(q),
        ascii_lower(ascii_lower(q)) == ascii_lower(q),
{
    let u = ascii_upper(q);
    let l = ascii_lower(q);
    assert forall|i: int| 0 <= i < q.len() implies {
        &&& (#[trigger] u[i] as u32) < 128
        &&& (l[i] as u32) < 128
        &&& white_space(u[i]) == white_space(q[i])
        &&& white_space(l[i]) == white_space(q[i])
        &&& ascii_lower_char(u[i]) == ascii_lower_char(q[i])
        &&& ascii_lower_char(l[i]) == ascii_lower_char(q[i])
    } by {
        assert((q[i] as u32) < 128);
    }
    assert(ascii_lower(u) =~= l);
    assert(ascii_lower(l) =~= l);
    if is_blank(q) {
        assert forall|i: int| 0 <= i < u.len() implies white_space(#[trigger] u[i]) by {
            assert(white_space(q[i]));
        }
        assert forall|i: int| 0 <= i < l.len() implies white_space(#[trigger] l[i]) by {
            assert(white_space(q[i]));
        }
    }
    if is_blank(u) {
        assert forall|i: int| 0 <= i < q.len() implies white_space(#[trigger] q[i]) by {
            assert(white_space(u[i]));
        }
    }
    if is_blank(l) {
        assert forall|i: int| 0 <= i < q.len() implies white_space(#[trigger] q[i]) by {
            assert(white_space(l[i]));
        }
    }
}

/// A string is blank when trimming it leaves nothing: every character is
/// white space.
pub open spec fn is_blank(s: Seq<char>) -> bool {
    forall|i: int| 0 <= i < s.len() ==> white_space(#[trigger] s[i])
}

/// `needle` occurs in `hay` starting at position `i`.
pub open spec fn occurs_at(hay: Seq<char>, needle: Seq<char>, i: int) -> bool {
    &&& 0 <= i
    &&& i + needle.len() <= hay.len()
    &&& hay.subrange(i, i + needle.len()) == needle
}

/// `needle` occurs somewhere in `hay` as a contiguous run (the empty needle
/// occurs in every string).
pub open spec fn contains_seq(hay: Seq<char>, needle: Seq<char>) -> bool {
    exists|i: int| occurs_at(hay, needle, i)
}

/// A text matches a query when the lowercased query occurs in the lowercased
/// text.
pub open spec fn matches_query(text: Seq<char>, query: Seq<char>) -> bool {
    contains_seq(lowercase(text), lowercase(query))
}

/// The characters of `s`, in order.
pub fn chars_of(s: &str) -> (v: Vec<char>)
    ensures
        v@ == s@,
{
    let mut v: Vec<char> = Vec::new();
    for c in it: s.chars()
        invariant
            v@ == it.seq().take(it.index() as int),
    {
        v.push(c);
    }
    v
}

/// Whether `s` is blank, that is whether `s.trim()` is empty.
pub fn is_blank_str(s: &str) -> (r: bool)
    ensures
        r == is_blank(s@),
{
    let v = chars_of(s);
    let n = v.len();
    let mut i: usize = 0;
    while i < n
        invariant
            n == v@.len(),
            v@ == s@,
            i <= n,
            forall|k: int| 0 <= k < i ==> white_space(#[trigger] v@[k]),
        decreases n - i,
    {
        if !char_is_whitespace(v[i]) {
            return false;
        }
        i = i + 1;
    }
    true
}

/// The characters of `s` lowercased.
pub fn lowercase_chars(s: &str) -> (v: Vec<char>)
    ensures
        v@ == lowercase(s@),
        all_ascii(s@) ==> v@ == ascii_lower(s@),
{
    let lowered = str_to_lowercase(s);
    chars_of(lowered.as_str())
}

/// Whether `needle` occurs at position `start` of `hay`.
fn occurs_at_exec(hay: &Vec<char>, needle: &Vec<char>, start: usize) -> (r: bool)
    requires
        start + needle@.len() <= hay@.len(),
    ensures
        r == occurs_at(hay@, needle@, start as int),
{
    let m = needle.len();
    let mut k: usize = 0;
    while k < m
        invariant
            m == needle@.len(),
            hay@.len() == hay.len(),
            start + m <= hay@.len(),
            k <= m,
            forall|j: int| 0 <= j < k ==> hay@[start + j] == needle@[j],
        decreases m - k,
    {
        if hay[start + k] != needle[k] {
            assert(hay@.subrange(start as int, start + m)[k as int] != needle@[k as int]);
            return false;
        }
        k = k + 1;
    }
    assert(hay@.subrange(start as int, start + m) =~= needle@);
    true
}

/// Whether `needle` occurs as a contiguous run in `hay`.
pub fn contains_chars(hay: &Vec<char>, needle: &Vec<char>) -> (r: bool)
    ensures
        r == contains_seq(hay@, needle@),
{
    let n = hay.len();
    let m = needle.len();
    if m > n {
        return false;
    }
    if m == 0 {
        assert(hay@.subrange(0, 0) =~= needle@);
        assert(occurs_at(hay@, needle@, 0));
        return true;
    }
    let last = n - m;
    let mut i: usize = 0;
    while i <= last
        invariant
            n == hay@.len(),
            m == needle@.len(),
            last == n - m,
            1 <= m <= n,
            forall|j: int| 0 <= j < i ==> !occurs_at(hay@, needle@, j),
        decreases last + 1 - i,
    {
        if occurs_at_exec(hay, needle, i) {
            return true;
        }
        i = i + 1;
    }
    assert forall|j: int| !occurs_at(hay@, needle@, j) by {
        if 0 <= j && j + m <= n {
            assert(j < i);
        }
    }
    false
}

/// Whether `text` matches a query whose lowercased characters are
/// `query_lower`.
pub fn text_matches_lowered(text: &str, query_lower: &Vec<char>) -> (r: bool)
    ensures
        r == contains_seq(lowercase(text@), query_lower@),
{
    let lowered = lowercase_chars(text);
    contains_chars(&lowered, query_lower)
}

} // verus!
