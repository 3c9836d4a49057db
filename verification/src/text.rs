//! Character-level text utilities over `Seq<char>` models.
//!
//! All SQL text is processed as sequences of Unicode scalar values; positions
//! are character positions. Keyword matching folds ASCII letters to upper case,
//! one character for one, so that a position found in the folded text is the
//! same position in the text itself: the parsers find keywords in the folded
//! text and cut the unfolded text at those positions. Full Unicode
//! upper-casing (`str::to_uppercase`) can turn one character into several or
//! change its encoded length, and would break that correspondence.
use vstd::prelude::*;

verus! {

// ---------------------------------------------------------------------------
// Character classes
// ---------------------------------------------------------------------------

/// Unicode `White_Space` property (the set used by `char::is_whitespace`).
pub open spec fn is_ws(c: char) -> bool {
    let u = c as u32;
    ||| (0x09 <= u && u <= 0x0D)
    ||| u == 0x20
    ||| u == 0x85
    ||| u == 0xA0
    ||| u == 0x1680
    ||| (0x2000 <= u && u <= 0x200A)
    ||| u == 0x2028
    ||| u == 0x2029
    ||| u == 0x202F
    ||| u == 0x205F
    ||| u == 0x3000
}

pub fn char_is_ws(c: char) -> (r: bool)
    ensures
        r == is_ws(c),
{
    let u = c as u32;
    (0x09 <= u && u <= 0x0D) || u == 0x20 || u == 0x85 || u == 0xA0 || u == 0x1680 || (0x2000
        <= u && u <= 0x200A) || u == 0x2028 || u == 0x2029 || u == 0x202F || u == 0x205F || u
        == 0x3000
}

pub open spec fn is_ascii_lower(c: char) -> bool {
    'a' <= c && c <= 'z'
}

pub open spec fn is_ascii_upper(c: char) -> bool {
    'A' <= c && c <= 'Z'
}

pub open spec fn is_ascii_digit(c: char) -> bool {
    '0' <= c && c <= '9'
}

pub open spec fn is_ascii_alnum(c: char) -> bool {
    is_ascii_lower(c) || is_ascii_upper(c) || is_ascii_digit(c)
}

/// Whether `c` is alphabetic or numeric in Unicode.
pub uninterp spec fn alphanumeric(c: char) -> bool;

/// `char::is_alphanumeric`. Its result is named `alphanumeric(c)`; for an
/// ASCII character it holds exactly of the letters and digits.
#[verifier::external_body]
pub(crate) fn char_is_alphanumeric(c: char) -> (r: bool)
    ensures
        r == alphanumeric(c),
        (c as u32) < 128 ==> (r == is_ascii_alnum(c)),
{
    c.is_alphanumeric()
}

/// ASCII upper-casing of one character; other characters are unchanged.
pub open spec fn upper_char(c: char) -> char {
    if is_ascii_lower(c) {
        ((c as u32) - 32) as char
    } else {
        c
    }
}

pub open spec fn upper(s: Seq<char>) -> Seq<char> {
    s.map_values(|c: char| upper_char(c))
}

pub fn to_upper_char(c: char) -> (r: char)
    ensures
        r == upper_char(c),
{
    if 'a' <= c && c <= 'z' {
        let b: u8 = c as u8;
        let r = (b - 32) as char;
        assert(b as u32 == c as u32);
        r
    } else {
        c
    }
}

/// Upper-case (ASCII) copy of a character slice.
pub fn to_upper(s: &[char]) -> (r: Vec<char>)
    ensures
        r@ == upper(s@),
{
    let mut r: Vec<char> = Vec::new();
    let mut i: usize = 0;
    while i < s.len()
        invariant
            i <= s.len(),
            r@ == upper(s@.take(i as int)),
        decreases s.len() - i,
    {
        r.push(to_upper_char(s[i]));
        assert(s@.take(i + 1) == s@.take(i as int).push(s@[i as int]));
        i += 1;
    }
    assert(s@.take(s.len() as int) == s@);
    r
}

// ---------------------------------------------------------------------------
// Conversions between `str`/`String` and character vectors
// ---------------------------------------------------------------------------

pub fn str_to_chars(s: &str) -> (r: Vec<char>)
    ensures
        r@ == s@,
{
    let mut v: Vec<char> = Vec::new();
    for c in it: s.chars()
        invariant
            v@ == it.seq().take(it.index() as int),
            it.seq() == s@,
    {
        v.push(c);
    }
    v
}

/// Appends one character to a `String` (`String::push`).
#[verifier::external_body]
pub(crate) fn push_char(s: &mut String, c: char)
    ensures
        final(s)@ == old(s)@.push(c),
{
    s.push(c);
}

pub fn chars_to_string(s: &[char]) -> (r: String)
    ensures
        r@ == s@,
{
    let mut r = String::new();
    let mut i: usize = 0;
    while i < s.len()
        invariant
            i <= s.len(),
            r@ == s@.take(i as int),
        decreases s.len() - i,
    {
        push_char(&mut r, s[i]);
        assert(s@.take(i + 1) == s@.take(i as int).push(s@[i as int]));
        i += 1;
    }
    assert(s@.take(s.len() as int) == s@);
    r
}

/// Appends the characters of `t` to `s`.
pub fn append_chars(s: &mut String, t: &[char])
    ensures
        final(s)@ == old(s)@ + t@,
{
    let mut i: usize = 0;
    while i < t.len()
        invariant
            i <= t.len(),
            s@ == old(s)@ + t@.take(i as int),
        decreases t.len() - i,
    {
        push_char(s, t[i]);
        assert(t@.take(i + 1) == t@.take(i as int).push(t@[i as int]));
        i += 1;
    }
    assert(t@.take(t.len() as int) == t@);
}

pub fn copy_opt_string(s: &Option<String>) -> (r: Option<String>)
    ensures
        r.deep_view() == s.deep_view(),
{
    match s {
        Some(x) => Some(x.clone()),
        None => None,
    }
}

pub fn copy_strings(v: &Vec<String>) -> (r: Vec<String>)
    ensures
        r.deep_view() == v.deep_view(),
{
    let mut r: Vec<String> = Vec::new();
    let mut i: usize = 0;
    while i < v.len()
        invariant
            i <= v.len(),
            r.deep_view() == v.deep_view().take(i as int),
        decreases v.len() - i,
    {
        r.push(v[i].clone());
        assert(v.deep_view().take(i + 1) == v.deep_view().take(i as int).push(v[i as int]@));
        i += 1;
    }
    assert(v.deep_view().take(v.len() as int) == v.deep_view());
    r
}

// ---------------------------------------------------------------------------
// Equality, prefixes, suffixes, search
// ---------------------------------------------------------------------------

pub fn chars_eq(a: &[char], b: &[char]) -> (r: bool)
    ensures
        r == (a@ == b@),
{
    if a.len() != b.len() {
        return false;
    }
    let mut i: usize = 0;
    while i < a.len()
        invariant
            i <= a.len(),
            a.len() == b.len(),
            forall|j: int| 0 <= j < i ==> a@[j] == b@[j],
        decreases a.len() - i,
    {
        if a[i] != b[i] {
            return false;
        }
        i += 1;
    }
    assert(a@ =~= b@);
    true
}

pub open spec fn matches_at(s: Seq<char>, p: Seq<char>, i: int) -> bool {
    0 <= i && i + p.len() <= s.len() && s.subrange(i, i + p.len()) == p
}

pub open spec fn starts_with(s: Seq<char>, p: Seq<char>) -> bool {
    matches_at(s, p, 0)
}

/// Position of the first occurrence of `p` in `s` at or after `i`.
pub open spec fn find_from(s: Seq<char>, p: Seq<char>, i: int) -> Option<int>
    decreases s.len() + 1 - i,
{
    if i < 0 || i + p.len() > s.len() {
        None
    } else if matches_at(s, p, i) {
        Some(i)
    } else {
        find_from(s, p, i + 1)
    }
}

/// Position of the first occurrence of `p` in `s` (like `str::find`).
pub open spec fn find(s: Seq<char>, p: Seq<char>) -> Option<int> {
    find_from(s, p, 0)
}

pub open spec fn contains(s: Seq<char>, p: Seq<char>) -> bool {
    find(s, p) is Some
}

pub open spec fn opt_int(o: Option<usize>) -> Option<int> {
    match o {
        Some(i) => Some(i as int),
        None => None,
    }
}

pub proof fn lemma_find_from(s: Seq<char>, p: Seq<char>, i: int)
    requires
        0 <= i,
    ensures
        match find_from(s, p, i) {
            Some(k) => i <= k && matches_at(s, p, k) && forall|j: int|
                i <= j < k ==> !#[trigger] matches_at(s, p, j),
            None => forall|j: int| i <= j ==> !#[trigger] matches_at(s, p, j),
        },
    decreases s.len() + 1 - i,
{
    if i + p.len() > s.len() {
    } else if matches_at(s, p, i) {
    } else {
        lemma_find_from(s, p, i + 1);
    }
}

pub proof fn lemma_find_char(s: Seq<char>, p: Seq<char>, r: Option<int>)
    requires
        match r {
            Some(k) => 0 <= k && matches_at(s, p, k) && forall|j: int|
                0 <= j < k ==> !#[trigger] matches_at(s, p, j),
            None => forall|j: int| 0 <= j ==> !#[trigger] matches_at(s, p, j),
        },
    ensures
        find(s, p) == r,
{
    lemma_find_from(s, p, 0);
    match find(s, p) {
        Some(k) => {
            match r {
                Some(k2) => {
                    if k < k2 {
                        assert(!matches_at(s, p, k));
                    } else if k2 < k {
                        assert(!matches_at(s, p, k2));
                    }
                },
                None => {
                    assert(!matches_at(s, p, k));
                },
            }
        },
        None => {
            match r {
                Some(k2) => {
                    assert(!matches_at(s, p, k2));
                },
                None => {},
            }
        },
    }
}

pub fn matches_at_exec(s: &[char], p: &[char], i: usize) -> (r: bool)
    ensures
        r == matches_at(s@, p@, i as int),
{
    if i > s.len() || p.len() > s.len() - i {
        return false;
    }
    let mut j: usize = 0;
    while j < p.len()
        invariant
            j <= p.len(),
            i + p.len() <= s.len(),
            forall|k: int| 0 <= k < j ==> s@[i + k] == p@[k],
        decreases p.len() - j,
    {
        if s[i + j] != p[j] {
            assert(s@.subrange(i as int, i + p.len())[j as int] != p@[j as int]);
            return false;
        }
        j += 1;
    }
    assert(s@.subrange(i as int, i + p.len()) =~= p@);
    true
}

pub fn starts_with_exec(s: &[char], p: &[char]) -> (r: bool)
    ensures
        r == starts_with(s@, p@),
{
    matches_at_exec(s, p, 0)
}

/// First occurrence of `p` in `s` (character position).
pub fn find_exec(s: &[char], p: &[char]) -> (r: Option<usize>)
    ensures
        opt_int(r) == find(s@, p@),
        r matches Some(k) ==> k + p@.len() <= s@.len(),
{
    let mut i: usize = 0;
    while i < s.len()
        invariant
            i <= s.len(),
            forall|j: int| 0 <= j < i ==> !#[trigger] matches_at(s@, p@, j),
        decreases s.len() - i,
    {
        if matches_at_exec(s, p, i) {
            proof {
                lemma_find_char(s@, p@, Some(i as int));
            }
            return Some(i);
        }
        i += 1;
    }
    if matches_at_exec(s, p, i) {
        proof {
            lemma_find_char(s@, p@, Some(i as int));
        }
        return Some(i);
    }
    proof {
        assert forall|j: int| 0 <= j implies !#[trigger] matches_at(s@, p@, j) by {
            if j > i {
                assert(j + p@.len() > s@.len());
            }
        }
        lemma_find_char(s@, p@, None);
    }
    None
}

pub fn contains_exec(s: &[char], p: &[char]) -> (r: bool)
    ensures
        r == contains(s@, p@),
{
    find_exec(s, p).is_some()
}

/// Whether `c` can be part of a word: an ASCII letter or digit, or `_`.
pub open spec fn word_char(c: char) -> bool {
    is_ascii_alnum(c) || c == '_'
}

/// `w` occurs at `i` as whole words: where `w` begins with a word character,
/// none stands right before it, and where it ends with one, none stands
/// right after it.
pub open spec fn word_at(s: Seq<char>, w: Seq<char>, i: int) -> bool {
    &&& matches_at(s, w, i)
    &&& w.len() > 0
    &&& (i == 0 || !word_char(w[0]) || !word_char(s[i - 1]))
    &&& (i + w.len() == s.len() || !word_char(w[w.len() - 1]) || !word_char(s[i + w.len()]))
}

/// Whether `w` occurs in `s` as whole words.
pub open spec fn contains_word(s: Seq<char>, w: Seq<char>) -> bool {
    find_word(s, w) is Some
}

/// Position of the first whole-word occurrence of `w` at or after `i`.
pub open spec fn find_word_from(s: Seq<char>, w: Seq<char>, i: int) -> Option<int>
    decreases s.len() + 1 - i,
{
    if i < 0 || i + w.len() > s.len() {
        None
    } else if word_at(s, w, i) {
        Some(i)
    } else {
        find_word_from(s, w, i + 1)
    }
}

/// Position of the first whole-word occurrence of `w`.
pub open spec fn find_word(s: Seq<char>, w: Seq<char>) -> Option<int> {
    find_word_from(s, w, 0)
}

pub proof fn lemma_find_word_from(s: Seq<char>, w: Seq<char>, i: int)
    requires
        0 <= i,
    ensures
        find_word_from(s, w, i) matches Some(k) ==> i <= k && word_at(s, w, k),
    decreases s.len() + 1 - i,
{
    if i + w.len() <= s.len() && !word_at(s, w, i) {
        lemma_find_word_from(s, w, i + 1);
    }
}

proof fn lemma_no_empty_word(s: Seq<char>, w: Seq<char>, i: int)
    requires
        w.len() == 0,
    ensures
        find_word_from(s, w, i) is None,
    decreases s.len() + 1 - i,
{
    if 0 <= i && i + w.len() <= s.len() {
        lemma_no_empty_word(s, w, i + 1);
    }
}

/// Whether `w` occurs in `s` as whole words.
pub fn contains_word_exec(s: &[char], w: &[char]) -> (r: bool)
    ensures
        r == contains_word(s@, w@),
{
    find_word_exec(s, w).is_some()
}

/// `s` begins with `w` as whole words.
pub open spec fn starts_with_word(s: Seq<char>, w: Seq<char>) -> bool {
    word_at(s, w, 0)
}

pub fn starts_with_word_exec(s: &[char], w: &[char]) -> (r: bool)
    ensures
        r == starts_with_word(s@, w@),
{
    let n = s.len();
    let wl = w.len();
    wl > 0 && matches_at_exec(s, w, 0) && (wl == n || !word_char_exec(w[wl - 1])
        || !word_char_exec(s[wl]))
}

fn word_char_exec(c: char) -> (r: bool)
    ensures
        r == word_char(c),
{
    ('a' <= c && c <= 'z') || ('A' <= c && c <= 'Z') || ('0' <= c && c <= '9') || c == '_'
}

/// First whole-word occurrence of `w` in `s`.
pub fn find_word_exec(s: &[char], w: &[char]) -> (r: Option<usize>)
    ensures
        opt_int(r) == find_word(s@, w@),
        r matches Some(k) ==> k + w@.len() <= s@.len(),
{
    let n = s.len();
    let wl = w.len();
    if wl > n || wl == 0 {
        proof {
            if wl == 0 {
                lemma_no_empty_word(s@, w@, 0);
            }
        }
        return None;
    }
    let starts_word = word_char_exec(w[0]);
    let ends_word = word_char_exec(w[wl - 1]);
    let last = n - wl;
    let mut i: usize = 0;
    loop
        invariant
            wl == w@.len(),
            n == s@.len(),
            last == n - wl,
            wl > 0,
            starts_word == word_char(w@[0]),
            ends_word == word_char(w@[wl - 1]),
            i <= last,
            find_word(s@, w@) == find_word_from(s@, w@, i as int),
        decreases last - i,
    {
        let hit = matches_at_exec(s, w, i) && (i == 0 || !starts_word || !word_char_exec(
            s[i - 1],
        )) && (i + wl == n || !ends_word || !word_char_exec(s[i + wl]));
        if hit {
            return Some(i);
        }
        if i == last {
            assert(find_word_from(s@, w@, i + 1) is None);
            return None;
        }
        i += 1;
    }
}

/// Position of the first occurrence of `c`, as `str::find(char)`.
pub open spec fn find_char(s: Seq<char>, c: char) -> Option<int> {
    find(s, seq![c])
}

pub fn find_char_exec(s: &[char], c: char) -> (r: Option<usize>)
    ensures
        opt_int(r) == find_char(s@, c),
        r matches Some(k) ==> k < s@.len() && s@[k as int] == c,
{
    let p = vec![c];
    assert(p@ == seq![c]);
    let r = find_exec(s, p.as_slice());
    proof {
        lemma_find_from(s@, seq![c], 0);
    }
    if let Some(k) = r {
        assert(s@.subrange(k as int, k + 1)[0] == s@[k as int]);
    }
    r
}

/// Position of the last occurrence of `c` (like `str::rfind(char)`).
pub open spec fn rfind_char_before(s: Seq<char>, c: char, j: int) -> Option<int>
    decreases j,
{
    if j <= 0 || j > s.len() {
        None
    } else if s[j - 1] == c {
        Some(j - 1)
    } else {
        rfind_char_before(s, c, j - 1)
    }
}

pub open spec fn rfind_char(s: Seq<char>, c: char) -> Option<int> {
    rfind_char_before(s, c, s.len() as int)
}

pub fn rfind_char_exec(s: &[char], c: char) -> (r: Option<usize>)
    ensures
        opt_int(r) == rfind_char(s@, c),
        r matches Some(k) ==> k < s@.len(),
{
    let mut j: usize = s.len();
    while j > 0
        invariant
            j <= s.len(),
            rfind_char(s@, c) == rfind_char_before(s@, c, j as int),
        decreases j,
    {
        if s[j - 1] == c {
            return Some(j - 1);
        }
        j -= 1;
    }
    None
}

// ---------------------------------------------------------------------------
// Trimming
// ---------------------------------------------------------------------------

/// Index of the first non-whitespace character at or after `i`.
pub open spec fn ws_from(s: Seq<char>, i: int) -> int
    decreases s.len() - i,
{
    if 0 <= i < s.len() && is_ws(s[i]) {
        ws_from(s, i + 1)
    } else {
        i
    }
}

/// One past the last non-whitespace character at or before `j`.
pub open spec fn ws_back(s: Seq<char>, j: int) -> int
    decreases j,
{
    if 0 < j <= s.len() && is_ws(s[j - 1]) {
        ws_back(s, j - 1)
    } else {
        j
    }
}

pub open spec fn trim_start(s: Seq<char>) -> Seq<char> {
    s.subrange(ws_from(s, 0), s.len() as int)
}

pub open spec fn trim_end(s: Seq<char>) -> Seq<char> {
    s.subrange(0, ws_back(s, s.len() as int))
}

/// `str::trim`: leading and trailing whitespace removed.
pub open spec fn trim(s: Seq<char>) -> Seq<char> {
    trim_end(trim_start(s))
}

pub proof fn lemma_ws_from_bounds(s: Seq<char>, i: int)
    requires
        0 <= i <= s.len(),
    ensures
        i <= ws_from(s, i) <= s.len(),
    decreases s.len() - i,
{
    if i < s.len() && is_ws(s[i]) {
        lemma_ws_from_bounds(s, i + 1);
    }
}

pub proof fn lemma_ws_back_bounds(s: Seq<char>, j: int)
    requires
        0 <= j <= s.len(),
    ensures
        0 <= ws_back(s, j) <= j,
    decreases j,
{
    if 0 < j && is_ws(s[j - 1]) {
        lemma_ws_back_bounds(s, j - 1);
    }
}

proof fn lemma_ws_from_stop(s: Seq<char>, i: int)
    requires
        0 <= i,
    ensures
        ws_from(s, i) >= s.len() || !is_ws(s[ws_from(s, i)]),
    decreases s.len() - i,
{
    if 0 <= i < s.len() && is_ws(s[i]) {
        lemma_ws_from_stop(s, i + 1);
    }
}

proof fn lemma_ws_back_stop(s: Seq<char>, j: int)
    requires
        j <= s.len(),
    ensures
        ws_back(s, j) <= 0 || !is_ws(s[ws_back(s, j) - 1]),
    decreases j,
{
    if 0 < j <= s.len() && is_ws(s[j - 1]) {
        lemma_ws_back_stop(s, j - 1);
    }
}

/// A trimmed text that is not empty neither starts nor ends with whitespace.
pub proof fn lemma_trim_edges(s: Seq<char>)
    ensures
        trim(s).len() > 0 ==> !is_ws(trim(s)[0]) && !is_ws(trim(s)[trim(s).len() - 1]),
{
    let a = ws_from(s, 0);
    lemma_ws_from_bounds(s, 0);
    lemma_ws_from_stop(s, 0);
    let t = s.subrange(a, s.len() as int);
    let b = ws_back(t, t.len() as int);
    lemma_ws_back_bounds(t, t.len() as int);
    lemma_ws_back_stop(t, t.len() as int);
    if trim(s).len() > 0 {
        assert(trim(s) == t.subrange(0, b));
        assert(trim(s)[0] == s[a]);
        assert(trim(s)[trim(s).len() - 1] == t[b - 1]);
    }
}

pub fn ws_from_exec(s: &[char], i: usize) -> (r: usize)
    requires
        i <= s.len(),
    ensures
        r as int == ws_from(s@, i as int),
        i <= r <= s.len(),
{
    let mut k = i;
    while k < s.len() && char_is_ws(s[k])
        invariant
            i <= k <= s.len(),
            ws_from(s@, i as int) == ws_from(s@, k as int),
        decreases s.len() - k,
    {
        k += 1;
    }
    k
}

pub fn ws_back_exec(s: &[char], j: usize) -> (r: usize)
    requires
        j <= s.len(),
    ensures
        r as int == ws_back(s@, j as int),
        r <= j,
{
    let mut k = j;
    while k > 0 && char_is_ws(s[k - 1])
        invariant
            k <= j <= s.len(),
            ws_back(s@, j as int) == ws_back(s@, k as int),
        decreases k,
    {
        k -= 1;
    }
    k
}

pub fn trim_start_exec(s: &[char]) -> (r: &[char])
    ensures
        r@ == trim_start(s@),
{
    let a = ws_from_exec(s, 0);
    &s[a..s.len()]
}

pub fn trim_end_exec(s: &[char]) -> (r: &[char])
    ensures
        r@ == trim_end(s@),
{
    let b = ws_back_exec(s, s.len());
    &s[0..b]
}

pub fn trim_exec(s: &[char]) -> (r: &[char])
    ensures
        r@ == trim(s@),
{
    trim_end_exec(trim_start_exec(s))
}

/// `str::trim_start_matches(c)`: all leading copies of `c` removed.
pub open spec fn skip_char_from(s: Seq<char>, c: char, i: int) -> int
    decreases s.len() - i,
{
    if 0 <= i < s.len() && s[i] == c {
        skip_char_from(s, c, i + 1)
    } else {
        i
    }
}

/// `str::trim_end_matches(c)`: end position after dropping trailing copies of `c`.
pub open spec fn skip_char_back(s: Seq<char>, c: char, j: int) -> int
    decreases j,
{
    if 0 < j <= s.len() && s[j - 1] == c {
        skip_char_back(s, c, j - 1)
    } else {
        j
    }
}

pub open spec fn trim_end_matches(s: Seq<char>, c: char) -> Seq<char> {
    s.subrange(0, skip_char_back(s, c, s.len() as int))
}

/// `str::trim_matches(c)`: leading and trailing copies of `c` removed.
pub open spec fn trim_matches(s: Seq<char>, c: char) -> Seq<char> {
    let a = skip_char_from(s, c, 0);
    let t = s.subrange(a, s.len() as int);
    trim_end_matches(t, c)
}

pub fn trim_end_matches_exec(s: &[char], c: char) -> (r: &[char])
    ensures
        r@ == trim_end_matches(s@, c),
{
    let mut k = s.len();
    while k > 0 && s[k - 1] == c
        invariant
            k <= s.len(),
            skip_char_back(s@, c, s.len() as int) == skip_char_back(s@, c, k as int),
        decreases k,
    {
        k -= 1;
    }
    &s[0..k]
}

pub fn trim_matches_exec(s: &[char], c: char) -> (r: &[char])
    ensures
        r@ == trim_matches(s@, c),
{
    let mut a: usize = 0;
    while a < s.len() && s[a] == c
        invariant
            a <= s.len(),
            skip_char_from(s@, c, 0) == skip_char_from(s@, c, a as int),
        decreases s.len() - a,
    {
        a += 1;
    }
    trim_end_matches_exec(&s[a..s.len()], c)
}

// ---------------------------------------------------------------------------
// Quoting and simple tokens
// ---------------------------------------------------------------------------

/// Removes one pair of surrounding `"..."`, `` `...` `` or `[...]` after
/// trimming. A lone `"` or `` ` `` (both the opening and the closing quote)
/// gives the empty text.
pub open spec fn unquote(s0: Seq<char>) -> Seq<char> {
    let s = trim(s0);
    if s.len() >= 1 && ((s[0] == '"' && s[s.len() - 1] == '"') || (s[0] == '`' && s[s.len()
        - 1] == '`') || (s[0] == '[' && s[s.len() - 1] == ']')) {
        if s.len() == 1 {
            seq![]
        } else {
            s.subrange(1, s.len() - 1)
        }
    } else {
        s
    }
}

pub fn unquote_exec(s0: &[char]) -> (r: Vec<char>)
    ensures
        r@ == unquote(s0@),
{
    let s = trim_exec(s0);
    let n = s.len();
    if n >= 1 && ((s[0] == '"' && s[n - 1] == '"') || (s[0] == '`' && s[n - 1] == '`') || (s[0]
        == '[' && s[n - 1] == ']')) {
        if n == 1 {
            return Vec::new();
        }
        vstd::slice::slice_to_vec(&s[1..n - 1])
    } else {
        vstd::slice::slice_to_vec(s)
    }
}

/// First whitespace-separated word (`split_whitespace().next()`), or empty.
pub open spec fn first_word(s: Seq<char>) -> Seq<char> {
    let a = ws_from(s, 0);
    s.subrange(a, word_end(s, a))
}

pub open spec fn word_end(s: Seq<char>, i: int) -> int
    decreases s.len() - i,
{
    if 0 <= i < s.len() && !is_ws(s[i]) {
        word_end(s, i + 1)
    } else {
        i
    }
}

pub proof fn lemma_word_end_bounds(s: Seq<char>, i: int)
    requires
        0 <= i <= s.len(),
    ensures
        i <= word_end(s, i) <= s.len(),
    decreases s.len() - i,
{
    if i < s.len() && !is_ws(s[i]) {
        lemma_word_end_bounds(s, i + 1);
    }
}

pub fn first_word_exec(s: &[char]) -> (r: &[char])
    ensures
        r@ == first_word(s@),
{
    let a = ws_from_exec(s, 0);
    let mut k = a;
    while k < s.len() && !char_is_ws(s[k])
        invariant
            a <= k <= s.len(),
            word_end(s@, a as int) == word_end(s@, k as int),
        decreases s.len() - k,
    {
        k += 1;
    }
    &s[a..k]
}

// ---------------------------------------------------------------------------
// Splitting and joining
// ---------------------------------------------------------------------------

/// `str::split(p)` for a non-empty pattern: the pieces between occurrences of
/// `p` (always at least one).
pub open spec fn split_pat(s: Seq<char>, p: Seq<char>) -> Seq<Seq<char>>
    decreases s.len(),
{
    match find(s, p) {
        Some(k) => {
            if p.len() > 0 && 0 <= k && k + p.len() <= s.len() {
                seq![s.subrange(0, k)] + split_pat(s.subrange(k + p.len(), s.len() as int), p)
            } else {
                seq![s]
            }
        },
        None => seq![s],
    }
}

/// `str::split(c)` for a character.
pub open spec fn split_char(s: Seq<char>, c: char) -> Seq<Seq<char>> {
    split_pat(s, seq![c])
}

/// `str::split_once(p)`.
pub open spec fn split_once(s: Seq<char>, p: Seq<char>) -> Option<(Seq<char>, Seq<char>)> {
    match find(s, p) {
        Some(k) => Some((s.subrange(0, k), s.subrange(k + p.len(), s.len() as int))),
        None => None,
    }
}

/// `str::strip_prefix(p)`.
pub open spec fn strip_prefix(s: Seq<char>, p: Seq<char>) -> Option<Seq<char>> {
    if starts_with(s, p) {
        Some(s.subrange(p.len() as int, s.len() as int))
    } else {
        None
    }
}

/// The text before the first occurrence of `p` (`split(p).next()`).
pub open spec fn before_first(s: Seq<char>, p: Seq<char>) -> Seq<char> {
    match find(s, p) {
        Some(k) => s.subrange(0, k),
        None => s,
    }
}

pub open spec fn views(v: Seq<Vec<char>>) -> Seq<Seq<char>> {
    v.map_values(|x: Vec<char>| x@)
}

pub fn split_pat_exec(s: &[char], p: &[char]) -> (r: Vec<Vec<char>>)
    requires
        p@.len() > 0,
    ensures
        views(r@) == split_pat(s@, p@),
        r@.len() >= 1,
    decreases s.len(),
{
    match find_exec(s, p) {
        Some(k) => {
            let head = vstd::slice::slice_to_vec(&s[0..k]);
            let rest = split_pat_exec(&s[k + p.len()..s.len()], p);
            let mut r: Vec<Vec<char>> = Vec::new();
            r.push(head);
            let ghost r0 = views(r@);
            assert(r0 =~= seq![s@.subrange(0, k as int)]);
            let mut rest = rest;
            let ghost rd = views(rest@);
            r.append(&mut rest);
            assert(views(r@) =~= r0 + rd);
            r
        },
        None => {
            let mut r: Vec<Vec<char>> = Vec::new();
            r.push(vstd::slice::slice_to_vec(s));
            assert(views(r@) =~= seq![s@]);
            r
        },
    }
}

pub fn split_char_exec(s: &[char], c: char) -> (r: Vec<Vec<char>>)
    ensures
        views(r@) == split_char(s@, c),
        r@.len() >= 1,
{
    let p = vec![c];
    assert(p@ =~= seq![c]);
    split_pat_exec(s, p.as_slice())
}

pub fn split_once_exec<'a>(s: &'a [char], p: &[char]) -> (r: Option<(&'a [char], &'a [char])>)
    ensures
        match r {
            Some((a, b)) => split_once(s@, p@) == Some((a@, b@)),
            None => split_once(s@, p@) is None,
        },
{
    match find_exec(s, p) {
        Some(k) => {
            let pl = p.len();
            let sl = s.len();
            assert(pl == p@.len());
            assert(sl == s@.len());
            assert(k + p@.len() <= s@.len());
            let a = &s[0..k];
            let b = &s[k + pl..s.len()];
            Some((a, b))
        },
        None => None,
    }
}

pub fn strip_prefix_exec<'a>(s: &'a [char], p: &[char]) -> (r: Option<&'a [char]>)
    ensures
        match r {
            Some(a) => strip_prefix(s@, p@) == Some(a@),
            None => strip_prefix(s@, p@) is None,
        },
{
    if starts_with_exec(s, p) {
        Some(&s[p.len()..s.len()])
    } else {
        None
    }
}

pub fn before_first_exec<'a>(s: &'a [char], p: &[char]) -> (r: &'a [char])
    ensures
        r@ == before_first(s@, p@),
{
    match find_exec(s, p) {
        Some(k) => &s[0..k],
        None => s,
    }
}

/// Concatenation of `parts` separated by `sep` (`[T]::join`).
pub open spec fn join(parts: Seq<Seq<char>>, sep: Seq<char>) -> Seq<char>
    decreases parts.len(),
{
    if parts.len() == 0 {
        seq![]
    } else if parts.len() == 1 {
        parts[0]
    } else {
        join(parts.drop_last(), sep) + sep + parts.last()
    }
}

/// A text in which `p` occurs at some position contains `p`.
pub proof fn lemma_contains_at(s: Seq<char>, p: Seq<char>, i: int)
    requires
        0 <= i,
        matches_at(s, p, i),
    ensures
        contains(s, p),
{
    lemma_find_from(s, p, 0);
}

proof fn lemma_matches_extend(s: Seq<char>, t: Seq<char>, p: Seq<char>, i: int)
    requires
        matches_at(s, p, i),
    ensures
        matches_at(s + t, p, i),
{
    assert((s + t).subrange(i, i + p.len()) =~= s.subrange(i, i + p.len()));
}

/// Each part occurs in the joined text, at its start for the first part.
pub proof fn lemma_join_has_part(parts: Seq<Seq<char>>, sep: Seq<char>, k: int)
    requires
        0 <= k < parts.len(),
    ensures
        exists|i: int| 0 <= i && #[trigger] matches_at(join(parts, sep), parts[k], i),
    decreases parts.len(),
{
    let j = join(parts, sep);
    if parts.len() == 1 {
        assert(j.subrange(0, parts[0].len() as int) =~= parts[0]);
        assert(matches_at(j, parts[k], 0));
    } else {
        let init = parts.drop_last();
        let ji = join(init, sep);
        assert(j == ji + sep + parts.last());
        if k == parts.len() - 1 {
            let i = (ji.len() + sep.len()) as int;
            assert(j.subrange(i, i + parts[k].len()) =~= parts[k]);
            assert(matches_at(j, parts[k], i));
        } else {
            lemma_join_has_part(init, sep, k);
            let i = choose|i: int| 0 <= i && #[trigger] matches_at(ji, init[k], i);
            lemma_matches_extend(ji, sep + parts.last(), init[k], i);
            assert(ji + (sep + parts.last()) =~= j);
            assert(matches_at(j, parts[k], i));
        }
    }
}

/// Each part is contained in text that holds the parts joined.
pub proof fn lemma_join_contains_part(
    head: Seq<char>,
    parts: Seq<Seq<char>>,
    sep: Seq<char>,
    tail: Seq<char>,
    k: int,
)
    requires
        0 <= k < parts.len(),
    ensures
        contains(head + join(parts, sep) + tail, parts[k]),
{
    lemma_join_has_part(parts, sep, k);
    let j = join(parts, sep);
    let i = choose|i: int| 0 <= i && #[trigger] matches_at(j, parts[k], i);
    let whole = head + j + tail;
    assert(whole.subrange(head.len() + i, head.len() + i + parts[k].len()) =~= j.subrange(
        i,
        i + parts[k].len(),
    ));
    lemma_contains_at(whole, parts[k], head.len() + i);
}

/// A text that neither starts nor ends with whitespace is its own trim.
pub proof fn lemma_trim_untouched(s: Seq<char>)
    requires
        s.len() > 0,
        !is_ws(s[0]),
        !is_ws(s[s.len() - 1]),
    ensures
        trim(s) == s,
{
    assert(ws_from(s, 0) == 0);
    assert(trim_start(s) =~= s);
    assert(ws_back(s, s.len() as int) == s.len());
    assert(trim_end(s) =~= s);
}

pub fn join_strings(parts: &Vec<String>, sep: &str) -> (r: String)
    ensures
        r@ == join(parts.deep_view(), sep@),
{
    let mut r = String::new();
    let mut i: usize = 0;
    while i < parts.len()
        invariant
            i <= parts.len(),
            r@ == join(parts.deep_view().take(i as int), sep@),
        decreases parts.len() - i,
    {
        let ghost before = parts.deep_view().take(i as int);
        if i > 0 {
            r.append(sep);
        }
        r.append(parts[i].as_str());
        assert(parts.deep_view().take(i + 1).drop_last() == before);
        i += 1;
    }
    assert(parts.deep_view().take(parts.len() as int) == parts.deep_view());
    r
}

// ---------------------------------------------------------------------------
// Decimal numbers
// ---------------------------------------------------------------------------

pub open spec fn digit_char(d: nat) -> char {
    ((d + 48) as u32) as char
}

/// Decimal representation of a natural number, without leading zeros.
pub open spec fn decimal(n: nat) -> Seq<char>
    decreases n,
{
    if n < 10 {
        seq![digit_char(n)]
    } else {
        decimal(n / 10) + seq![digit_char(n % 10)]
    }
}

fn digit_to_char(d: u64) -> (c: char)
    requires
        d < 10,
    ensures
        c == digit_char(d as nat),
{
    let b: u8 = (d as u8) + 48;
    let c = b as char;
    assert(c as u32 == b as u32);
    c
}

/// Decimal representation of `n` (`u64::to_string`).
pub fn u64_to_string(n: u64) -> (r: String)
    ensures
        r@ == decimal(n as nat),
    decreases n,
{
    if n < 10 {
        let mut r = String::new();
        push_char(&mut r, digit_to_char(n));
        r
    } else {
        let mut r = u64_to_string(n / 10);
        push_char(&mut r, digit_to_char(n % 10));
        r
    }
}

pub fn u32_to_string(n: u32) -> (r: String)
    ensures
        r@ == decimal(n as nat),
{
    u64_to_string(n as u64)
}

pub fn usize_to_string(n: usize) -> (r: String)
    ensures
        r@ == decimal(n as nat),
{
    u64_to_string(n as u64)
}

/// Value of the decimal digits `s[0..j]` (each a digit).
pub open spec fn digits_value(s: Seq<char>, j: int) -> nat
    decreases j,
{
    if j <= 0 || j > s.len() {
        0
    } else {
        digits_value(s, j - 1) * 10 + ((s[j - 1] as u32) - 48) as nat
    }
}

pub open spec fn all_digits(s: Seq<char>) -> bool {
    forall|i: int| 0 <= i < s.len() ==> is_ascii_digit(#[trigger] s[i])
}

/// `str::parse::<u32>()`: an optional `+` followed by one or more ASCII
/// digits whose value fits in `u32`.
pub open spec fn parse_u32(s: Seq<char>) -> Option<u32> {
    parse_digits(strip_plus(s))
}

pub open spec fn strip_plus(s: Seq<char>) -> Seq<char> {
    if s.len() > 0 && s[0] == '+' {
        s.drop_first()
    } else {
        s
    }
}

pub open spec fn parse_digits(d: Seq<char>) -> Option<u32> {
    if d.len() > 0 && all_digits(d) && digits_value(d, d.len() as int) <= u32::MAX {
        Some(digits_value(d, d.len() as int) as u32)
    } else {
        None
    }
}

proof fn lemma_digits_value_mono(s: Seq<char>, i: int, j: int)
    requires
        0 <= i <= j <= s.len(),
        all_digits(s),
    ensures
        digits_value(s, i) <= digits_value(s, j),
    decreases j - i,
{
    if i < j {
        lemma_digits_value_mono(s, i, j - 1);
    }
}

pub fn parse_u32_exec(s: &[char]) -> (r: Option<u32>)
    ensures
        r == parse_u32(s@),
{
    let d: &[char] = if s.len() > 0 && s[0] == '+' {
        &s[1..s.len()]
    } else {
        s
    };
    assert(d@ == strip_plus(s@));
    if d.len() == 0 {
        assert(parse_digits(d@) is None);
        return None;
    }
    let mut i: usize = 0;
    while i < d.len()
        invariant
            i <= d.len(),
            forall|k: int| 0 <= k < i ==> is_ascii_digit(#[trigger] d@[k]),
            d@ == strip_plus(s@),
        decreases d.len() - i,
    {
        if !('0' <= d[i] && d[i] <= '9') {
            assert(!is_ascii_digit(d@[i as int]));
            assert(!all_digits(d@));
            assert(parse_digits(d@) is None);
            return None;
        }
        i += 1;
    }
    let mut v: u64 = 0;
    let mut j: usize = 0;
    while j < d.len()
        invariant
            j <= d.len(),
            all_digits(d@),
            d@ == strip_plus(s@),
            d@.len() > 0,
            v == digits_value(d@, j as int),
            v <= u32::MAX,
        decreases d.len() - j,
    {
        let c = d[j];
        let dv: u64 = (c as u32 - 48) as u64;
        let nv = v * 10 + dv;
        if nv > 0xFFFF_FFFF {
            proof {
                assert(digits_value(d@, j + 1) == nv);
                lemma_digits_value_mono(d@, j + 1, d@.len() as int);
                assert(parse_digits(d@) is None);
            }
            return None;
        }
        v = nv;
        j += 1;
    }
    Some(v as u32)
}


// ---------------------------------------------------------------------------
// First hit in a sequence of booleans (`Iterator::position`)
// ---------------------------------------------------------------------------

pub open spec fn first_true_from(s: Seq<bool>, i: int) -> Option<int>
    decreases s.len() - i,
{
    if i < 0 || i >= s.len() {
        None
    } else if s[i] {
        Some(i)
    } else {
        first_true_from(s, i + 1)
    }
}

/// Position of the first `true` in `s`.
pub open spec fn first_true(s: Seq<bool>) -> Option<int> {
    first_true_from(s, 0)
}

pub proof fn lemma_first_true_from(s: Seq<bool>, i: int)
    requires
        0 <= i,
    ensures
        match first_true_from(s, i) {
            Some(k) => i <= k < s.len() && s[k] && forall|j: int| i <= j < k ==> !s[j],
            None => forall|j: int| i <= j < s.len() ==> !s[j],
        },
    decreases s.len() - i,
{
    if i < s.len() && !s[i] {
        lemma_first_true_from(s, i + 1);
    }
}

/// Characterization of `first_true` by its result.
pub proof fn lemma_first_true(s: Seq<bool>, r: Option<int>)
    requires
        match r {
            Some(k) => 0 <= k < s.len() && s[k] && forall|j: int| 0 <= j < k ==> !s[j],
            None => forall|j: int| 0 <= j < s.len() ==> !s[j],
        },
    ensures
        first_true(s) == r,
{
    lemma_first_true_from(s, 0);
    match first_true(s) {
        Some(k) => {
            match r {
                Some(k2) => {
                    if k < k2 {
                        assert(!s[k]);
                    } else if k2 < k {
                        assert(!s[k2]);
                    }
                },
                None => {
                    assert(!s[k]);
                },
            }
        },
        None => {
            match r {
                Some(k2) => {
                    assert(!s[k2]);
                },
                None => {},
            }
        },
    }
}

// ---------------------------------------------------------------------------
// Upper-casing and trimming commute
// ---------------------------------------------------------------------------

pub proof fn lemma_ws_upper(c: char)
    ensures
        is_ws(upper_char(c)) == is_ws(c),
        upper_char(c) == ')' <==> c == ')',
        upper_char(c) == '(' <==> c == '(',
{
}

proof fn lemma_ws_from_upper(s: Seq<char>, i: int)
    ensures
        ws_from(upper(s), i) == ws_from(s, i),
    decreases s.len() - i,
{
    if 0 <= i < s.len() {
        lemma_ws_upper(s[i]);
        lemma_ws_from_upper(s, i + 1);
    }
}

proof fn lemma_ws_back_upper(s: Seq<char>, j: int)
    ensures
        ws_back(upper(s), j) == ws_back(s, j),
    decreases j,
{
    if 0 < j <= s.len() {
        lemma_ws_upper(s[j - 1]);
        lemma_ws_back_upper(s, j - 1);
    }
}

/// `trim(upper(s)) == upper(trim(s))`.
pub proof fn lemma_trim_upper(s: Seq<char>)
    ensures
        trim(upper(s)) == upper(trim(s)),
        upper(s).len() == s.len(),
{
    let u = upper(s);
    lemma_ws_from_upper(s, 0);
    lemma_ws_from_bounds(s, 0);
    let a = ws_from(s, 0);
    let ts = s.subrange(a, s.len() as int);
    let tu = u.subrange(a, u.len() as int);
    assert(tu =~= upper(ts));
    lemma_ws_back_upper(ts, ts.len() as int);
    lemma_ws_back_bounds(ts, ts.len() as int);
    assert(trim(u) =~= upper(trim(s)));
}

} // verus!
