//! Character sequences: the model that every string contract is stated over,
//! and the executable helpers that work on `Vec<char>`.
//!
//! A string is viewed as its sequence of Unicode scalar values. Case folding
//! of ASCII text is done here; text that holds other characters is folded by
//! the standard library, and that result is only named.

use vstd::prelude::*;

verus! {

// ---------------------------------------------------------------------------
// Characters
// ---------------------------------------------------------------------------

/// The lowercase form of one ASCII character; other characters are unchanged.
pub open spec fn ascii_lower_char(c: char) -> char {
    if 'A' <= c && c <= 'Z' {
        ((c as u8) + 32) as char
    } else {
        c
    }
}

/// Whether `c` is one of the ten ASCII digits.
pub open spec fn is_digit_char(c: char) -> bool {
    '0' <= c && c <= '9'
}

/// Whether `c` has the Unicode `White_Space` property.
pub open spec fn is_whitespace_char(c: char) -> bool {
    ||| ('\u{9}' <= c && c <= '\u{d}')
    ||| c == ' '
    ||| c == '\u{85}'
    ||| c == '\u{a0}'
    ||| c == '\u{1680}'
    ||| ('\u{2000}' <= c && c <= '\u{200a}')
    ||| c == '\u{2028}'
    ||| c == '\u{2029}'
    ||| c == '\u{202f}'
    ||| c == '\u{205f}'
    ||| c == '\u{3000}'
}

/// Executable form of [`ascii_lower_char`].
pub fn to_ascii_lower(c: char) -> (r: char)
    ensures
        r == ascii_lower_char(c),
{
    if 'A' <= c && c <= 'Z' {
        ((c as u8) + 32) as char
    } else {
        c
    }
}

/// Executable form of [`is_digit_char`].
pub fn is_digit(c: char) -> (r: bool)
    ensures
        r == is_digit_char(c),
{
    '0' <= c && c <= '9'
}

/// Executable form of [`is_whitespace_char`].
pub fn is_whitespace(c: char) -> (r: bool)
    ensures
        r == is_whitespace_char(c),
{
    ('\u{9}' <= c && c <= '\u{d}') || c == ' ' || c == '\u{85}' || c == '\u{a0}' || c == '\u{1680}'
        || ('\u{2000}' <= c && c <= '\u{200a}') || c == '\u{2028}' || c == '\u{2029}' || c
        == '\u{202f}' || c == '\u{205f}' || c == '\u{3000}'
}

// ---------------------------------------------------------------------------
// Sequences of characters
// ---------------------------------------------------------------------------

/// Every character of `s` is ASCII.
pub open spec fn is_ascii_seq(s: Seq<char>) -> bool {
    vstd::utf8::is_ascii_chars(s)
}

/// `s` with each ASCII capital replaced by its small letter.
pub open spec fn ascii_lower(s: Seq<char>) -> Seq<char> {
    Seq::new(s.len(), |i: int| ascii_lower_char(s[i]))
}

/// What `str::to_lowercase` returns for the text `s`. Only used for text that
/// holds a character outside ASCII.
pub uninterp spec fn unicode_lower(s: Seq<char>) -> Seq<char>;

/// The lowercase form of `s`: computed here when `s` is ASCII, and by the
/// standard library's Unicode mapping otherwise.
pub open spec fn lower(s: Seq<char>) -> Seq<char> {
    if is_ascii_seq(s) {
        ascii_lower(s)
    } else {
        unicode_lower(s)
    }
}

/// `s` begins with `p`.
pub open spec fn starts_with(s: Seq<char>, p: Seq<char>) -> bool {
    p.len() <= s.len() && s.subrange(0, p.len() as int) == p
}

/// `s` ends with `p`.
pub open spec fn ends_with(s: Seq<char>, p: Seq<char>) -> bool {
    p.len() <= s.len() && s.subrange(s.len() - p.len(), s.len() as int) == p
}

/// `p` occurs in `s` at position `i`.
pub open spec fn occurs_at(s: Seq<char>, p: Seq<char>, i: int) -> bool {
    0 <= i && i + p.len() <= s.len() && s.subrange(i, i + p.len()) == p
}

/// `p` occurs somewhere in `s`.
pub open spec fn contains_seq(s: Seq<char>, p: Seq<char>) -> bool {
    exists|i: int| occurs_at(s, p, i)
}

/// `i` is the position of the first `c` in `s`.
pub open spec fn is_first_index(s: Seq<char>, c: char, i: int) -> bool {
    &&& 0 <= i < s.len()
    &&& s[i] == c
    &&& forall|j: int| 0 <= j < i ==> s[j] != c
}

/// The position of the first `c` in `s`, if `s` holds one.
pub open spec fn first_index(s: Seq<char>, c: char) -> Option<int> {
    if exists|i: int| is_first_index(s, c, i) {
        Some(choose|i: int| is_first_index(s, c, i))
    } else {
        None
    }
}

/// `s` without its characters that have the `White_Space` property.
pub open spec fn without_whitespace(s: Seq<char>) -> Seq<char>
    decreases s.len(),
{
    if s.len() == 0 {
        s
    } else {
        let rest = without_whitespace(s.drop_last());
        if is_whitespace_char(s.last()) {
            rest
        } else {
            rest.push(s.last())
        }
    }
}

/// Lexicographic comparison of `a` and `b` from position `k` on, by scalar
/// value; this is the order of `str`.
pub open spec fn lex_lt_from(a: Seq<char>, b: Seq<char>, k: int) -> bool
    decreases a.len() - k,
{
    if k < 0 || k >= b.len() {
        false
    } else if k >= a.len() {
        true
    } else if a[k] != b[k] {
        a[k] < b[k]
    } else {
        lex_lt_from(a, b, k + 1)
    }
}

/// `a` comes strictly before `b` in lexicographic order.
pub open spec fn lex_lt(a: Seq<char>, b: Seq<char>) -> bool {
    lex_lt_from(a, b, 0)
}

// ---------------------------------------------------------------------------
// Lemmas
// ---------------------------------------------------------------------------

/// A position that satisfies [`is_first_index`] is the one [`first_index`] names.
pub proof fn lemma_first_index_is(s: Seq<char>, c: char, i: int)
    requires
        is_first_index(s, c, i),
    ensures
        first_index(s, c) == Some(i),
{
    let j = choose|j: int| is_first_index(s, c, j);
    assert(is_first_index(s, c, j));
    if j < i {
        assert(s[j] != c);
    } else if i < j {
        assert(s[i] != c);
    }
}

/// A sequence without `c` has no first index of `c`.
pub proof fn lemma_first_index_none(s: Seq<char>, c: char)
    requires
        forall|j: int| 0 <= j < s.len() ==> s[j] != c,
    ensures
        first_index(s, c) is None,
{
}

/// What [`first_index`] says, unfolded.
pub proof fn lemma_first_index_props(s: Seq<char>, c: char)
    ensures
        match first_index(s, c) {
            Some(i) => is_first_index(s, c, i),
            None => forall|j: int| 0 <= j < s.len() ==> s[j] != c,
        },
{
    if first_index(s, c) is None {
        assert forall|j: int| 0 <= j < s.len() implies s[j] != c by {
            if s[j] == c {
                lemma_has_first_index(s, c, j);
            }
        }
    }
}

/// If `c` occurs at `j`, some position is its first.
proof fn lemma_has_first_index(s: Seq<char>, c: char, j: int)
    requires
        0 <= j < s.len(),
        s[j] == c,
    ensures
        exists|i: int| is_first_index(s, c, i),
    decreases j,
{
    if exists|k: int| 0 <= k < j && s[k] == c {
        let k = choose|k: int| 0 <= k < j && s[k] == c;
        lemma_has_first_index(s, c, k);
    } else {
        assert(is_first_index(s, c, j));
    }
}

/// ASCII lowercasing keeps the length, keeps the text ASCII, and is idempotent.
pub proof fn lemma_ascii_lower_props(s: Seq<char>)
    requires
        is_ascii_seq(s),
    ensures
        ascii_lower(s).len() == s.len(),
        is_ascii_seq(ascii_lower(s)),
        ascii_lower(ascii_lower(s)) == ascii_lower(s),
        lower(s) == ascii_lower(s),
        lower(lower(s)) == lower(s),
{
    assert(ascii_lower(ascii_lower(s)) =~= ascii_lower(s));
}

/// ASCII lowercasing commutes with taking a subrange.
pub proof fn lemma_ascii_lower_subrange(s: Seq<char>, i: int, j: int)
    requires
        0 <= i <= j <= s.len(),
    ensures
        ascii_lower(s.subrange(i, j)) == ascii_lower(s).subrange(i, j),
{
    assert(ascii_lower(s.subrange(i, j)) =~= ascii_lower(s).subrange(i, j));
}

/// Lexicographic order is asymmetric.
pub proof fn lemma_lex_lt_asymmetric(a: Seq<char>, b: Seq<char>)
    ensures
        lex_lt(a, b) ==> !lex_lt(b, a),
{
    lemma_lex_lt_from_asymmetric(a, b, 0);
}

proof fn lemma_lex_lt_from_asymmetric(a: Seq<char>, b: Seq<char>, k: int)
    requires
        0 <= k,
    ensures
        lex_lt_from(a, b, k) ==> !lex_lt_from(b, a, k),
    decreases a.len() - k,
{
    if k < a.len() && k < b.len() && a[k] == b[k] {
        lemma_lex_lt_from_asymmetric(a, b, k + 1);
    }
}

/// Lexicographic order is transitive.
pub proof fn lemma_lex_lt_transitive(a: Seq<char>, b: Seq<char>, c: Seq<char>)
    requires
        lex_lt(a, b),
        lex_lt(b, c),
    ensures
        lex_lt(a, c),
{
    lemma_lex_lt_from_transitive(a, b, c, 0);
}

proof fn lemma_lex_lt_from_transitive(a: Seq<char>, b: Seq<char>, c: Seq<char>, k: int)
    requires
        0 <= k,
        lex_lt_from(a, b, k),
        lex_lt_from(b, c, k),
    ensures
        lex_lt_from(a, c, k),
    decreases a.len() - k,
{
    if k < a.len() && k < b.len() && k < c.len() && a[k] == b[k] && b[k] == c[k] {
        lemma_lex_lt_from_transitive(a, b, c, k + 1);
    }
}

/// Two sequences of which neither comes before the other are equal.
pub proof fn lemma_lex_lt_total(a: Seq<char>, b: Seq<char>)
    ensures
        !lex_lt(a, b) && !lex_lt(b, a) ==> a == b,
{
    if !lex_lt(a, b) && !lex_lt(b, a) {
        lemma_lex_from_equal(a, b, 0);
        assert(a =~= b);
    }
}

proof fn lemma_lex_from_equal(a: Seq<char>, b: Seq<char>, k: int)
    requires
        0 <= k <= a.len(),
        k <= b.len(),
        !lex_lt_from(a, b, k),
        !lex_lt_from(b, a, k),
    ensures
        a.len() == b.len(),
        forall|j: int| k <= j < a.len() ==> a[j] == b[j],
    decreases a.len() - k,
{
    if k < a.len() && k < b.len() {
        lemma_lex_from_equal(a, b, k + 1);
    }
}

// ---------------------------------------------------------------------------
// Conversions between strings and vectors of characters
// ---------------------------------------------------------------------------

/// `String::push` appends one character.
pub assume_specification[ String::push ](s: &mut String, c: char)
    ensures
        final(s)@ == old(s)@.push(c),
;

/// The characters of a string slice, in order.
pub fn chars_of(s: &str) -> (v: Vec<char>)
    ensures
        v@ == s@,
{
    let mut v: Vec<char> = Vec::new();
    let it = s.chars();
    for c in iter: it
        invariant
            v@ == iter.seq().take(iter.index()),
    {
        v.push(c);
    }
    v
}

/// The string made of the characters `v[from..to]`.
pub fn string_of_range(v: &Vec<char>, from: usize, to: usize) -> (s: String)
    requires
        from <= to <= v.len(),
    ensures
        s@ == v@.subrange(from as int, to as int),
{
    let mut s = String::new();
    let mut i: usize = from;
    while i < to
        invariant
            from <= i <= to <= v.len(),
            s@ == v@.subrange(from as int, i as int),
        decreases to - i,
    {
        s.push(v[i]);
        assert(v@.subrange(from as int, i as int).push(v@[i as int]) =~= v@.subrange(
            from as int,
            i + 1,
        ));
        i += 1;
    }
    s
}

/// The string made of the given characters.
pub fn string_of(v: &Vec<char>) -> (s: String)
    ensures
        s@ == v@,
{
    let s = string_of_range(v, 0, v.len());
    assert(v@.subrange(0, v.len() as int) =~= v@);
    s
}

/// Whether two vectors hold the same characters.
pub fn same_chars(a: &Vec<char>, b: &Vec<char>) -> (r: bool)
    ensures
        r == (a@ == b@),
{
    if a.len() != b.len() {
        return false;
    }
    let r = matches_at(a, 0, b);
    assert(a@.subrange(0, b@.len() as int) =~= a@);
    r
}

/// Whether two string slices hold the same characters.
pub fn str_eq(a: &str, b: &str) -> (r: bool)
    ensures
        r == (a@ == b@),
{
    let v = chars_of(a);
    let w = chars_of(b);
    same_chars(&v, &w)
}

/// The concatenation of two string slices.
pub fn joined(a: &str, b: &str) -> (s: String)
    ensures
        s@ == a@ + b@,
{
    let mut v = chars_of(a);
    let w = chars_of(b);
    let mut i: usize = 0;
    while i < w.len()
        invariant
            i <= w.len(),
            v@ == a@ + w@.subrange(0, i as int),
        decreases w.len() - i,
    {
        v.push(w[i]);
        assert((a@ + w@.subrange(0, i as int)).push(w@[i as int]) =~= a@ + w@.subrange(0, i + 1));
        i += 1;
    }
    assert(w@.subrange(0, w.len() as int) =~= w@);
    string_of(&v)
}

// ---------------------------------------------------------------------------
// Case folding
// ---------------------------------------------------------------------------

/// Trusted: `str::to_lowercase` of the standard library. Its result is a
/// function of the text alone and is given the name [`unicode_lower`]; nothing
/// else is claimed of it.
#[verifier::external_body]
fn unicode_lowercase(s: &str) -> (r: String)
    ensures
        r@ == unicode_lower(s@),
{
    s.to_lowercase()
}

/// The lowercase form of `s`.
pub fn lowercase(s: &str) -> (r: String)
    ensures
        r@ == lower(s@),
{
    if s.is_ascii() {
        let v = chars_of(s);
        let w = lowercase_ascii_chars(&v);
        string_of(&w)
    } else {
        unicode_lowercase(s)
    }
}

/// ASCII lowercasing of a vector of characters.
pub fn lowercase_ascii_chars(v: &Vec<char>) -> (w: Vec<char>)
    ensures
        w@ == ascii_lower(v@),
{
    let mut w: Vec<char> = Vec::new();
    let mut i: usize = 0;
    while i < v.len()
        invariant
            i <= v.len(),
            w@.len() == i,
            forall|j: int| 0 <= j < i ==> w@[j] == ascii_lower_char(v@[j]),
        decreases v.len() - i,
    {
        w.push(to_ascii_lower(v[i]));
        i += 1;
    }
    assert(w@ =~= ascii_lower(v@));
    w
}

// ---------------------------------------------------------------------------
// Searching
// ---------------------------------------------------------------------------

/// Whether `v[at..]` begins with `p`.
pub fn matches_at(v: &Vec<char>, at: usize, p: &Vec<char>) -> (r: bool)
    ensures
        r == occurs_at(v@, p@, at as int),
{
    if p.len() > v.len() || at > v.len() - p.len() {
        return false;
    }
    let mut k: usize = 0;
    while k < p.len()
        invariant
            k <= p.len(),
            at + p.len() <= v.len(),
            forall|j: int| 0 <= j < k ==> v@[at + j] == p@[j],
        decreases p.len() - k,
    {
        if v[at + k] != p[k] {
            assert(v@.subrange(at as int, at + p.len())[k as int] != p@[k as int]);
            return false;
        }
        k += 1;
    }
    assert(v@.subrange(at as int, at + p.len()) =~= p@);
    true
}

/// Whether `v` begins with `p`.
pub fn vec_starts_with(v: &Vec<char>, p: &Vec<char>) -> (r: bool)
    ensures
        r == starts_with(v@, p@),
{
    matches_at(v, 0, p)
}

/// Whether `v[..len]` ends with `p`.
pub fn prefix_ends_with(v: &Vec<char>, len: usize, p: &Vec<char>) -> (r: bool)
    requires
        len <= v.len(),
    ensures
        r == ends_with(v@.subrange(0, len as int), p@),
{
    if p.len() > len {
        return false;
    }
    let r = matches_at(v, len - p.len(), p);
    proof {
        let s = v@.subrange(0, len as int);
        assert(s.subrange(s.len() - p.len(), s.len() as int) =~= v@.subrange(
            len - p.len(),
            len as int,
        ));
    }
    r
}

/// Whether `p` occurs somewhere in `v`.
pub fn vec_contains(v: &Vec<char>, p: &Vec<char>) -> (r: bool)
    ensures
        r == contains_seq(v@, p@),
{
    if p.len() > v.len() {
        assert forall|i: int| !occurs_at(v@, p@, i) by {}
        return false;
    }
    let last: usize = v.len() - p.len();
    let mut i: usize = 0;
    while i < last
        invariant
            i <= last,
            last == v.len() - p.len(),
            forall|j: int| 0 <= j < i ==> !occurs_at(v@, p@, j),
        decreases last - i,
    {
        if matches_at(v, i, p) {
            return true;
        }
        i += 1;
    }
    let r = matches_at(v, last, p);
    if !r {
        assert forall|j: int| !occurs_at(v@, p@, j) by {}
    }
    r
}

/// `v` without its whitespace characters.
pub fn remove_whitespace(v: &Vec<char>) -> (w: Vec<char>)
    ensures
        w@ == without_whitespace(v@),
{
    let mut w: Vec<char> = Vec::new();
    let mut i: usize = 0;
    assert(v@.take(0) =~= Seq::empty());
    while i < v.len()
        invariant
            i <= v.len(),
            w@ == without_whitespace(v@.take(i as int)),
        decreases v.len() - i,
    {
        assert(v@.take(i + 1).drop_last() =~= v@.take(i as int));
        if !is_whitespace(v[i]) {
            w.push(v[i]);
        }
        i += 1;
    }
    assert(v@.take(v.len() as int) =~= v@);
    w
}

/// The position of the first `c` in `v`.
pub fn find_char(v: &Vec<char>, c: char) -> (r: Option<usize>)
    ensures
        match r {
            Some(i) => first_index(v@, c) == Some(i as int),
            None => first_index(v@, c) is None,
        },
{
    let mut i: usize = 0;
    while i < v.len()
        invariant
            i <= v.len(),
            forall|j: int| 0 <= j < i ==> v@[j] != c,
        decreases v.len() - i,
    {
        if v[i] == c {
            proof {
                lemma_first_index_is(v@, c, i as int);
            }
            return Some(i);
        }
        i += 1;
    }
    proof {
        lemma_first_index_none(v@, c);
    }
    None
}

/// Whether `a` comes strictly before `b` in lexicographic order.
pub fn str_lt(a: &Vec<char>, b: &Vec<char>) -> (r: bool)
    ensures
        r == lex_lt(a@, b@),
{
    let mut k: usize = 0;
    while k < a.len() && k < b.len()
        invariant
            k <= a.len(),
            k <= b.len(),
            lex_lt(a@, b@) == lex_lt_from(a@, b@, k as int),
        decreases a.len() - k,
    {
        if a[k] != b[k] {
            return a[k] < b[k];
        }
        k += 1;
    }
    k < b.len()
}

} // verus!
