//! DOI recognition and normalization.

use crate::extract::captures::{find_captures, regex_captures};
use crate::extract::provenance::Provenance;
use crate::text::{
    ascii_lower, ascii_lower_char, chars_of, find_char, first_index, is_ascii_seq,
    lemma_ascii_lower_props, lower, lowercase, same_chars, starts_with, string_of_range,
    to_ascii_lower, vec_starts_with,
};
use vstd::hash_set::StringHashSet;
use vstd::prelude::*;

verus! {

/// The pattern that recognizes a DOI in free text: an optional `doi:` or
/// resolver-URL lead, then `10.`, four or more digits, a slash and a tail
/// without whitespace or closing punctuation. Group 1 is the DOI itself.
pub const DOI_PATTERN: &'static str =
    r#"(?i)(?:doi[:\s]*|(?:https?://)?(?:dx\.)?doi\.org/)?(10\.\d{4,}/[^\s\]\)>,;"']+)"#;

/// A matched DOI: its normalized form, the substring that produced it, and
/// its provenance.
#[derive(Debug, Clone, PartialEq)]
pub struct DoiMatch {
    /// Normalized DOI (decoded, trimmed, lowercase).
    pub doi: String,
    /// The matched substring as it stood in the text.
    pub raw: String,
    /// How the DOI was obtained.
    pub provenance: Provenance,
}

/// The mathematical value of a [`DoiMatch`].
pub struct DoiMatchView {
    pub doi: Seq<char>,
    pub raw: Seq<char>,
    pub provenance: Provenance,
}

impl DeepView for DoiMatch {
    type V = DoiMatchView;

    open spec fn deep_view(&self) -> DoiMatchView {
        DoiMatchView { doi: self.doi@, raw: self.raw@, provenance: self.provenance }
    }
}

impl View for DoiMatch {
    type V = DoiMatchView;

    open spec fn view(&self) -> DoiMatchView {
        self.deep_view()
    }
}

impl DoiMatch {
    /// A match with the given parts.
    pub fn new(doi: String, raw: String, provenance: Provenance) -> (m: Self)
        ensures
            m.doi == doi,
            m.raw == raw,
            m.provenance == provenance,
    {
        Self { doi, raw, provenance }
    }

    /// A match mined from text.
    pub fn mined(doi: String, raw: String) -> (m: Self)
        ensures
            m.doi == doi,
            m.raw == raw,
            m.provenance == Provenance::Mined,
    {
        Self::new(doi, raw, Provenance::Mined)
    }
}

// ---------------------------------------------------------------------------
// Normalization: the model
// ---------------------------------------------------------------------------

/// The character that the three characters at `s[i..i + 3]` stand for, when
/// they are one of the percent-escapes `%2F %3A %28 %29 %3C %3E` in either case.
pub open spec fn escape_at(s: Seq<char>, i: int) -> Option<char> {
    if 0 <= i && i + 3 <= s.len() && s[i] == '%' {
        let a = s[i + 1];
        let b = s[i + 2];
        if a == '2' && (b == 'F' || b == 'f') {
            Some('/')
        } else if a == '3' && (b == 'A' || b == 'a') {
            Some(':')
        } else if a == '2' && b == '8' {
            Some('(')
        } else if a == '2' && b == '9' {
            Some(')')
        } else if a == '3' && (b == 'C' || b == 'c') {
            Some('<')
        } else if a == '3' && (b == 'E' || b == 'e') {
            Some('>')
        } else {
            None
        }
    } else {
        None
    }
}

/// `s[i..]` with every recognized percent-escape replaced by its character,
/// read from left to right.
pub open spec fn percent_decode_from(s: Seq<char>, i: int) -> Seq<char>
    decreases s.len() - i,
{
    if i < 0 || i >= s.len() {
        Seq::empty()
    } else {
        match escape_at(s, i) {
            Some(c) => seq![c] + percent_decode_from(s, i + 3),
            None => seq![s[i]] + percent_decode_from(s, i + 1),
        }
    }
}

/// `s` with every recognized percent-escape replaced by its character.
pub open spec fn percent_decode(s: Seq<char>) -> Seq<char> {
    percent_decode_from(s, 0)
}

/// The punctuation that is trimmed from the end of a captured DOI.
pub open spec fn is_trailing_punct(c: char) -> bool {
    c == '.' || c == ',' || c == ';' || c == ':' || c == ')' || c == ']' || c == '>' || c == '"'
        || c == '\'' || c == ' '
}

/// `s` ends with the entity `e`, given in small letters, whatever the case
/// of the letters at the end of `s`.
pub open spec fn ends_with_entity(s: Seq<char>, e: Seq<char>) -> bool {
    e.len() <= s.len() && ascii_lower(s.subrange(s.len() - e.len(), s.len() as int)) == e
}

/// The length of the entity that `s` ends with, one of `&gt`, `&lt`, `&amp`
/// and `&quot` in any case; 0 when it ends with none.
pub open spec fn entity_tail(s: Seq<char>) -> nat {
    if ends_with_entity(s, "&gt"@) {
        "&gt"@.len()
    } else if ends_with_entity(s, "&lt"@) {
        "&lt"@.len()
    } else if ends_with_entity(s, "&amp"@) {
        "&amp"@.len()
    } else if ends_with_entity(s, "&quot"@) {
        "&quot"@.len()
    } else {
        0
    }
}

/// `s` ends with something that is trimmed: a punctuation character or an
/// entity.
pub open spec fn has_trimmable_tail(s: Seq<char>) -> bool {
    (s.len() > 0 && is_trailing_punct(s.last())) || 0 < entity_tail(s) <= s.len()
}

/// `s` without its trimmable tail: trailing punctuation and trailing
/// entities are removed until `s` ends with neither.
pub open spec fn trim_tail(s: Seq<char>) -> Seq<char>
    decreases s.len(),
{
    if s.len() > 0 && is_trailing_punct(s.last()) {
        trim_tail(s.drop_last())
    } else if 0 < entity_tail(s) <= s.len() {
        trim_tail(s.subrange(0, s.len() - entity_tail(s)))
    } else {
        s
    }
}

/// The captured DOI `d` with its percent-escapes decoded and its tail
/// trimmed, in the case in which it was written.
pub open spec fn trimmed_doi(d: Seq<char>) -> Seq<char> {
    trim_tail(percent_decode(d))
}

/// `n` is in normal form: it holds no percent-escape to decode, has no tail
/// to trim, and is its own lowercase form.
pub open spec fn is_normal_doi(n: Seq<char>) -> bool {
    percent_decode(n) == n && trim_tail(n) == n && lower(n) == n
}

/// The normalized form of a captured DOI: percent-escapes decoded, trailing
/// punctuation and entities trimmed until none is left, then lowercased.
/// The lowercase form is taken when it is in normal form, which it always is
/// for ASCII text (see [`lemma_normalize_doi_ascii`]). Text with other
/// characters is lowercased by the standard library; should that ever give
/// a form that is not normal, the trimmed form is kept in its own case, so
/// that the result is in every case left unchanged by a second pass.
pub open spec fn normalize_doi_spec(d: Seq<char>) -> Seq<char> {
    let folded = lower(trimmed_doi(d));
    if is_normal_doi(folded) {
        folded
    } else {
        trimmed_doi(d)
    }
}

/// The registrant prefix of a DOI: the lowercased text before the first
/// slash, when there is a slash and that text begins with `10.`.
pub open spec fn doi_prefix_spec(d: Seq<char>) -> Option<Seq<char>> {
    match first_index(d, '/') {
        Some(i) => if starts_with(d.subrange(0, i), "10."@) {
            Some(lower(d.subrange(0, i)))
        } else {
            None
        },
        None => None,
    }
}

// ---------------------------------------------------------------------------
// Normalization: the code
// ---------------------------------------------------------------------------

fn escape(v: &Vec<char>, i: usize) -> (r: Option<char>)
    requires
        i < v.len(),
    ensures
        r == escape_at(v@, i as int),
{
    if v.len() - i < 3 || v[i] != '%' {
        return None;
    }
    let a = v[i + 1];
    let b = v[i + 2];
    if a == '2' && (b == 'F' || b == 'f') {
        Some('/')
    } else if a == '3' && (b == 'A' || b == 'a') {
        Some(':')
    } else if a == '2' && b == '8' {
        Some('(')
    } else if a == '2' && b == '9' {
        Some(')')
    } else if a == '3' && (b == 'C' || b == 'c') {
        Some('<')
    } else if a == '3' && (b == 'E' || b == 'e') {
        Some('>')
    } else {
        None
    }
}

fn decode_escapes(v: &Vec<char>) -> (out: Vec<char>)
    ensures
        out@ == percent_decode(v@),
{
    let mut out: Vec<char> = Vec::new();
    let mut i: usize = 0;
    while i < v.len()
        invariant
            i <= v.len(),
            out@ + percent_decode_from(v@, i as int) == percent_decode(v@),
        decreases v.len() - i,
    {
        let ghost before = out@;
        match escape(v, i) {
            Some(c) => {
                out.push(c);
                assert(out@ + percent_decode_from(v@, i + 3) =~= before + percent_decode_from(
                    v@,
                    i as int,
                ));
                i += 3;
            },
            None => {
                out.push(v[i]);
                assert(out@ + percent_decode_from(v@, i + 1) =~= before + percent_decode_from(
                    v@,
                    i as int,
                ));
                i += 1;
            },
        }
    }
    assert(out@ + percent_decode_from(v@, i as int) =~= out@);
    out
}

fn is_punct(c: char) -> (r: bool)
    ensures
        r == is_trailing_punct(c),
{
    c == '.' || c == ',' || c == ';' || c == ':' || c == ')' || c == ']' || c == '>' || c == '"'
        || c == '\'' || c == ' '
}

/// Whether `v[..len]` ends with the entity `e`, whatever the case.
fn ends_with_entity_at(v: &Vec<char>, len: usize, e: &Vec<char>) -> (r: bool)
    requires
        len <= v.len(),
    ensures
        r == ends_with_entity(v@.subrange(0, len as int), e@),
{
    if e.len() > len {
        return false;
    }
    let start = len - e.len();
    let ghost s = v@.subrange(0, len as int);
    let ghost tail = s.subrange(s.len() - e.len(), s.len() as int);
    let mut k: usize = 0;
    while k < e.len()
        invariant
            k <= e.len(),
            start + e.len() == len,
            len <= v.len(),
            s == v@.subrange(0, len as int),
            tail == s.subrange(s.len() - e.len(), s.len() as int),
            forall|j: int| 0 <= j < k ==> ascii_lower_char(v@[start + j]) == e@[j],
        decreases e.len() - k,
    {
        if to_ascii_lower(v[start + k]) != e[k] {
            assert(ascii_lower(tail)[k as int] == ascii_lower_char(v@[start + k]));
            return false;
        }
        k += 1;
    }
    assert(ascii_lower(tail) =~= e@);
    true
}

/// The length of the entity that `v[..len]` ends with, 0 when there is none.
fn entity_tail_len(v: &Vec<char>, len: usize) -> (r: usize)
    requires
        len <= v.len(),
    ensures
        r == entity_tail(v@.subrange(0, len as int)),
        r <= len,
{
    let gt = chars_of("&gt");
    let lt = chars_of("&lt");
    let amp = chars_of("&amp");
    let quot = chars_of("&quot");
    if ends_with_entity_at(v, len, &gt) {
        gt.len()
    } else if ends_with_entity_at(v, len, &lt) {
        lt.len()
    } else if ends_with_entity_at(v, len, &amp) {
        amp.len()
    } else if ends_with_entity_at(v, len, &quot) {
        quot.len()
    } else {
        0
    }
}

/// The length of `v` without its trimmable tail.
fn trimmed_len(v: &Vec<char>) -> (r: usize)
    ensures
        r <= v.len(),
        v@.subrange(0, r as int) == trim_tail(v@),
{
    let mut len: usize = v.len();
    assert(v@.subrange(0, len as int) =~= v@);
    loop
        invariant
            len <= v.len(),
            trim_tail(v@.subrange(0, len as int)) == trim_tail(v@),
        ensures
            len <= v.len(),
            v@.subrange(0, len as int) == trim_tail(v@),
        decreases len,
    {
        let ghost s = v@.subrange(0, len as int);
        if len > 0 && is_punct(v[len - 1]) {
            assert(s.drop_last() =~= v@.subrange(0, len - 1));
            len -= 1;
        } else {
            let k = entity_tail_len(v, len);
            if k > 0 {
                assert(s.subrange(0, s.len() - k) =~= v@.subrange(0, len - k));
                len -= k;
            } else {
                break ;
            }
        }
    }
    len
}

/// Whether the text is in normal form.
fn check_normal(n: &str) -> (r: bool)
    ensures
        r == is_normal_doi(n@),
{
    let v = chars_of(n);
    let dec = decode_escapes(&v);
    let len = trimmed_len(&v);
    let again = lowercase(n);
    let w = chars_of(again.as_str());
    proof {
        if len == v.len() {
            assert(v@.subrange(0, len as int) =~= v@);
        }
    }
    same_chars(&dec, &v) && len == v.len() && same_chars(&w, &v)
}

/// Cleans a captured DOI: decodes the percent-escapes `%2F %3A %28 %29 %3C
/// %3E` (in either case), trims trailing punctuation and trailing `&gt`,
/// `&lt`, `&amp`, `&quot` (in any case) until none is left, and lowercases
/// the result. Normalizing the result again changes nothing.
pub fn normalize_doi(doi: &str) -> (r: String)
    ensures
        r@ == normalize_doi_spec(doi@),
        normalize_doi_spec(r@) == r@,
{
    let v = chars_of(doi);
    let dec = decode_escapes(&v);
    let len = trimmed_len(&dec);
    let trimmed = string_of_range(&dec, 0, len);
    proof {
        lemma_normalize_doi_idempotent(doi@);
    }
    if trimmed.as_str().is_ascii() {
        proof {
            lemma_trimmed_doi(doi@);
            lemma_ascii_fold_is_normal(trimmed@);
        }
        lowercase(trimmed.as_str())
    } else {
        let folded = lowercase(trimmed.as_str());
        if check_normal(folded.as_str()) {
            folded
        } else {
            trimmed
        }
    }
}

/// The registrant prefix of a DOI (such as `10.1234`), lowercased; `None`
/// when the DOI has no slash or does not begin with `10.`.
pub fn doi_prefix(doi: &str) -> (r: Option<String>)
    ensures
        r.deep_view() == doi_prefix_spec(doi@),
{
    let v = chars_of(doi);
    match find_char(&v, '/') {
        Some(i) => {
            let head = string_of_range(&v, 0, i);
            let head_chars = chars_of(head.as_str());
            let lead = chars_of("10.");
            if vec_starts_with(&head_chars, &lead) {
                Some(lowercase(head.as_str()))
            } else {
                None
            }
        },
        None => None,
    }
}


// ---------------------------------------------------------------------------
// Idempotence of normalization
// ---------------------------------------------------------------------------

/// No recognized percent-escape stands anywhere in `t`.
pub open spec fn no_escape(t: Seq<char>) -> bool {
    forall|i: int| escape_at(t, i) is None
}

proof fn lemma_escape_shift(c: char, r: Seq<char>, k: int)
    requires
        k >= 1,
    ensures
        escape_at(seq![c] + r, k) == escape_at(r, k - 1),
{
    let t = seq![c] + r;
    if k + 3 <= t.len() {
        assert(t[k] == r[k - 1]);
        assert(t[k + 1] == r[k]);
        assert(t[k + 2] == r[k + 1]);
    }
}

/// Decoding leaves no escape behind, and keeps ASCII text ASCII.
proof fn lemma_decode_no_escape(s: Seq<char>, i: int)
    requires
        0 <= i,
    ensures
        no_escape(percent_decode_from(s, i)),
        is_ascii_seq(s) ==> is_ascii_seq(percent_decode_from(s, i)),
    decreases s.len() - i,
{
    let r = percent_decode_from(s, i);
    if i < s.len() {
        match escape_at(s, i) {
            Some(c) => {
                let r3 = percent_decode_from(s, i + 3);
                lemma_decode_no_escape(s, i + 3);
                assert(r == seq![c] + r3);
                assert forall|k: int| escape_at(r, k) is None by {
                    if k >= 1 {
                        lemma_escape_shift(c, r3, k);
                    }
                }
            },
            None => {
                let r1 = percent_decode_from(s, i + 1);
                lemma_decode_no_escape(s, i + 1);
                assert(r == seq![s[i]] + r1);
                assert forall|k: int| escape_at(r, k) is None by {
                    if k >= 1 {
                        lemma_escape_shift(s[i], r1, k);
                    } else if k == 0 && r.len() >= 3 && s[i] == '%' {
                        assert(r[1] == r1[0]);
                        assert(r[2] == r1[1]);
                        if escape_at(s, i + 1) is None {
                            let r2 = percent_decode_from(s, i + 2);
                            assert(r1 == seq![s[i + 1]] + r2);
                            assert(r1[1] == r2[0]);
                            assert(i + 2 < s.len());
                            if escape_at(s, i + 2) is None {
                                assert(r2 == seq![s[i + 2]] + percent_decode_from(s, i + 3));
                            }
                        }
                    }
                }
            },
        }
    }
}

/// Text without an escape decodes to itself.
proof fn lemma_decode_fixed(t: Seq<char>, i: int)
    requires
        0 <= i <= t.len(),
        no_escape(t),
    ensures
        percent_decode_from(t, i) == t.subrange(i, t.len() as int),
    decreases t.len() - i,
{
    if i < t.len() {
        assert(escape_at(t, i) is None);
        lemma_decode_fixed(t, i + 1);
        assert(seq![t[i]] + t.subrange(i + 1, t.len() as int) =~= t.subrange(i, t.len() as int));
    } else {
        assert(t.subrange(i, t.len() as int) =~= Seq::empty());
    }
}

/// Trimming gives a prefix that has no trimmable tail.
pub proof fn lemma_trim_tail(s: Seq<char>)
    ensures
        trim_tail(s).len() <= s.len(),
        trim_tail(s) == s.subrange(0, trim_tail(s).len() as int),
        !has_trimmable_tail(trim_tail(s)),
        trim_tail(trim_tail(s)) == trim_tail(s),
    decreases s.len(),
{
    if s.len() > 0 && is_trailing_punct(s.last()) {
        lemma_trim_tail(s.drop_last());
        let t = trim_tail(s.drop_last());
        assert(t =~= s.subrange(0, t.len() as int));
    } else if 0 < entity_tail(s) <= s.len() {
        let shorter = s.subrange(0, s.len() - entity_tail(s));
        lemma_trim_tail(shorter);
        let t = trim_tail(shorter);
        assert(t =~= s.subrange(0, t.len() as int));
    } else {
        assert(s =~= s.subrange(0, s.len() as int));
    }
}

/// A prefix of text without an escape has no escape.
proof fn lemma_prefix_no_escape(s: Seq<char>, len: int)
    requires
        0 <= len <= s.len(),
        no_escape(s),
    ensures
        no_escape(s.subrange(0, len)),
{
    let p = s.subrange(0, len);
    assert forall|i: int| escape_at(p, i) is None by {
        assert(escape_at(s, i) is None);
        if 0 <= i && i + 3 <= p.len() {
            assert(p[i] == s[i]);
            assert(p[i + 1] == s[i + 1]);
            assert(p[i + 2] == s[i + 2]);
        }
    }
}

/// ASCII lowercasing brings no escape into text that has none.
proof fn lemma_lower_no_escape(x: Seq<char>)
    requires
        no_escape(x),
    ensures
        no_escape(ascii_lower(x)),
{
    let y = ascii_lower(x);
    assert forall|i: int| escape_at(y, i) is None by {
        assert(escape_at(x, i) is None);
    }
}

/// The trimmed form of a captured DOI holds no escape and has no trimmable
/// tail; decoding and trimming it again change nothing.
pub proof fn lemma_trimmed_doi(d: Seq<char>)
    ensures
        no_escape(trimmed_doi(d)),
        percent_decode(trimmed_doi(d)) == trimmed_doi(d),
        trim_tail(trimmed_doi(d)) == trimmed_doi(d),
        trimmed_doi(trimmed_doi(d)) == trimmed_doi(d),
        is_ascii_seq(d) ==> is_ascii_seq(trimmed_doi(d)),
{
    let dec = percent_decode(d);
    let x = trimmed_doi(d);
    lemma_decode_no_escape(d, 0);
    lemma_trim_tail(dec);
    lemma_prefix_no_escape(dec, x.len() as int);
    lemma_decode_fixed(x, 0);
    assert(x.subrange(0, x.len() as int) =~= x);
}

/// The lowercase form of ASCII text that holds no escape and has no
/// trimmable tail is in normal form.
pub proof fn lemma_ascii_fold_is_normal(x: Seq<char>)
    requires
        is_ascii_seq(x),
        no_escape(x),
        trim_tail(x) == x,
    ensures
        lower(x) == ascii_lower(x),
        is_normal_doi(lower(x)),
{
    reveal_strlit("&gt");
    reveal_strlit("&lt");
    reveal_strlit("&amp");
    reveal_strlit("&quot");
    let n = ascii_lower(x);
    lemma_ascii_lower_props(x);
    lemma_ascii_lower_props(n);
    lemma_lower_no_escape(x);
    lemma_decode_fixed(n, 0);
    assert(n.subrange(0, n.len() as int) =~= n);
    lemma_trim_tail(x);
    assert(!has_trimmable_tail(x));
    assert forall|k: int| 0 <= k <= n.len() implies ascii_lower(
        #[trigger] n.subrange(n.len() - k, n.len() as int),
    ) == ascii_lower(x.subrange(x.len() - k, x.len() as int)) by {
        assert(ascii_lower(n.subrange(n.len() - k, n.len() as int)) =~= ascii_lower(
            x.subrange(x.len() - k, x.len() as int),
        ));
    }
    assert(ends_with_entity(n, "&gt"@) == ends_with_entity(x, "&gt"@)) by {
        if 3 <= n.len() {
            assert(n.subrange(n.len() - 3, n.len() as int).len() == 3);
        }
    }
    assert(ends_with_entity(n, "&lt"@) == ends_with_entity(x, "&lt"@)) by {
        if 3 <= n.len() {
            assert(n.subrange(n.len() - 3, n.len() as int).len() == 3);
        }
    }
    assert(ends_with_entity(n, "&amp"@) == ends_with_entity(x, "&amp"@)) by {
        if 4 <= n.len() {
            assert(n.subrange(n.len() - 4, n.len() as int).len() == 4);
        }
    }
    assert(ends_with_entity(n, "&quot"@) == ends_with_entity(x, "&quot"@)) by {
        if 5 <= n.len() {
            assert(n.subrange(n.len() - 5, n.len() as int).len() == 5);
        }
    }
    assert(entity_tail(n) == entity_tail(x));
    assert(!has_trimmable_tail(n));
}

/// For ASCII text the normalized form is the lowercase form of the trimmed
/// form: each ASCII capital replaced by its small letter.
pub proof fn lemma_normalize_doi_ascii(d: Seq<char>)
    requires
        is_ascii_seq(d),
    ensures
        normalize_doi_spec(d) == ascii_lower(trimmed_doi(d)),
{
    lemma_trimmed_doi(d);
    lemma_ascii_fold_is_normal(trimmed_doi(d));
}

/// Normalizing a DOI twice gives what normalizing it once gives, for every
/// text.
pub proof fn lemma_normalize_doi_idempotent(d: Seq<char>)
    ensures
        normalize_doi_spec(normalize_doi_spec(d)) == normalize_doi_spec(d),
{
    let x = trimmed_doi(d);
    let n = lower(x);
    lemma_trimmed_doi(d);
    if is_normal_doi(n) {
        assert(trimmed_doi(n) == n);
    } else {
        assert(trimmed_doi(x) == x);
    }
}

// ---------------------------------------------------------------------------
// Extraction
// ---------------------------------------------------------------------------

/// The texts of capture group 1, in order, of the captures that have one.
pub open spec fn first_groups(caps: Seq<(Option<Seq<char>>, Option<Seq<char>>)>) -> Seq<Seq<char>>
    decreases caps.len(),
{
    if caps.len() == 0 {
        Seq::empty()
    } else {
        let rest = first_groups(caps.drop_last());
        match caps.last().0 {
            Some(raw) => rest.push(raw),
            None => rest,
        }
    }
}

/// Some match in `ms` has the normalized DOI `d`.
pub open spec fn has_doi(ms: Seq<DoiMatchView>, d: Seq<char>) -> bool {
    exists|i: int| 0 <= i < ms.len() && #[trigger] ms[i].doi == d
}

/// The mined matches that the captured substrings `raws` give: each is
/// normalized, and a substring whose normalized form was seen before is
/// dropped, so the matches stand in first-seen order.
pub open spec fn mined_matches(raws: Seq<Seq<char>>) -> Seq<DoiMatchView>
    decreases raws.len(),
{
    if raws.len() == 0 {
        Seq::empty()
    } else {
        let before = mined_matches(raws.drop_last());
        let raw = raws.last();
        let doi = normalize_doi_spec(raw);
        if has_doi(before, doi) {
            before
        } else {
            before.push(DoiMatchView { doi, raw, provenance: Provenance::Mined })
        }
    }
}

/// What [`extract_doi_matches_from_text`] returns for `text`.
pub open spec fn doi_matches_in(text: Seq<char>) -> Seq<DoiMatchView> {
    match regex_captures(DOI_PATTERN@, text) {
        Some(caps) => mined_matches(first_groups(caps)),
        None => Seq::empty(),
    }
}

/// The first capture group of each capture that has one.
pub fn collect_first_groups(caps: &Vec<(Option<String>, Option<String>)>) -> (raws: Vec<String>)
    ensures
        raws.deep_view() == first_groups(caps.deep_view()),
{
    let mut raws: Vec<String> = Vec::new();
    let mut i: usize = 0;
    assert(caps.deep_view().take(0) =~= Seq::empty());
    while i < caps.len()
        invariant
            i <= caps.len(),
            raws.deep_view() == first_groups(caps.deep_view().take(i as int)),
        decreases caps.len() - i,
    {
        let ghost before = raws.deep_view();
        assert(caps.deep_view().take(i + 1).drop_last() =~= caps.deep_view().take(i as int));
        assert(caps.deep_view().take(i + 1).last() == caps@[i as int].deep_view());
        match &caps[i].0 {
            Some(raw) => {
                raws.push(raw.clone());
                assert(raws.deep_view() =~= before.push(raw@));
            },
            None => {},
        }
        i += 1;
    }
    assert(caps.deep_view().take(caps.len() as int) =~= caps.deep_view());
    raws
}

/// Turns captured substrings into mined matches, deduplicated by normalized
/// DOI in first-seen order.
pub fn mined_doi_matches(raws: &Vec<String>) -> (matches: Vec<DoiMatch>)
    ensures
        matches.deep_view() == mined_matches(raws.deep_view()),
{
    let mut seen = StringHashSet::new();
    let mut matches: Vec<DoiMatch> = Vec::new();
    let mut i: usize = 0;
    assert(raws.deep_view().take(0) =~= Seq::empty());
    assert(matches.deep_view() =~= Seq::empty());
    while i < raws.len()
        invariant
            i <= raws.len(),
            matches.deep_view() == mined_matches(raws.deep_view().take(i as int)),
            forall|d: Seq<char>| seen@.contains(d) <==> has_doi(matches.deep_view(), d),
        decreases raws.len() - i,
    {
        let ghost before = matches.deep_view();
        assert(raws.deep_view().take(i + 1).drop_last() =~= raws.deep_view().take(i as int));
        assert(raws.deep_view().take(i + 1).last() == raws@[i as int]@);
        let normalized = normalize_doi(raws[i].as_str());
        if !seen.contains(normalized.as_str()) {
            seen.insert(normalized.clone());
            let m = DoiMatch::mined(normalized, raws[i].clone());
            matches.push(m);
            let ghost mv = m.deep_view();
            assert(matches.deep_view() =~= before.push(mv));
            assert forall|d: Seq<char>| seen@.contains(d) <==> has_doi(
                matches.deep_view(),
                d,
            ) by {
                if has_doi(before, d) {
                    let k = choose|k: int| 0 <= k < before.len() && #[trigger] before[k].doi == d;
                    assert(matches.deep_view()[k].doi == d);
                }
                if d == mv.doi {
                    assert(matches.deep_view()[before.len() as int].doi == d);
                }
            }
        }
        i += 1;
    }
    assert(raws.deep_view().take(raws.len() as int) =~= raws.deep_view());
    matches
}

/// The DOIs that occur in `text`, each with the substring that produced it,
/// deduplicated by normalized form in first-seen order. Never fails: text
/// without a DOI gives an empty list.
pub fn extract_doi_matches_from_text(text: &str) -> (matches: Vec<DoiMatch>)
    ensures
        matches.deep_view() == doi_matches_in(text@),
{
    match find_captures(DOI_PATTERN, text) {
        Some(caps) => {
            let raws = collect_first_groups(&caps);
            mined_doi_matches(&raws)
        },
        None => {
            let matches: Vec<DoiMatch> = Vec::new();
            assert(matches.deep_view() =~= Seq::empty());
            matches
        },
    }
}

} // verus!
