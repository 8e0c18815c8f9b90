//! arXiv identifier recognition and normalization.

use crate::common::types::{arxiv_doi_spec, ArxivMatch, ArxivMatchView};
use crate::extract::captures::{find_captures, regex_captures};
use crate::text::{
    ascii_lower, chars_of, is_ascii_seq, is_digit, is_digit_char, is_whitespace_char,
    lemma_ascii_lower_props, lower, lowercase, remove_whitespace, same_chars, string_of_range,
    without_whitespace,
};
use vstd::hash_set::StringHashSet;
use vstd::prelude::*;

verus! {

/// Modern identifiers, `YYMM.NNNN` with four to six digits after the dot and
/// an optional version, after the word `arxiv`. Group 1 is the whole match,
/// group 2 the identifier.
pub const ARXIV_MODERN_PATTERN: &'static str = r"(?i)(arxiv[.:\s]+(\d{4}\.\d{4,6}(?:v\d+)?))";

/// Old-style identifiers, `category/NNNNNNN` with an optional version, after
/// the word `arxiv`.
pub const ARXIV_OLD_FORMAT_PATTERN: &'static str =
    r"(?i)(arxiv[.:\s]+([a-z][a-z0-9.-]*/\s*\d{7}(?:v\d+)?))";

/// The DOI that the registry issues for an arXiv work.
pub const ARXIV_DOI_PATTERN: &'static str = r"(?i)(10\.48550/arxiv\.(\d{4}\.\d{4,6}(?:v\d+)?))";

/// The `arxiv.org/abs/` and `arxiv.org/pdf/` URL forms.
pub const ARXIV_URL_PATTERN: &'static str =
    r"(?i)(arxiv\.org/(?:abs|pdf)/(\d{4}\.\d{4,6}(?:v\d+)?|[a-z][a-z0-9.-]*/\d{7}(?:v\d+)?))";

// ---------------------------------------------------------------------------
// Normalization
// ---------------------------------------------------------------------------

/// The number of ASCII digits that `s` ends with.
pub open spec fn trailing_digits(s: Seq<char>) -> nat
    decreases s.len(),
{
    if s.len() > 0 && is_digit_char(s.last()) {
        1 + trailing_digits(s.drop_last())
    } else {
        0
    }
}

/// The letter that opens a version suffix, in either case.
pub open spec fn is_version_mark(c: char) -> bool {
    c == 'v' || c == 'V'
}

/// The length of the version suffix that `s` ends with: a `v` and the one
/// or more digits behind it; 0 when `s` ends with none.
pub open spec fn version_tail(s: Seq<char>) -> nat {
    let k = trailing_digits(s);
    if 1 <= k < s.len() && is_version_mark(s[s.len() - k - 1]) {
        k + 1
    } else {
        0
    }
}

/// `s` without the version suffixes at its end: a trailing `vN` with `N`
/// all digits is dropped until `s` ends with none.
pub open spec fn strip_versions(s: Seq<char>) -> Seq<char>
    decreases s.len(),
{
    if 0 < version_tail(s) <= s.len() {
        strip_versions(s.subrange(0, s.len() - version_tail(s)))
    } else {
        s
    }
}

/// The identifier `id` without whitespace and without version suffix, in
/// the case in which it was written.
pub open spec fn packed_id(id: Seq<char>) -> Seq<char> {
    strip_versions(without_whitespace(id))
}

/// `n` is in normal form: it holds no whitespace, ends with no version
/// suffix, and is its own lowercase form.
pub open spec fn is_normal_arxiv_id(n: Seq<char>) -> bool {
    without_whitespace(n) == n && strip_versions(n) == n && lower(n) == n
}

/// The normalized form of an arXiv identifier: whitespace removed, version
/// suffix dropped, lowercased. The lowercase form is taken when it is in
/// normal form, which it always is for ASCII text (see
/// [`lemma_normalize_arxiv_id_ascii`]). Text with other characters is
/// lowercased by the standard library; should that ever give a form that is
/// not normal, the packed form is kept in its own case, so that the result
/// is in every case left unchanged by a second pass.
pub open spec fn normalize_arxiv_id_spec(id: Seq<char>) -> Seq<char> {
    let folded = lower(packed_id(id));
    if is_normal_arxiv_id(folded) {
        folded
    } else {
        packed_id(id)
    }
}

/// The number of digits that `v[..len]` ends with.
fn trailing_digit_count(v: &Vec<char>, len: usize) -> (r: usize)
    requires
        len <= v.len(),
    ensures
        r == trailing_digits(v@.subrange(0, len as int)),
        r <= len,
{
    let mut k: usize = 0;
    assert(v@.subrange(0, len as int).subrange(0, len as int) =~= v@.subrange(0, len as int));
    while k < len && is_digit(v[len - 1 - k])
        invariant
            k <= len,
            len <= v.len(),
            trailing_digits(v@.subrange(0, len as int)) == k + trailing_digits(
                v@.subrange(0, len - k),
            ),
        decreases len - k,
    {
        assert(v@.subrange(0, len - k).drop_last() =~= v@.subrange(0, len - k - 1));
        k += 1;
    }
    k
}

/// The length of the version suffix that `v[..len]` ends with.
fn version_tail_len(v: &Vec<char>, len: usize) -> (r: usize)
    requires
        len <= v.len(),
    ensures
        r == version_tail(v@.subrange(0, len as int)),
        r <= len,
{
    let k = trailing_digit_count(v, len);
    if k >= 1 && k < len {
        let c = v[len - k - 1];
        if c == 'v' || c == 'V' {
            return k + 1;
        }
    }
    0
}

/// The length of `v` without the version suffixes at its end.
fn stripped_len(v: &Vec<char>) -> (r: usize)
    ensures
        r <= v.len(),
        v@.subrange(0, r as int) == strip_versions(v@),
{
    let mut len: usize = v.len();
    assert(v@.subrange(0, len as int) =~= v@);
    loop
        invariant
            len <= v.len(),
            strip_versions(v@.subrange(0, len as int)) == strip_versions(v@),
        ensures
            len <= v.len(),
            v@.subrange(0, len as int) == strip_versions(v@),
        decreases len,
    {
        let ghost s = v@.subrange(0, len as int);
        let k = version_tail_len(v, len);
        if k > 0 {
            assert(s.subrange(0, s.len() - k) =~= v@.subrange(0, len - k));
            len -= k;
        } else {
            break ;
        }
    }
    len
}

/// Whether the text is in normal form.
fn check_normal(n: &str) -> (r: bool)
    ensures
        r == is_normal_arxiv_id(n@),
{
    let v = chars_of(n);
    let w = remove_whitespace(&v);
    let len = stripped_len(&v);
    let again = lowercase(n);
    let x = chars_of(again.as_str());
    proof {
        if len == v.len() {
            assert(v@.subrange(0, len as int) =~= v@);
        }
    }
    same_chars(&w, &v) && len == v.len() && same_chars(&x, &v)
}

/// Normalizes an arXiv identifier: removes all whitespace inside it, drops
/// a trailing version `vN` when `N` is digits only, and lowercases it.
/// Normalizing the result again changes nothing.
pub fn normalize_arxiv_id(id: &str) -> (r: String)
    ensures
        r@ == normalize_arxiv_id_spec(id@),
        normalize_arxiv_id_spec(r@) == r@,
{
    let v = chars_of(id);
    let w = remove_whitespace(&v);
    let len = stripped_len(&w);
    let packed = string_of_range(&w, 0, len);
    proof {
        lemma_normalize_arxiv_id_idempotent(id@);
    }
    if packed.as_str().is_ascii() {
        proof {
            lemma_packed_id(id@);
            lemma_ascii_fold_is_normal(packed@);
        }
        lowercase(packed.as_str())
    } else {
        let folded = lowercase(packed.as_str());
        if check_normal(folded.as_str()) {
            folded
        } else {
            packed
        }
    }
}

/// No character of `s` is whitespace.
pub open spec fn no_whitespace(s: Seq<char>) -> bool {
    forall|i: int| 0 <= i < s.len() ==> !is_whitespace_char(#[trigger] s[i])
}

/// What is left when whitespace is removed holds no whitespace, and is ASCII
/// when the text was.
proof fn lemma_without_whitespace(s: Seq<char>)
    ensures
        no_whitespace(without_whitespace(s)),
        is_ascii_seq(s) ==> is_ascii_seq(without_whitespace(s)),
    decreases s.len(),
{
    if s.len() > 0 {
        lemma_without_whitespace(s.drop_last());
        if is_ascii_seq(s) {
            assert(is_ascii_seq(s.drop_last())) by {
                assert forall|i: int| 0 <= i < s.drop_last().len() implies '\0'
                    <= #[trigger] s.drop_last()[i] <= '\u{7f}' by {
                    assert(s.drop_last()[i] == s[i]);
                }
            }
            assert('\0' <= s[s.len() - 1] <= '\u{7f}');
        }
    }
}

/// Text without whitespace is unchanged when whitespace is removed.
proof fn lemma_without_whitespace_fixed(s: Seq<char>)
    requires
        no_whitespace(s),
    ensures
        without_whitespace(s) == s,
    decreases s.len(),
{
    if s.len() > 0 {
        assert(no_whitespace(s.drop_last())) by {
            assert forall|i: int| 0 <= i < s.drop_last().len() implies !is_whitespace_char(
                #[trigger] s.drop_last()[i],
            ) by {
                assert(s.drop_last()[i] == s[i]);
            }
        }
        lemma_without_whitespace_fixed(s.drop_last());
        assert(s.drop_last().push(s.last()) =~= s);
    }
}

/// Stripping gives a prefix that ends with no version suffix.
pub proof fn lemma_strip_versions(s: Seq<char>)
    ensures
        strip_versions(s).len() <= s.len(),
        strip_versions(s) == s.subrange(0, strip_versions(s).len() as int),
        version_tail(strip_versions(s)) == 0,
        strip_versions(strip_versions(s)) == strip_versions(s),
    decreases s.len(),
{
    lemma_version_tail_bound(s);
    if 0 < version_tail(s) <= s.len() {
        let shorter = s.subrange(0, s.len() - version_tail(s));
        lemma_strip_versions(shorter);
        let t = strip_versions(shorter);
        assert(t =~= s.subrange(0, t.len() as int));
    } else {
        assert(s =~= s.subrange(0, s.len() as int));
    }
}

/// A version suffix is no longer than the text.
proof fn lemma_version_tail_bound(s: Seq<char>)
    ensures
        version_tail(s) <= s.len(),
{
}

/// ASCII lowercasing leaves the digits at the end as they are.
proof fn lemma_trailing_digits_fold(s: Seq<char>)
    ensures
        trailing_digits(ascii_lower(s)) == trailing_digits(s),
    decreases s.len(),
{
    if s.len() > 0 {
        assert(ascii_lower(s).drop_last() =~= ascii_lower(s.drop_last()));
        lemma_trailing_digits_fold(s.drop_last());
    }
}

/// The packed form of an identifier holds no whitespace and ends with no
/// version suffix; packing it again changes nothing.
pub proof fn lemma_packed_id(id: Seq<char>)
    ensures
        no_whitespace(packed_id(id)),
        without_whitespace(packed_id(id)) == packed_id(id),
        strip_versions(packed_id(id)) == packed_id(id),
        packed_id(packed_id(id)) == packed_id(id),
        is_ascii_seq(id) ==> is_ascii_seq(packed_id(id)),
{
    let w = without_whitespace(id);
    let m = packed_id(id);
    lemma_without_whitespace(id);
    lemma_strip_versions(w);
    assert(no_whitespace(m)) by {
        assert forall|i: int| 0 <= i < m.len() implies !is_whitespace_char(#[trigger] m[i]) by {
            assert(m[i] == w[i]);
        }
    }
    lemma_without_whitespace_fixed(m);
    if is_ascii_seq(id) {
        assert forall|i: int| 0 <= i < m.len() implies '\0' <= #[trigger] m[i] <= '\u{7f}' by {
            assert(m[i] == w[i]);
        }
    }
}

/// The lowercase form of ASCII text that holds no whitespace and ends with
/// no version suffix is in normal form.
pub proof fn lemma_ascii_fold_is_normal(m: Seq<char>)
    requires
        is_ascii_seq(m),
        no_whitespace(m),
        strip_versions(m) == m,
    ensures
        lower(m) == ascii_lower(m),
        is_normal_arxiv_id(lower(m)),
{
    let n = ascii_lower(m);
    lemma_ascii_lower_props(m);
    lemma_ascii_lower_props(n);
    assert(no_whitespace(n));
    lemma_without_whitespace_fixed(n);
    lemma_strip_versions(m);
    lemma_trailing_digits_fold(m);
    assert(version_tail(n) == 0);
}

/// For ASCII text the normalized form is the lowercase form of the packed
/// form: each ASCII capital replaced by its small letter.
pub proof fn lemma_normalize_arxiv_id_ascii(id: Seq<char>)
    requires
        is_ascii_seq(id),
    ensures
        normalize_arxiv_id_spec(id) == ascii_lower(packed_id(id)),
{
    lemma_packed_id(id);
    lemma_ascii_fold_is_normal(packed_id(id));
}

/// Normalizing an arXiv identifier twice gives what normalizing it once
/// gives, for every text.
pub proof fn lemma_normalize_arxiv_id_idempotent(id: Seq<char>)
    ensures
        normalize_arxiv_id_spec(normalize_arxiv_id_spec(id)) == normalize_arxiv_id_spec(id),
{
    let m = packed_id(id);
    let n = lower(m);
    lemma_packed_id(id);
    if is_normal_arxiv_id(n) {
        assert(packed_id(n) == n);
    } else {
        assert(packed_id(m) == m);
    }
}

// ---------------------------------------------------------------------------
// Extraction
// ---------------------------------------------------------------------------

/// The (whole match, identifier) pairs of the captures that have both groups.
pub open spec fn capture_pairs(caps: Seq<(Option<Seq<char>>, Option<Seq<char>>)>) -> Seq<
    (Seq<char>, Seq<char>),
>
    decreases caps.len(),
{
    if caps.len() == 0 {
        Seq::empty()
    } else {
        let rest = capture_pairs(caps.drop_last());
        match caps.last() {
            (Some(raw), Some(id)) => rest.push((raw, id)),
            _ => rest,
        }
    }
}

/// The pairs that one pattern finds in `text`.
pub open spec fn pattern_pairs(pattern: Seq<char>, text: Seq<char>) -> Seq<(Seq<char>, Seq<char>)> {
    match regex_captures(pattern, text) {
        Some(caps) => capture_pairs(caps),
        None => Seq::empty(),
    }
}

/// The pairs that the four patterns find in `text`: modern form first, then
/// old style, DOI form and URL form, each in the order of the text.
pub open spec fn arxiv_candidates(text: Seq<char>) -> Seq<(Seq<char>, Seq<char>)> {
    pattern_pairs(ARXIV_MODERN_PATTERN@, text) + pattern_pairs(ARXIV_OLD_FORMAT_PATTERN@, text)
        + pattern_pairs(ARXIV_DOI_PATTERN@, text) + pattern_pairs(ARXIV_URL_PATTERN@, text)
}

/// Some match in `ms` has the normalized identifier `id`.
pub open spec fn has_arxiv_id(ms: Seq<ArxivMatchView>, id: Seq<char>) -> bool {
    exists|i: int| 0 <= i < ms.len() && #[trigger] ms[i].id == id
}

/// `ms` followed by the matches that the pairs give: each identifier is
/// normalized, and a pair whose normalized identifier is already present is
/// dropped.
pub open spec fn absorb_pairs(ms: Seq<ArxivMatchView>, pairs: Seq<(Seq<char>, Seq<char>)>) -> Seq<
    ArxivMatchView,
>
    decreases pairs.len(),
{
    if pairs.len() == 0 {
        ms
    } else {
        let before = absorb_pairs(ms, pairs.drop_last());
        let id = normalize_arxiv_id_spec(pairs.last().1);
        if has_arxiv_id(before, id) {
            before
        } else {
            before.push(
                ArxivMatchView { id, raw: pairs.last().0, arxiv_doi: arxiv_doi_spec(id) },
            )
        }
    }
}

/// The matches that the pairs give, deduplicated by normalized identifier in
/// first-seen order.
pub open spec fn arxiv_matches(pairs: Seq<(Seq<char>, Seq<char>)>) -> Seq<ArxivMatchView> {
    absorb_pairs(Seq::empty(), pairs)
}

/// What [`extract_arxiv_matches_from_text`] returns for `text`.
pub open spec fn arxiv_matches_in(text: Seq<char>) -> Seq<ArxivMatchView> {
    arxiv_matches(arxiv_candidates(text))
}

/// Absorbing a concatenation is absorbing its parts in turn.
pub proof fn lemma_absorb_pairs_concat(
    ms: Seq<ArxivMatchView>,
    a: Seq<(Seq<char>, Seq<char>)>,
    b: Seq<(Seq<char>, Seq<char>)>,
)
    ensures
        absorb_pairs(ms, a + b) == absorb_pairs(absorb_pairs(ms, a), b),
    decreases b.len(),
{
    if b.len() == 0 {
        assert(a + b =~= a);
    } else {
        assert((a + b).drop_last() =~= a + b.drop_last());
        assert((a + b).last() == b.last());
        lemma_absorb_pairs_concat(ms, a, b.drop_last());
    }
}

/// The pairs of the captures that have both groups.
pub fn collect_pairs(caps: &Vec<(Option<String>, Option<String>)>) -> (pairs: Vec<(String, String)>)
    ensures
        pairs.deep_view() == capture_pairs(caps.deep_view()),
{
    let mut pairs: Vec<(String, String)> = Vec::new();
    let mut i: usize = 0;
    assert(caps.deep_view().take(0) =~= Seq::empty());
    assert(pairs.deep_view() =~= Seq::empty());
    while i < caps.len()
        invariant
            i <= caps.len(),
            pairs.deep_view() == capture_pairs(caps.deep_view().take(i as int)),
        decreases caps.len() - i,
    {
        let ghost before = pairs.deep_view();
        assert(caps.deep_view().take(i + 1).drop_last() =~= caps.deep_view().take(i as int));
        assert(caps.deep_view().take(i + 1).last() == caps@[i as int].deep_view());
        match (&caps[i].0, &caps[i].1) {
            (Some(raw), Some(id)) => {
                pairs.push((raw.clone(), id.clone()));
                assert(pairs.deep_view() =~= before.push((raw@, id@)));
            },
            _ => {},
        }
        i += 1;
    }
    assert(caps.deep_view().take(caps.len() as int) =~= caps.deep_view());
    pairs
}

/// Adds to `matches` the matches of the pairs whose normalized identifier is
/// not yet present.
pub fn absorb_arxiv_pairs(matches: &mut Vec<ArxivMatch>, pairs: &Vec<(String, String)>)
    ensures
        final(matches).deep_view() == absorb_pairs(old(matches).deep_view(), pairs.deep_view()),
{
    let mut seen = StringHashSet::new();
    let mut k: usize = 0;
    while k < matches.len()
        invariant
            k <= matches.len(),
            *matches == *old(matches),
            forall|d: Seq<char>|
                seen@.contains(d) <==> has_arxiv_id(matches.deep_view().take(k as int), d),
        decreases matches.len() - k,
    {
        let ghost before = matches.deep_view().take(k as int);
        seen.insert(matches[k].id.clone());
        proof {
            let after = matches.deep_view().take(k + 1);
            assert(after =~= before.push(matches@[k as int].deep_view()));
            assert forall|d: Seq<char>| seen@.contains(d) <==> has_arxiv_id(after, d) by {
                if has_arxiv_id(before, d) {
                    let j = choose|j: int| 0 <= j < before.len() && #[trigger] before[j].id == d;
                    assert(after[j].id == d);
                }
                if d == matches@[k as int].id@ {
                    assert(after[k as int].id == d);
                }
            }
        }
        k += 1;
    }
    assert(matches.deep_view().take(matches.len() as int) =~= matches.deep_view());
    let mut i: usize = 0;
    assert(pairs.deep_view().take(0) =~= Seq::empty());
    while i < pairs.len()
        invariant
            i <= pairs.len(),
            matches.deep_view() == absorb_pairs(
                old(matches).deep_view(),
                pairs.deep_view().take(i as int),
            ),
            forall|d: Seq<char>| seen@.contains(d) <==> has_arxiv_id(matches.deep_view(), d),
        decreases pairs.len() - i,
    {
        let ghost before = matches.deep_view();
        assert(pairs.deep_view().take(i + 1).drop_last() =~= pairs.deep_view().take(i as int));
        assert(pairs.deep_view().take(i + 1).last() == pairs@[i as int].deep_view());
        let normalized = normalize_arxiv_id(pairs[i].1.as_str());
        if !seen.contains(normalized.as_str()) {
            seen.insert(normalized.clone());
            let m = ArxivMatch::new(normalized, pairs[i].0.clone());
            let ghost mv = m.deep_view();
            matches.push(m);
            assert(matches.deep_view() =~= before.push(mv));
            assert forall|d: Seq<char>| seen@.contains(d) <==> has_arxiv_id(
                matches.deep_view(),
                d,
            ) by {
                if has_arxiv_id(before, d) {
                    let j = choose|j: int| 0 <= j < before.len() && #[trigger] before[j].id == d;
                    assert(matches.deep_view()[j].id == d);
                }
                if d == mv.id {
                    assert(matches.deep_view()[before.len() as int].id == d);
                }
            }
        }
        i += 1;
    }
    assert(pairs.deep_view().take(pairs.len() as int) =~= pairs.deep_view());
}

/// The pairs that `pattern` finds in `text`.
fn find_pairs(pattern: &str, text: &str) -> (pairs: Vec<(String, String)>)
    ensures
        pairs.deep_view() == pattern_pairs(pattern@, text@),
{
    match find_captures(pattern, text) {
        Some(caps) => collect_pairs(&caps),
        None => {
            let pairs: Vec<(String, String)> = Vec::new();
            assert(pairs.deep_view() =~= Seq::empty());
            pairs
        },
    }
}

/// The arXiv identifiers that occur in `text`, found by the four patterns in
/// turn and deduplicated by normalized identifier in first-seen order. Never
/// fails: text without an identifier gives an empty list.
pub fn extract_arxiv_matches_from_text(text: &str) -> (matches: Vec<ArxivMatch>)
    ensures
        matches.deep_view() == arxiv_matches_in(text@),
{
    let mut matches: Vec<ArxivMatch> = Vec::new();
    assert(matches.deep_view() =~= Seq::empty());
    let modern = find_pairs(ARXIV_MODERN_PATTERN, text);
    absorb_arxiv_pairs(&mut matches, &modern);
    let old_style = find_pairs(ARXIV_OLD_FORMAT_PATTERN, text);
    absorb_arxiv_pairs(&mut matches, &old_style);
    let doi_form = find_pairs(ARXIV_DOI_PATTERN, text);
    absorb_arxiv_pairs(&mut matches, &doi_form);
    let url_form = find_pairs(ARXIV_URL_PATTERN, text);
    absorb_arxiv_pairs(&mut matches, &url_form);
    proof {
        let e = Seq::<ArxivMatchView>::empty();
        let a = modern.deep_view();
        let b = old_style.deep_view();
        let c = doi_form.deep_view();
        let d = url_form.deep_view();
        lemma_absorb_pairs_concat(e, a, b);
        lemma_absorb_pairs_concat(e, a + b, c);
        lemma_absorb_pairs_concat(e, a + b + c, d);
    }
    matches
}

} // verus!
