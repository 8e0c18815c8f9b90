use citation_extraction::extract::{doi_prefix, normalize_arxiv_id, normalize_doi};
use citation_extraction::streaming::partition_key;
use citation_extraction::text::{
    chars_of, joined, find_char, is_digit, is_whitespace, lowercase, str_eq, str_lt, string_of,
    to_ascii_lower, vec_contains, vec_starts_with,
};

/// A small deterministic generator of test strings over a given alphabet.
struct Words {
    state: u64,
    alphabet: Vec<char>,
}

impl Words {
    fn new(seed: u64, alphabet: &str) -> Self {
        Words { state: seed, alphabet: alphabet.chars().collect() }
    }

    fn step(&mut self) -> u64 {
        self.state = self.state.wrapping_mul(6364136223846793005).wrapping_add(1442695040888963407);
        self.state >> 33
    }

    fn word(&mut self, max_len: u64) -> String {
        let len = self.step() % (max_len + 1);
        let mut s = String::new();
        for _ in 0..len {
            let i = (self.step() % self.alphabet.len() as u64) as usize;
            s.push(self.alphabet[i]);
        }
        s
    }
}

fn decoded_by_replacing(doi: &str) -> String {
    doi
        .replace("%2F", "/")
        .replace("%2f", "/")
        .replace("%3A", ":")
        .replace("%3a", ":")
        .replace("%28", "(")
        .replace("%29", ")")
        .replace("%3C", "<")
        .replace("%3c", "<")
        .replace("%3E", ">")
        .replace("%3e", ">")
}

fn trimmed_by_std(text: &str) -> String {
    let mut result = text.to_string();
    let trailing: &[char] = &['.', ',', ';', ':', ')', ']', '>', '"', '\'', ' '];
    loop {
        if result.ends_with(trailing) {
            result.pop();
            continue;
        }
        let tail = result.to_ascii_lowercase();
        match ["&gt", "&lt", "&amp", "&quot"].iter().find(|e| tail.ends_with(*e)) {
            Some(entity) => result.truncate(result.len() - entity.len()),
            None => return result,
        }
    }
}

fn normalize_doi_by_replacing(doi: &str) -> String {
    let trimmed = trimmed_by_std(&decoded_by_replacing(doi));
    let folded = trimmed.to_lowercase();
    if decoded_by_replacing(&folded) == folded && trimmed_by_std(&folded) == folded {
        folded
    } else {
        trimmed
    }
}

fn packed_by_std(id: &str) -> String {
    let mut id: String = id.chars().filter(|c| !c.is_whitespace()).collect();
    loop {
        let digits = id.chars().rev().take_while(|c| c.is_ascii_digit()).count();
        let stem = &id[..id.len() - digits];
        if digits > 0 && (stem.ends_with('v') || stem.ends_with('V')) {
            id.truncate(stem.len() - 1);
        } else {
            return id;
        }
    }
}

fn normalize_arxiv_by_std(id: &str) -> String {
    let packed = packed_by_std(id);
    let folded = packed.to_lowercase();
    if packed_by_std(&folded) == folded {
        folded
    } else {
        packed
    }
}

fn partition_key_by_std(id: &str) -> String {
    if id.starts_with("10.") {
        if let Some(slash) = id.find('/') {
            return id[..slash].to_lowercase();
        }
    }
    id.to_lowercase().chars().take(4).map(|c| if c == '/' { '_' } else { c }).collect()
}

fn doi_prefix_by_std(doi: &str) -> Option<String> {
    let parts: Vec<&str> = doi.splitn(2, '/').collect();
    if parts.len() == 2 && parts[0].starts_with("10.") {
        Some(parts[0].to_lowercase())
    } else {
        None
    }
}

#[test]
fn whitespace_agrees_with_std_for_every_char() {
    for code in 0..=0x10FFFFu32 {
        if let Some(c) = char::from_u32(code) {
            assert_eq!(is_whitespace(c), c.is_whitespace(), "U+{:04X}", code);
        }
    }
}

#[test]
fn ascii_folding_and_digits_agree_with_std_for_every_char() {
    for code in 0..=0x10FFFFu32 {
        if let Some(c) = char::from_u32(code) {
            assert_eq!(to_ascii_lower(c), c.to_ascii_lowercase(), "U+{:04X}", code);
            assert_eq!(is_digit(c), c.is_ascii_digit(), "U+{:04X}", code);
        }
    }
}

#[test]
fn lowercase_agrees_with_std() {
    let mut words = Words::new(1, "aAbBzZ09 ./-_%&ÉéΣσςİıǅßK\u{212a}");
    for _ in 0..3000 {
        let w = words.word(8);
        assert_eq!(lowercase(&w), w.to_lowercase(), "{:?}", w);
    }
    assert_eq!(lowercase("ΟΔΟΣ"), "οδος");
    assert_eq!(lowercase("ABC xyz 123"), "abc xyz 123");
    assert_eq!(lowercase(""), "");
}

#[test]
fn doi_normalization_agrees_with_replacing_in_turn() {
    let mut words = Words::new(2, "%23FfAaCcEe89&gtlampquoGTLAMP;.,:)]>\"' x/10Z");
    for _ in 0..20000 {
        let w = words.word(12);
        let once = normalize_doi(&w);
        assert_eq!(once, normalize_doi_by_replacing(&w), "{:?}", w);
        assert_eq!(normalize_doi(&once), once, "{:?}", w);
    }
    let mut unicode = Words::new(3, "%2FÉé.&gtΣ/");
    for _ in 0..3000 {
        let w = unicode.word(8);
        assert_eq!(normalize_doi(&w), normalize_doi_by_replacing(&w), "{:?}", w);
    }
}

#[test]
fn arxiv_normalization_agrees_with_std() {
    let mut words = Words::new(4, "vV0123 \t./-abCS\u{a0}é");
    for _ in 0..20000 {
        let w = words.word(10);
        let once = normalize_arxiv_id(&w);
        assert_eq!(once, normalize_arxiv_by_std(&w), "{:?}", w);
        assert_eq!(normalize_arxiv_id(&once), once, "{:?}", w);
    }
}

#[test]
fn partition_key_agrees_with_std() {
    let mut words = Words::new(5, "10./aAbBxé-_2");
    for _ in 0..20000 {
        let w = words.word(9);
        assert_eq!(partition_key(&w), partition_key_by_std(&w), "{:?}", w);
        assert_eq!(doi_prefix(&w), doi_prefix_by_std(&w), "{:?}", w);
    }
}

#[test]
fn string_order_agrees_with_std() {
    let mut words = Words::new(6, "abAB0é\u{10ffff}");
    for _ in 0..5000 {
        let a = words.word(4);
        let b = words.word(4);
        assert_eq!(str_lt(&chars_of(&a), &chars_of(&b)), a < b, "{:?} {:?}", a, b);
        assert_eq!(str_eq(&a, &b), a == b);
        assert_eq!(vec_contains(&chars_of(&a), &chars_of(&b)), a.contains(b.as_str()));
        assert_eq!(vec_starts_with(&chars_of(&a), &chars_of(&b)), a.starts_with(b.as_str()));
        assert_eq!(find_char(&chars_of(&a), 'b'), a.chars().position(|c| c == 'b'));
        assert_eq!(string_of(&chars_of(&a)), a);
        assert_eq!(joined(&a, &b), format!("{}{}", a, b));
    }
}
