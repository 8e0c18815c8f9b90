//! The three files that an output splits into.

use crate::text::{chars_of, joined, string_of, string_of_range};
use vstd::prelude::*;

verus! {

/// The paths of the three files of a split output: all citing works, the
/// asserted ones, and the mined ones.
#[derive(Debug, Clone)]
pub struct SplitOutputPaths {
    /// The combined file: the base path itself.
    pub all: String,
    /// The file of the asserted citing works.
    pub asserted: String,
    /// The file of the mined citing works.
    pub mined: String,
}

/// The name of a sibling file: the stem, an underscore, the suffix, and the
/// extension behind a dot if there is one.
pub open spec fn sibling_name_spec(
    stem: Seq<char>,
    suffix: Seq<char>,
    extension: Option<Seq<char>>,
) -> Seq<char> {
    match extension {
        Some(ext) => stem + seq!['_'] + suffix + seq!['.'] + ext,
        None => stem + seq!['_'] + suffix,
    }
}

fn push_all(out: &mut Vec<char>, s: &str)
    ensures
        final(out)@ == old(out)@ + s@,
{
    let v = chars_of(s);
    let mut i: usize = 0;
    assert(v@.subrange(0, 0) =~= Seq::<char>::empty());
    assert(out@ + v@.subrange(0, 0) =~= out@);
    while i < v.len()
        invariant
            i <= v.len(),
            v@ == s@,
            out@ == old(out)@ + v@.subrange(0, i as int),
        decreases v.len() - i,
    {
        out.push(v[i]);
        assert((old(out)@ + v@.subrange(0, i as int)).push(v@[i as int]) =~= old(out)@
            + v@.subrange(0, i + 1));
        i += 1;
    }
    assert(v@.subrange(0, v.len() as int) =~= v@);
}

/// The name of a sibling file of an output: `stem_suffix.extension`, or
/// `stem_suffix` when there is no extension.
pub fn sibling_name(stem: &str, suffix: &str, extension: Option<&str>) -> (name: String)
    ensures
        name@ == sibling_name_spec(stem@, suffix@, extension.deep_view()),
{
    let mut out: Vec<char> = Vec::new();
    push_all(&mut out, stem);
    out.push('_');
    push_all(&mut out, suffix);
    match extension {
        Some(ext) => {
            out.push('.');
            push_all(&mut out, ext);
            assert(out@ =~= stem@ + seq!['_'] + suffix@ + seq!['.'] + ext@);
        },
        None => {
            assert(out@ =~= stem@ + seq!['_'] + suffix@);
        },
    }
    string_of(&out)
}

/// The place of the last `c` in `s`, or -1 when `s` holds none.
pub open spec fn last_index(s: Seq<char>, c: char) -> int
    decreases s.len(),
{
    if s.len() == 0 {
        -1
    } else if s.last() == c {
        s.len() - 1
    } else {
        last_index(s.drop_last(), c)
    }
}

/// The last `c` of `s` is at `last_index`, nothing behind it is `c`, and
/// without a `c` in `s` there is none.
pub proof fn lemma_last_index(s: Seq<char>, c: char)
    ensures
        -1 <= last_index(s, c) < s.len(),
        last_index(s, c) >= 0 ==> s[last_index(s, c)] == c,
        forall|i: int| last_index(s, c) < i < s.len() ==> #[trigger] s[i] != c,
    decreases s.len(),
{
    if s.len() > 0 && s.last() != c {
        lemma_last_index(s.drop_last(), c);
        assert forall|i: int| last_index(s, c) < i < s.len() implies #[trigger] s[i] != c by {
            if i < s.len() - 1 {
                assert(s[i] == s.drop_last()[i]);
            }
        }
    }
}

/// Where the file name of a path begins: behind its last `/`, or at the
/// start of a path without one.
pub open spec fn name_start(base: Seq<char>) -> int {
    last_index(base, '/') + 1
}

/// The file name of a path: what stands behind its last `/`.
pub open spec fn file_name_spec(base: Seq<char>) -> Seq<char> {
    base.subrange(name_start(base), base.len() as int)
}

/// The stem of a file name: what stands before its last `.`; the whole name
/// when it holds no `.` or only one at its start.
pub open spec fn stem_spec(name: Seq<char>) -> Seq<char> {
    if last_index(name, '.') > 0 {
        name.take(last_index(name, '.'))
    } else {
        name
    }
}

/// The extension of a file name: what stands behind its last `.`; none when
/// it holds no `.` or only one at its start.
pub open spec fn extension_spec(name: Seq<char>) -> Option<Seq<char>> {
    if last_index(name, '.') > 0 {
        Some(name.subrange(last_index(name, '.') + 1, name.len() as int))
    } else {
        None
    }
}

/// The sibling of a path: what stands up to and with its last `/`, kept as it
/// is, and behind it the sibling name of its file name.
pub open spec fn sibling_path_spec(base: Seq<char>, suffix: Seq<char>) -> Seq<char> {
    base.take(name_start(base)) + sibling_name_spec(
        stem_spec(file_name_spec(base)),
        suffix,
        extension_spec(file_name_spec(base)),
    )
}

/// Finds the last `c` among the characters.
pub fn last_position(v: &Vec<char>, c: char) -> (r: Option<usize>)
    ensures
        match r {
            Some(i) => last_index(v@, c) == i,
            None => last_index(v@, c) == -1,
        },
{
    let mut i: usize = v.len();
    assert(v@.take(i as int) =~= v@);
    while i > 0
        invariant
            i <= v.len(),
            last_index(v@, c) == last_index(v@.take(i as int), c),
        decreases i,
    {
        if v[i - 1] == c {
            assert(v@.take(i as int).last() == c);
            return Some(i - 1);
        }
        assert(v@.take(i as int).drop_last() =~= v@.take(i - 1));
        i -= 1;
    }
    assert(v@.take(0) =~= Seq::<char>::empty());
    None
}

/// The sibling of the path `base` whose stem ends in an underscore and
/// `suffix`: it stands in the same directory and has the same extension.
/// The directory is what stands up to the last `/` of `base`, and the
/// extension what stands behind the last `.` of the file name; no other
/// separator is looked for, and a path that ends in `/` has an empty file
/// name.
pub fn sibling_path(base: &str, suffix: &str) -> (path: String)
    ensures
        path@ == sibling_path_spec(base@, suffix@),
{
    let chars = chars_of(base);
    proof {
        lemma_last_index(chars@, '/');
    }
    let start: usize = match last_position(&chars, '/') {
        Some(i) => i + 1,
        None => 0,
    };
    let directory = string_of_range(&chars, 0, start);
    let name = string_of_range(&chars, start, chars.len());
    let name_chars = chars_of(name.as_str());
    proof {
        lemma_last_index(name_chars@, '.');
    }
    let file = match last_position(&name_chars, '.') {
        Some(dot) if dot > 0 => {
            let stem = string_of_range(&name_chars, 0, dot);
            let extension = string_of_range(&name_chars, dot + 1, name_chars.len());
            sibling_name(stem.as_str(), suffix, Some(extension.as_str()))
        },
        _ => sibling_name(name.as_str(), suffix, None),
    };
    joined(directory.as_str(), file.as_str())
}

impl SplitOutputPaths {
    /// The three paths for the base path `base`: the base itself, and beside
    /// it the files whose stems end in `_asserted` and `_mined`.
    pub fn from_base(base: &str) -> (paths: Self)
        ensures
            paths.all@ == base@,
            paths.asserted@ == sibling_path_spec(base@, "asserted"@),
            paths.mined@ == sibling_path_spec(base@, "mined"@),
    {
        let all = chars_of(base);
        SplitOutputPaths {
            all: string_of(&all),
            asserted: sibling_path(base, "asserted"),
            mined: sibling_path(base, "mined"),
        }
    }
}

} // verus!
