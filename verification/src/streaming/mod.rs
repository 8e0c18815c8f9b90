//! The streaming stage: routing exploded edges to partitions, and the
//! checkpoint that lets a run resume.

pub mod assemble;
pub mod checkpoint;
pub mod driver;
pub mod partition_invert;
pub mod partition_writer;

pub use checkpoint::{Checkpoint, CheckpointStats, PipelinePhase};
pub use partition_writer::{ExplodedRow, FlushBatch, PartitionWriter};

use crate::text::{
    ascii_lower, chars_of, find_char, first_index, is_ascii_seq, is_first_index,
    lemma_ascii_lower_props, lemma_ascii_lower_subrange, lemma_first_index_is,
    lemma_first_index_none, lemma_first_index_props, lower, lowercase, starts_with, string_of,
    string_of_range, vec_starts_with,
};
use vstd::prelude::*;

verus! {

/// A slash becomes an underscore; any other character stays.
pub open spec fn slash_to_underscore(c: char) -> char {
    if c == '/' {
        '_'
    } else {
        c
    }
}

/// The first four characters of `l` (all of it when it is shorter), with
/// each slash replaced by an underscore.
pub open spec fn short_key(l: Seq<char>) -> Seq<char> {
    Seq::new(
        if l.len() < 4 {
            l.len()
        } else {
            4
        },
        |i: int| slash_to_underscore(l[i]),
    )
}

/// The partition that the identifier `id` is routed to: for a DOI, its
/// registrant prefix, lowercased; for any other identifier, the first four
/// characters of its lowercase form with `/` turned into `_`.
pub open spec fn partition_key_spec(id: Seq<char>) -> Seq<char> {
    if starts_with(id, "10."@) {
        match first_index(id, '/') {
            Some(i) => lower(id.subrange(0, i)),
            None => short_key(lower(id)),
        }
    } else {
        short_key(lower(id))
    }
}

/// The partition key of a cited identifier. DOIs (identifiers that begin with
/// `10.` and hold a slash) are keyed by their registrant prefix; any other
/// identifier by the first four characters of its lowercase form, with `/`
/// turned into `_`.
pub fn partition_key(id: &str) -> (key: String)
    ensures
        key@ == partition_key_spec(id@),
{
    let v = chars_of(id);
    let lead = chars_of("10.");
    if vec_starts_with(&v, &lead) {
        match find_char(&v, '/') {
            Some(slash) => {
                let head = string_of_range(&v, 0, slash);
                return lowercase(head.as_str());
            },
            None => {},
        }
    }
    let folded = lowercase(id);
    let l = chars_of(folded.as_str());
    let mut out: Vec<char> = Vec::new();
    let mut i: usize = 0;
    while i < l.len() && i < 4
        invariant
            i <= l.len(),
            i <= 4,
            out@.len() == i,
            forall|j: int| 0 <= j < i ==> out@[j] == slash_to_underscore(l@[j]),
        decreases l.len() - i,
    {
        let c = l[i];
        if c == '/' {
            out.push('_');
        } else {
            out.push(c);
        }
        i += 1;
    }
    assert(out@ =~= short_key(l@));
    string_of(&out)
}

/// The key of an ASCII identifier holds no slash, so it can name a file.
pub proof fn lemma_partition_key_has_no_slash(id: Seq<char>)
    requires
        is_ascii_seq(id),
    ensures
        forall|i: int|
            0 <= i < partition_key_spec(id).len() ==> #[trigger] partition_key_spec(id)[i] != '/',
{
    lemma_ascii_lower_props(id);
    lemma_first_index_props(id, '/');
    if starts_with(id, "10."@) && first_index(id, '/') is Some {
        let i = first_index(id, '/')->0;
        let head = id.subrange(0, i);
        assert(is_ascii_seq(head));
        lemma_ascii_lower_props(head);
        assert forall|j: int| 0 <= j < ascii_lower(head).len() implies ascii_lower(head)[j]
            != '/' by {
            assert(head[j] == id[j]);
        }
    }
}

/// The key of an ASCII identifier does not depend on the case of its letters.
pub proof fn lemma_partition_key_case_stable(id: Seq<char>)
    requires
        is_ascii_seq(id),
    ensures
        partition_key_spec(lower(id)) == partition_key_spec(id),
{
    reveal_strlit("10.");
    lemma_ascii_lower_props(id);
    let l = ascii_lower(id);
    lemma_ascii_lower_props(l);
    lemma_first_index_props(id, '/');
    if "10."@.len() <= id.len() {
        assert(l.subrange(0, 3) =~= ascii_lower(id.subrange(0, 3)));
        assert(id.subrange(0, 3) =~= "10."@ <==> l.subrange(0, 3) =~= "10."@) by {
            if l.subrange(0, 3) =~= "10."@ {
                assert(l.subrange(0, 3)[0] == '1');
                assert(l.subrange(0, 3)[1] == '0');
                assert(l.subrange(0, 3)[2] == '.');
                assert(id.subrange(0, 3)[0] == id[0]);
                assert(id.subrange(0, 3)[1] == id[1]);
                assert(id.subrange(0, 3)[2] == id[2]);
            }
            if id.subrange(0, 3) =~= "10."@ {
                assert(id.subrange(0, 3)[0] == '1');
                assert(id.subrange(0, 3)[1] == '0');
                assert(id.subrange(0, 3)[2] == '.');
            }
        }
    }
    assert(starts_with(l, "10."@) == starts_with(id, "10."@));
    match first_index(id, '/') {
        Some(i) => {
            assert(is_first_index(l, '/', i)) by {
                assert forall|j: int| 0 <= j < i implies l[j] != '/' by {
                    assert(id[j] != '/');
                }
            }
            lemma_first_index_is(l, '/', i);
            lemma_ascii_lower_subrange(id, 0, i);
            let head = id.subrange(0, i);
            assert(is_ascii_seq(head));
            lemma_ascii_lower_props(head);
            lemma_ascii_lower_props(ascii_lower(head));
        },
        None => {
            assert forall|j: int| 0 <= j < l.len() implies l[j] != '/' by {
                assert(id[j] != '/');
            }
            lemma_first_index_none(l, '/');
        },
    }
}

} // verus!
