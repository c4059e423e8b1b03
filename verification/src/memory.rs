//! Decision kernels of the vector memory layer.
//!
//! The store itself is an embedded SQLite database reached through an
//! asynchronous connection, which the surrounding application owns.  What
//! can be decided from plain values lives here: how note content is capped
//! before it is embedded, how the document row is formed, and exactly which
//! tables a full reset may drop -- the content table and the tables of the
//! vector-index family, and no others.

use vstd::prelude::*;

verus! {

use vstd::string::StrSliceExecFns;
use vstd::string::StringSliceAdditionalSpecFns;

use crate::text_chunker::extract_range;
use crate::text_chunker::round_down_to_boundary;

/// The declared shape of `serde_json::Value`: note metadata is carried
/// through this crate as an opaque structured value.
#[verifier::external_type_specification]
#[verifier::external_body]
pub struct ExValue(serde_json::Value);

/// The name of the content table.
pub const NOTE_TABLE: &'static str = "rig_note";

/// The common prefix of the vector-index tables that belong to the content
/// table.
pub const NOTE_EMBEDDINGS_PREFIX: &'static str = "rig_note_embeddings";

/// The document-to-embedding map the store keeps beside the vector table.
pub const NOTE_EMBEDDING_MAP_TABLE: &'static str = "rig_note_embedding_map";

/// Content longer than this many bytes is embedded and stored truncated.
pub const MAX_CONTENT_LEN: usize = 25000;

/// One note as the store holds it: the note name as unique key, the
/// (possibly truncated) content, and the caller's metadata.
#[derive(Debug)]
pub struct NoteDocument {
    /// The note name; the store keys rows by it.
    pub id: String,
    /// The note content the embedding was made from.
    pub content: String,
    /// Opaque structured metadata, stored alongside the content.
    pub metadata: serde_json::Value,
}

/// Content capped for embedding: content of at most [`MAX_CONTENT_LEN`]
/// bytes is kept whole; longer content is cut at the largest character
/// boundary at or below the cap, which is fewer than four bytes under it,
/// so that no character is split.  The cut is thereby determined by the
/// content alone.
pub fn truncate_content(content: &str) -> (r: String)
    ensures
        content.spec_bytes().len() <= MAX_CONTENT_LEN ==> r@ == content@,
        content.spec_bytes().len() > MAX_CONTENT_LEN ==> ({
            let c = r@;
            exists|cut: int|
                {
                    &&& MAX_CONTENT_LEN - 3 <= cut <= MAX_CONTENT_LEN
                    &&& vstd::utf8::is_char_boundary(content.spec_bytes(), cut)
                    &&& (forall|k: int|
                        cut < k <= MAX_CONTENT_LEN ==> !vstd::utf8::is_char_boundary(
                            content.spec_bytes(),
                            k,
                        ))
                    &&& vstd::utf8::encode_utf8(c) == content.spec_bytes().subrange(0, cut)
                }
        }),
{
    let n: usize = content.as_bytes().len();
    if n <= MAX_CONTENT_LEN {
        return content.to_owned();
    }
    proof {
        broadcast use vstd::utf8::encode_utf8_valid_utf8;

        assert(vstd::utf8::valid_utf8(content.spec_bytes()));
        assert(vstd::utf8::is_char_boundary(content.spec_bytes(), 0));
    }
    let cut = round_down_to_boundary(content, MAX_CONTENT_LEN);
    let r = extract_range(content, 0, cut);
    proof {
        assert(MAX_CONTENT_LEN - 3 <= cut <= MAX_CONTENT_LEN);
    }
    r
}

/// The document row that indexing a note writes: the id is the note name,
/// the content is capped as by [`truncate_content`], and the metadata is
/// passed through.
pub fn make_document(note_id: &str, content: &str, metadata: serde_json::Value) -> (r:
    NoteDocument)
    ensures
        r.id@ == note_id@,
        r.metadata == metadata,
        content.spec_bytes().len() <= MAX_CONTENT_LEN ==> r.content@ == content@,
        content.spec_bytes().len() > MAX_CONTENT_LEN ==> ({
            let c = r.content@;
            exists|cut: int|
                {
                    &&& MAX_CONTENT_LEN - 3 <= cut <= MAX_CONTENT_LEN
                    &&& vstd::utf8::is_char_boundary(content.spec_bytes(), cut)
                    &&& (forall|k: int|
                        cut < k <= MAX_CONTENT_LEN ==> !vstd::utf8::is_char_boundary(
                            content.spec_bytes(),
                            k,
                        ))
                    &&& vstd::utf8::encode_utf8(c) == content.spec_bytes().subrange(0, cut)
                }
        }),
{
    NoteDocument { id: note_id.to_owned(), content: truncate_content(content), metadata }
}

/// Whether `s` begins with `p`.
pub open spec fn starts_with_chars(s: Seq<char>, p: Seq<char>) -> bool {
    p.len() <= s.len() && s.subrange(0, p.len() as int) == p
}

/// Whether the string `s` begins with the prefix `p`.
pub fn str_starts_with(s: &str, p: &str) -> (r: bool)
    ensures
        r == starts_with_chars(s@, p@),
{
    let sl = s.unicode_len();
    let pl = p.unicode_len();
    if pl > sl {
        return false;
    }
    let mut i: usize = 0;
    while i < pl
        invariant
            pl <= sl,
            sl == s@.len(),
            pl == p@.len(),
            i <= pl,
            forall|j: int| 0 <= j < i ==> s@[j] == p@[j],
        decreases pl - i,
    {
        if s.get_char(i) != p.get_char(i) {
            proof {
                assert(s@.subrange(0, p@.len() as int) != p@) by {
                    assert(s@.subrange(0, p@.len() as int)[i as int] == s@[i as int]);
                }
            }
            return false;
        }
        i += 1;
    }
    proof {
        assert(s@.subrange(0, p@.len() as int) =~= p@);
    }
    true
}

/// Whether some string in `v` holds the characters `x`.
pub open spec fn contains_str(v: Seq<String>, x: Seq<char>) -> bool {
    exists|i: int| 0 <= i < v.len() && #[trigger] v[i]@ == x
}

/// Whether some string in `v` equals `x`.
fn vec_contains_str(v: &Vec<String>, x: &str) -> (r: bool)
    ensures
        r == contains_str(v@, x@),
{
    let mut i: usize = 0;
    while i < v.len()
        invariant
            i <= v@.len(),
            forall|j: int| 0 <= j < i ==> v@[j]@ != x@,
        decreases v@.len() - i,
    {
        if crate::embedding_config::str_eq(v[i].as_str(), x) {
            return true;
        }
        i += 1;
    }
    false
}

/// The tables a full reset drops, given the names of all tables in the
/// schema: exactly the vector-index family -- every existing table whose
/// name begins with [`NOTE_EMBEDDINGS_PREFIX`], that prefix itself, the
/// embedding map kept beside it -- and, last, the content table, each name
/// once.
pub fn clear_plan(existing: &Vec<String>) -> (r: Vec<String>)
    ensures
        // nothing outside the family is dropped
        forall|i: int|
            0 <= i < r@.len() ==> (#[trigger] r@[i])@ == NOTE_TABLE@ || (#[trigger] r@[i])@
                == NOTE_EMBEDDING_MAP_TABLE@ || starts_with_chars(
                r@[i]@,
                NOTE_EMBEDDINGS_PREFIX@,
            ),
        // the whole existing family is dropped
        forall|j: int|
            0 <= j < existing@.len() && starts_with_chars(
                (#[trigger] existing@[j])@,
                NOTE_EMBEDDINGS_PREFIX@,
            ) ==> contains_str(r@, existing@[j]@),
        // the primary vector table, its embedding map and the content table
        // are always dropped
        contains_str(r@, NOTE_EMBEDDINGS_PREFIX@),
        contains_str(r@, NOTE_EMBEDDING_MAP_TABLE@),
        r@.len() >= 1 && r@[r@.len() - 1]@ == NOTE_TABLE@,
        // no table is named twice
        forall|i: int, j: int| 0 <= i < j < r@.len() ==> (#[trigger] r@[i])@ != (#[trigger] r@[j])@,
{
    proof {
        reveal_strlit("rig_note");
        reveal_strlit("rig_note_embeddings");
        reveal_strlit("rig_note_embedding_map");
        assert(NOTE_TABLE@.len() == 8);
        assert(NOTE_EMBEDDINGS_PREFIX@.len() == 19);
        assert(NOTE_EMBEDDING_MAP_TABLE@.len() == 22);
    }
    let mut r: Vec<String> = Vec::new();
    r.push(String::from_str(NOTE_EMBEDDINGS_PREFIX));
    proof {
        assert(NOTE_EMBEDDINGS_PREFIX@.subrange(0, 19) =~= NOTE_EMBEDDINGS_PREFIX@);
        assert(starts_with_chars(NOTE_EMBEDDINGS_PREFIX@, NOTE_EMBEDDINGS_PREFIX@));
    }
    let mut j: usize = 0;
    while j < existing.len()
        invariant
            j <= existing@.len(),
            NOTE_EMBEDDINGS_PREFIX@.len() == 19,
            NOTE_TABLE@.len() == 8,
            r@.len() >= 1,
            r@[0]@ == NOTE_EMBEDDINGS_PREFIX@,
            forall|i: int|
                0 <= i < r@.len() ==> starts_with_chars((#[trigger] r@[i])@,
                    NOTE_EMBEDDINGS_PREFIX@),
            forall|t: int|
                0 <= t < j && starts_with_chars(
                    (#[trigger] existing@[t])@,
                    NOTE_EMBEDDINGS_PREFIX@,
                ) ==> contains_str(r@, existing@[t]@),
            forall|i: int, a: int|
                0 <= i < a < r@.len() ==> (#[trigger] r@[i])@ != (#[trigger] r@[a])@,
        decreases existing@.len() - j,
    {
        let name = &existing[j];
        let ghost old_r = r@;
        if str_starts_with(name.as_str(), NOTE_EMBEDDINGS_PREFIX) && !vec_contains_str(
            &r,
            name.as_str(),
        ) {
            r.push(name.clone());
            proof {
                assert(forall|i: int| 0 <= i < old_r.len() ==> r@[i] == (#[trigger] old_r[i]));
                assert(r@[r@.len() - 1]@ == existing@[j as int]@);
                assert forall|t: int|
                    0 <= t < j + 1 && starts_with_chars(
                        (#[trigger] existing@[t])@,
                        NOTE_EMBEDDINGS_PREFIX@,
                    ) implies contains_str(r@, existing@[t]@) by {
                    if t < j {
                        let w = choose|w: int| 0 <= w < old_r.len() && #[trigger] old_r[w]@
                            == existing@[t]@;
                        assert(r@[w]@ == existing@[t]@);
                    } else {
                        assert(r@[r@.len() - 1]@ == existing@[t]@);
                    }
                }
            }
        } else {
            proof {
                assert forall|t: int|
                    0 <= t < j + 1 && starts_with_chars(
                        (#[trigger] existing@[t])@,
                        NOTE_EMBEDDINGS_PREFIX@,
                    ) implies contains_str(r@, existing@[t]@) by {
                    if t == j {
                        assert(starts_with_chars(existing@[j as int]@, NOTE_EMBEDDINGS_PREFIX@)
                            ==> contains_str(r@, existing@[j as int]@));
                    }
                }
            }
        }
        j += 1;
    }
    proof {
        assert(!starts_with_chars(NOTE_EMBEDDING_MAP_TABLE@, NOTE_EMBEDDINGS_PREFIX@)) by {
            assert(NOTE_EMBEDDING_MAP_TABLE@[18] == '_');
            assert(NOTE_EMBEDDINGS_PREFIX@[18] == 's');
            assert(NOTE_EMBEDDING_MAP_TABLE@.subrange(0, 19)[18] == NOTE_EMBEDDING_MAP_TABLE@[18]);
        }
    }
    let ghost fam = r@;
    r.push(String::from_str(NOTE_EMBEDDING_MAP_TABLE));
    proof {
        assert(forall|i: int| 0 <= i < fam.len() ==> r@[i] == (#[trigger] fam[i]));
        assert(r@[r@.len() - 1]@ == NOTE_EMBEDDING_MAP_TABLE@);
        assert forall|i: int|
            0 <= i < r@.len() - 1 implies (#[trigger] r@[i])@ != NOTE_EMBEDDING_MAP_TABLE@ by {
            assert(starts_with_chars(r@[i]@, NOTE_EMBEDDINGS_PREFIX@));
        }
    }
    let ghost pre = r@;
    r.push(String::from_str(NOTE_TABLE));
    proof {
        assert(forall|i: int| 0 <= i < pre.len() ==> r@[i] == (#[trigger] pre[i]));
        assert(r@[r@.len() - 1]@ == NOTE_TABLE@);
        assert forall|i: int| 0 <= i < r@.len() - 1 implies (#[trigger] r@[i])@ != NOTE_TABLE@ by {
            assert(r@[i]@.len() >= 19);
        }
        assert forall|t: int|
            0 <= t < existing@.len() && starts_with_chars(
                (#[trigger] existing@[t])@,
                NOTE_EMBEDDINGS_PREFIX@,
            ) implies contains_str(r@, existing@[t]@) by {
            let w = choose|w: int| 0 <= w < fam.len() && #[trigger] fam[w]@ == existing@[t]@;
            assert(r@[w]@ == existing@[t]@);
        }
        assert(contains_str(r@, NOTE_EMBEDDINGS_PREFIX@)) by {
            assert(r@[0]@ == NOTE_EMBEDDINGS_PREFIX@);
        }
        assert(contains_str(r@, NOTE_EMBEDDING_MAP_TABLE@)) by {
            assert(r@[fam.len() as int]@ == NOTE_EMBEDDING_MAP_TABLE@);
        }
    }
    r
}

} // verus!
