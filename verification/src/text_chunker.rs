//! Splitting note text into bounded, overlap-aware fragments.
//!
//! A chunk is a contiguous byte range of the source text, cut so that its
//! estimated token count stays under a configured bound.  Consecutive chunks
//! overlap so that context is preserved across a cut.  Token counts are
//! estimated from byte lengths (a fixed number of characters per token); this
//! is an approximation, not an exact tokenizer.
//!
//! All positions are byte offsets into the source text, and every stored
//! offset lies on a UTF-8 character boundary, so extracting a chunk can never
//! split a character.

use vstd::prelude::*;

verus! {

use vstd::string::StrSliceExecFns;
use vstd::string::StringSliceAdditionalSpecFns;
use vstd::utf8::encode_utf8;
use vstd::utf8::is_char_boundary;
use vstd::utf8::length_of_first_scalar;
use vstd::utf8::pop_first_scalar;
use vstd::utf8::valid_utf8;

/// A fragment of a larger text, together with where it came from.
#[derive(Debug, Clone)]
pub struct TextChunk {
    /// The text of the chunk.
    pub text: String,
    /// Position of the chunk in the chunk sequence, starting at 0.
    pub index: usize,
    /// Byte offset of the start of the chunk in the source text.
    pub start_pos: usize,
    /// Byte offset of the end of the chunk in the source text (exclusive).
    pub end_pos: usize,
    /// Estimated number of tokens in the chunk.
    pub token_count: usize,
}

/// Configuration of the chunking algorithm.
#[derive(Debug, Clone)]
pub struct ChunkConfig {
    /// Upper bound on the estimated tokens per chunk.
    pub max_tokens: usize,
    /// Tokens shared between consecutive chunks.
    pub overlap_tokens: usize,
    /// Estimated characters per token.  The estimate `ceil(len /
    /// chars_per_token)` is an approximation of a real tokenizer.
    pub chars_per_token: usize,
}

/// Token estimate for a text of `len` bytes: `len / cpt`, rounded up.
pub open spec fn spec_estimate_tokens(len: nat, cpt: nat) -> nat
    recommends
        cpt > 0,
{
    len / cpt + if len % cpt == 0 {
        0nat
    } else {
        1nat
    }
}

impl ChunkConfig {
    /// The configuration can be used without overflow or division by zero.
    pub open spec fn wf(self) -> bool {
        &&& self.chars_per_token >= 1
        &&& self.max_tokens * self.chars_per_token <= usize::MAX
        &&& self.overlap_tokens * self.chars_per_token <= usize::MAX
    }

    /// Window size in characters: `max_tokens * chars_per_token`.
    pub open spec fn spec_chunk_size(self) -> nat {
        (self.max_tokens * self.chars_per_token) as nat
    }

    /// Overlap size in characters: `overlap_tokens * chars_per_token`.
    pub open spec fn spec_overlap_size(self) -> nat {
        (self.overlap_tokens * self.chars_per_token) as nat
    }

    /// Distance between the starts of consecutive windows; zero means the
    /// configuration cannot make progress and is rejected.
    pub open spec fn spec_step_size(self) -> nat {
        if self.spec_overlap_size() >= self.spec_chunk_size() {
            0
        } else {
            (self.spec_chunk_size() - self.spec_overlap_size()) as nat
        }
    }

    /// Approximate chunk size in characters.
    pub fn chunk_size_chars(&self) -> (r: usize)
        requires
            self.max_tokens * self.chars_per_token <= usize::MAX,
        ensures
            r == self.spec_chunk_size(),
    {
        self.max_tokens * self.chars_per_token
    }

    /// Approximate overlap size in characters.
    pub fn overlap_size_chars(&self) -> (r: usize)
        requires
            self.overlap_tokens * self.chars_per_token <= usize::MAX,
        ensures
            r == self.spec_overlap_size(),
    {
        self.overlap_tokens * self.chars_per_token
    }

    /// Estimated number of tokens in `text`.
    pub fn estimate_tokens(&self, text: &str) -> (r: usize)
        requires
            self.chars_per_token >= 1,
        ensures
            r == spec_estimate_tokens(text.spec_bytes().len(), self.chars_per_token as nat),
    {
        let n: usize = text.as_bytes().len();
        estimate_len_tokens(n, self.chars_per_token)
    }
}

/// Token estimate for a text of `len` bytes.
pub fn estimate_len_tokens(len: usize, cpt: usize) -> (r: usize)
    requires
        cpt >= 1,
    ensures
        r == spec_estimate_tokens(len as nat, cpt as nat),
{
    let q: usize = len / cpt;
    if len % cpt == 0 {
        q
    } else {
        proof {
            assert(q < len) by (nonlinear_arith)
                requires
                    cpt >= 1,
                    q == len / cpt,
                    len % cpt != 0,
            ;
        }
        q + 1
    }
}

impl Default for ChunkConfig {
    /// A window of 512 tokens with 50 tokens of overlap, at an estimated 4
    /// characters per token.
    fn default() -> (r: Self)
        ensures
            r.max_tokens == 512,
            r.overlap_tokens == 50,
            r.chars_per_token == 4,
    {
        ChunkConfig { max_tokens: 512, overlap_tokens: 50, chars_per_token: 4 }
    }
}

/// Why chunking can fail: the configured overlap leaves no forward progress.
#[derive(Debug, Clone, PartialEq, Eq, Structural)]
pub enum ChunkError {
    /// The overlap is at least as large as the window, so the window cannot
    /// advance; with this configuration only texts that fit in a single
    /// chunk could be handled, and the configuration is rejected instead.
    OverlapTooLarge,
}

impl ChunkError {
    /// A human-readable description of the error.
    pub fn message(&self) -> (r: String)
        ensures
            r@ == "Overlap size es igual o mayor que chunk size"@,
    {
        String::from_str("Overlap size es igual o mayor que chunk size")
    }
}


/// The single-byte separators a window edge may snap to: ASCII whitespace
/// and `. ! ? , ; :`.
pub open spec fn is_separator_byte(b: u8) -> bool {
    ||| b == 0x09
    ||| b == 0x0a
    ||| b == 0x0b
    ||| b == 0x0c
    ||| b == 0x0d
    ||| b == 0x20
    ||| b == 0x2e
    ||| b == 0x21
    ||| b == 0x3f
    ||| b == 0x2c
    ||| b == 0x3b
    ||| b == 0x3a
}

/// Whether `b` is a word or sentence separator byte.
fn is_sep_byte(b: u8) -> (r: bool)
    ensures
        r == is_separator_byte(b),
{
    b == 0x09 || b == 0x0a || b == 0x0b || b == 0x0c || b == 0x0d || b == 0x20 || b == 0x2e
        || b == 0x21 || b == 0x3f || b == 0x2c || b == 0x3b || b == 0x3a
}


/// The two-byte UTF-8 encodings of white-space characters: U+0085 and
/// U+00A0.
pub open spec fn is_two_byte_space(b0: u8, b1: u8) -> bool {
    b0 == 0xc2 && (b1 == 0x85 || b1 == 0xa0)
}

/// The three-byte UTF-8 encodings of white-space characters: U+1680,
/// U+2000 through U+200A, U+2028, U+2029, U+202F, U+205F and U+3000.
pub open spec fn is_three_byte_space(b0: u8, b1: u8, b2: u8) -> bool {
    ||| (b0 == 0xe1 && b1 == 0x9a && b2 == 0x80)
    ||| (b0 == 0xe2 && b1 == 0x80 && (0x80 <= b2 <= 0x8a || b2 == 0xa8 || b2 == 0xa9 || b2
        == 0xaf))
    ||| (b0 == 0xe2 && b1 == 0x81 && b2 == 0x9f)
    ||| (b0 == 0xe3 && b1 == 0x80 && b2 == 0x80)
}

/// Whether the bytes encode a two-byte white-space character.
fn is_two_byte_space_at(b0: u8, b1: u8) -> (r: bool)
    ensures
        r == is_two_byte_space(b0, b1),
{
    b0 == 0xc2 && (b1 == 0x85 || b1 == 0xa0)
}

/// Whether the bytes encode a three-byte white-space character.
fn is_three_byte_space_at(b0: u8, b1: u8, b2: u8) -> (r: bool)
    ensures
        r == is_three_byte_space(b0, b1, b2),
{
    (b0 == 0xe1 && b1 == 0x9a && b2 == 0x80) || (b0 == 0xe2 && b1 == 0x80 && ((0x80 <= b2 && b2
        <= 0x8a) || b2 == 0xa8 || b2 == 0xa9 || b2 == 0xaf)) || (b0 == 0xe2 && b1 == 0x81 && b2
        == 0x9f) || (b0 == 0xe3 && b1 == 0x80 && b2 == 0x80)
}

/// In a valid UTF-8 sequence, some character boundary lies at most three
/// bytes below any position: a scalar is at most four bytes long.
proof fn lemma_boundary_within_3(b: Seq<u8>, i: int)
    requires
        valid_utf8(b),
        0 <= i <= b.len(),
    ensures
        exists|j: int| i - 3 <= j <= i && 0 <= j && #[trigger] is_char_boundary(b, j),
    decreases b.len(),
{
    if i == 0 {
        assert(is_char_boundary(b, 0));
    } else {
        let l = length_of_first_scalar(b);
        assert(1 <= l && l <= 4);
        assert(l <= b.len());
        let rest = pop_first_scalar(b);
        if i < l {
            assert(is_char_boundary(b, 0));
        } else {
            lemma_boundary_within_3(rest, i - l);
            let j2 = choose|j2: int|
                i - l - 3 <= j2 <= i - l && 0 <= j2 && #[trigger] is_char_boundary(rest, j2);
            assert(is_char_boundary(b, j2 + l));
        }
    }
}

/// In an ASCII text every position is a character boundary.
proof fn lemma_ascii_all_boundaries(text: &str)
    requires
        vstd::string::is_ascii(text),
    ensures
        forall|k: int|
            0 <= k <= text.spec_bytes().len() ==> #[trigger] is_char_boundary(
                text.spec_bytes(),
                k,
            ),
{
    broadcast use vstd::utf8::group_utf8_lib;
    broadcast use vstd::string::is_ascii_spec_bytes;

    let b = text.spec_bytes();
    assert(valid_utf8(b));
    assert forall|k: int| 0 <= k <= b.len() implies #[trigger] is_char_boundary(b, k) by {
        if k == b.len() {
            assert(is_char_boundary(b, k));
        } else if k == 0 {
            assert(is_char_boundary(b, 0));
        } else {
            assert(b[k] == text@[k] as u8);
            assert(text@[k] <= '\u{7f}');
            assert(!vstd::utf8::is_continuation_byte(b[k]));
        }
    }
}

/// The largest character boundary at or below `pos`; it is fewer than four
/// bytes away.
pub(crate) fn round_down_to_boundary(text: &str, pos: usize) -> (r: usize)
    requires
        pos <= text.spec_bytes().len(),
    ensures
        r <= pos,
        pos - r <= 3,
        is_char_boundary(text.spec_bytes(), r as int),
        forall|k: int| r < k <= pos ==> !is_char_boundary(text.spec_bytes(), k),
{
    let ghost b = text.spec_bytes();
    proof {
        broadcast use vstd::utf8::encode_utf8_valid_utf8;

        assert(valid_utf8(b));
        lemma_boundary_within_3(b, pos as int);
    }
    let mut r = pos;
    while !text.is_char_boundary(r)
        invariant
            r <= pos,
            valid_utf8(b),
            pos <= b.len(),
            b == text.spec_bytes(),
            exists|j: int| pos - 3 <= j <= pos && 0 <= j && #[trigger] is_char_boundary(b, j),
            forall|k: int| r < k <= pos ==> !is_char_boundary(b, k),
        decreases r,
    {
        proof {
            assert(is_char_boundary(b, 0));
            assert(r > 0);
        }
        r -= 1;
    }
    proof {
        let j = choose|j: int| pos - 3 <= j <= pos && 0 <= j && #[trigger] is_char_boundary(b, j);
        assert(j <= r);
    }
    r
}

/// Character boundaries carry over from a text to its tails.
proof fn lemma_boundary_in_subrange(b: Seq<u8>, i: int, j: int)
    requires
        valid_utf8(b),
        0 <= i <= j <= b.len(),
        is_char_boundary(b, i),
        is_char_boundary(b, j),
    ensures
        valid_utf8(b.subrange(i, b.len() as int)),
        is_char_boundary(b.subrange(i, b.len() as int), j - i),
{
    broadcast use vstd::utf8::group_utf8_lib;

    let tail = b.subrange(i, b.len() as int);
    assert(valid_utf8(tail));
    if j == i {
        assert(is_char_boundary(tail, 0));
    } else if j == b.len() {
        assert(is_char_boundary(tail, tail.len() as int));
    } else {
        assert(!vstd::utf8::is_continuation_byte(b[j]));
        assert(tail[j - i] == b[j]);
        assert(is_char_boundary(tail, j - i));
    }
}

/// The substring of `text` covering byte positions `start..end`, both of
/// which must be character boundaries.
pub(crate) fn extract_range(text: &str, start: usize, end: usize) -> (r: String)
    requires
        start <= end,
        end <= text.spec_bytes().len(),
        is_char_boundary(text.spec_bytes(), start as int),
        is_char_boundary(text.spec_bytes(), end as int),
    ensures
        encode_utf8(r@) == text.spec_bytes().subrange(start as int, end as int),
{
    let ghost b = text.spec_bytes();
    proof {
        broadcast use vstd::utf8::encode_utf8_valid_utf8;

        assert(valid_utf8(b));
        lemma_boundary_in_subrange(b, start as int, end as int);
    }
    let (_, rest) = text.split_at(start);
    let (mid, _) = rest.split_at(end - start);
    proof {
        assert(mid.spec_bytes() =~= b.subrange(start as int, end as int));
    }
    mid.to_owned()
}


/// Snap a window edge backward to the nearest separator -- a white-space
/// character, in any of its UTF-8 widths, or ASCII sentence punctuation --
/// ending within `lookback` bytes; if none is found, fall back to the
/// nearest character boundary.
///
/// The result is always a character boundary strictly after `start`.  Only
/// when the window is no more than three bytes wide and no boundary exists
/// inside it does the edge jump forward to the end of the text.
fn snap_end(text: &str, start: usize, raw_end: usize, lookback: usize) -> (end: usize)
    requires
        is_char_boundary(text.spec_bytes(), start as int),
        start < raw_end,
        raw_end < text.spec_bytes().len(),
        lookback <= raw_end - start,
    ensures
        is_char_boundary(text.spec_bytes(), end as int),
        start < end <= text.spec_bytes().len(),
        (end <= raw_end && (raw_end - end < lookback || raw_end - end <= 3)) || (end
            == text.spec_bytes().len() && raw_end - start <= 3),
        vstd::string::is_ascii(text) ==> (end <= raw_end && (end == raw_end || raw_end - end
            < lookback)),
{
    let ghost b = text.spec_bytes();
    proof {
        broadcast use vstd::utf8::encode_utf8_valid_utf8;

        assert(valid_utf8(b));
        if vstd::string::is_ascii(text) {
            lemma_ascii_all_boundaries(text);
        }
    }
    let bytes = text.as_bytes();
    let search_start = raw_end - lookback;
    let mut i = raw_end;
    while i > search_start
        invariant
            search_start <= i <= raw_end,
            search_start == raw_end - lookback,
            start < raw_end,
            lookback <= raw_end - start,
            raw_end < b.len(),
            b == text.spec_bytes(),
            bytes@ == b,
        decreases i,
    {
        let hit = is_sep_byte(bytes[i - 1]) || (i >= 2 && is_two_byte_space_at(
            bytes[i - 2],
            bytes[i - 1],
        )) || (i >= 3 && is_three_byte_space_at(bytes[i - 3], bytes[i - 2], bytes[i - 1]));
        if hit && text.is_char_boundary(i) {
            proof {
                assert(i > search_start);
                assert(search_start >= start);
            }
            return i;
        }
        i -= 1;
    }
    let e = round_down_to_boundary(text, raw_end);
    proof {
        if vstd::string::is_ascii(text) {
            assert(is_char_boundary(b, raw_end as int));
            assert(e == raw_end);
        }
    }
    if e > start {
        e
    } else {
        proof {
            broadcast use vstd::utf8::is_char_boundary_start_end_of_seq;

            assert(is_char_boundary(b, b.len() as int));
        }
        let n = bytes.len();
        proof {
            assert(n == b.len());
        }
        n
    }
}


/// The chunk is a faithful fragment of the byte sequence `b`: its positions
/// are in range, its text is exactly the bytes between them, and its token
/// count is the estimate for its length.
#[verifier::opaque]
pub open spec fn chunk_covers(c: TextChunk, b: Seq<u8>, cpt: nat) -> bool {
    &&& c.start_pos < c.end_pos <= b.len()
    &&& encode_utf8(c.text@) == b.subrange(c.start_pos as int, c.end_pos as int)
    &&& c.token_count == spec_estimate_tokens((c.end_pos - c.start_pos) as nat, cpt)
}


/// What the sliding-window strategy guarantees of its output on a text that
/// needs more than one chunk: indices are consecutive from zero, the first
/// chunk starts at the first byte, the last chunk ends at the last byte,
/// every chunk is a faithful fragment, starts never move backward, and -- as
/// long as the configured overlap spans at least four bytes of text -- each
/// chunk begins strictly before the previous one ends.  Window edges move
/// at most three bytes to honour character boundaries, which the size
/// bounds account for.
pub open spec fn sliding_chunks_ok(cks: Seq<TextChunk>, b: Seq<u8>, cfg: ChunkConfig) -> bool {
    let cpt = cfg.chars_per_token as nat;
    let cs = cfg.spec_chunk_size();
    let os = cfg.spec_overlap_size();
    let step = cfg.spec_step_size();
    &&& cks.len() >= 1
    &&& (forall|i: int| 0 <= i < cks.len() ==> (#[trigger] cks[i]).index == i)
    &&& cks[0].start_pos == 0
    &&& cks[cks.len() - 1].end_pos == b.len()
    &&& (forall|i: int| 0 <= i < cks.len() ==> chunk_covers(#[trigger] cks[i], b, cpt))
    &&& (forall|i: int|
        0 <= i < cks.len() - 1 ==> (#[trigger] cks[i]).start_pos <= cks[i + 1].start_pos)
    &&& (os >= 4 ==> forall|i: int|
        0 <= i < cks.len() - 1 ==> cks[i + 1].start_pos < (#[trigger] cks[i]).end_pos)
    &&& (cs >= 4 ==> forall|i: int|
        0 <= i < cks.len() - 1 ==> (#[trigger] cks[i]).end_pos - cks[i].start_pos <= cs + 3)
    &&& (cs >= 4 ==> cks[cks.len() - 1].end_pos - cks[cks.len() - 1].start_pos <= cs + cs / 4
        + 3)
}

/// Appending a window chunk that respects the sliding discipline keeps every
/// pairwise guarantee of the sequence built so far.
proof fn lemma_sliding_push(
    old_cks: Seq<TextChunk>,
    c: TextChunk,
    b: Seq<u8>,
    cfg: ChunkConfig,
    ascii: bool,
    cursor: int,
)
    requires
        old_cks.len() >= 1,
        c.index == old_cks.len(),
        forall|i: int| 0 <= i < old_cks.len() ==> (#[trigger] old_cks[i]).index == i,
        old_cks[0].start_pos == 0,
        forall|i: int|
            0 <= i < old_cks.len() ==> chunk_covers(#[trigger] old_cks[i], b,
                cfg.chars_per_token as nat),
        chunk_covers(c, b, cfg.chars_per_token as nat),
        forall|i: int|
            0 <= i < old_cks.len() - 1 ==> (#[trigger] old_cks[i]).start_pos <= old_cks[i
                + 1].start_pos,
        cfg.spec_overlap_size() >= 4 ==> forall|i: int|
            0 <= i < old_cks.len() - 1 ==> old_cks[i + 1].start_pos < (
            #[trigger] old_cks[i]).end_pos,
        cfg.spec_chunk_size() >= 4 ==> forall|i: int|
            0 <= i < old_cks.len() ==> (#[trigger] old_cks[i]).end_pos - old_cks[i].start_pos
                <= cfg.spec_chunk_size() + 3,
        cfg.spec_step_size() >= 4 ==> forall|i: int|
            0 <= i < old_cks.len() - 1 ==> (#[trigger] old_cks[i]).start_pos < old_cks[i
                + 1].start_pos,
        ascii ==> forall|i: int|
            0 <= i < old_cks.len() - 1 ==> old_cks[i + 1].start_pos == (
            #[trigger] old_cks[i]).start_pos + cfg.spec_step_size(),
        ascii ==> forall|i: int|
            0 <= i < old_cks.len() ==> (#[trigger] old_cks[i]).end_pos - old_cks[i].start_pos
                <= cfg.spec_chunk_size(),
        // where the new chunk was cut, relative to the raw cursor
        is_char_boundary(b, old_cks[old_cks.len() - 1].start_pos as int),
        forall|k: int| c.start_pos < k <= cursor ==> !is_char_boundary(b, k),
        c.start_pos <= cursor && cursor <= c.start_pos + 3,
        old_cks[old_cks.len() - 1].start_pos + cfg.spec_step_size() <= cursor,
        cfg.spec_overlap_size() >= 4 ==> c.start_pos < old_cks[old_cks.len() - 1].end_pos,
        ascii ==> c.start_pos == cursor && old_cks[old_cks.len() - 1].start_pos
            + cfg.spec_step_size() == cursor,
    ensures
        ({
            let cks = old_cks.push(c);
            &&& (forall|i: int| 0 <= i < cks.len() ==> (#[trigger] cks[i]).index == i)
            &&& cks[0].start_pos == 0
            &&& (forall|i: int|
                0 <= i < cks.len() ==> chunk_covers(#[trigger] cks[i], b,
                    cfg.chars_per_token as nat))
            &&& (forall|i: int|
                0 <= i < cks.len() - 1 ==> (#[trigger] cks[i]).start_pos <= cks[i
                    + 1].start_pos)
            &&& (cfg.spec_overlap_size() >= 4 ==> forall|i: int|
                0 <= i < cks.len() - 1 ==> cks[i + 1].start_pos < (#[trigger] cks[i]).end_pos)
            &&& (cfg.spec_chunk_size() >= 4 ==> forall|i: int|
                0 <= i < cks.len() - 1 ==> (#[trigger] cks[i]).end_pos - cks[i].start_pos
                    <= cfg.spec_chunk_size() + 3)
            &&& (cfg.spec_step_size() >= 4 ==> forall|i: int|
                0 <= i < cks.len() - 1 ==> (#[trigger] cks[i]).start_pos < cks[i
                    + 1].start_pos)
            &&& (ascii ==> forall|i: int|
                0 <= i < cks.len() - 1 ==> cks[i + 1].start_pos == (
                #[trigger] cks[i]).start_pos + cfg.spec_step_size())
            &&& (ascii ==> forall|i: int|
                0 <= i < cks.len() - 1 ==> (#[trigger] cks[i]).end_pos - cks[i].start_pos
                    <= cfg.spec_chunk_size())
        }),
{
    let cks = old_cks.push(c);
    let last = old_cks[old_cks.len() - 1];
    assert(last.start_pos <= c.start_pos) by {
        if c.start_pos < last.start_pos {
            assert(!is_char_boundary(b, last.start_pos as int));
        }
    }
    if cfg.spec_step_size() >= 4 {
        assert(last.start_pos < c.start_pos);
    }
    assert(forall|i: int| 0 <= i < old_cks.len() ==> cks[i] == #[trigger] old_cks[i]);
    assert(cks[cks.len() - 1] == c);
}


/// Position `p` of the source text lies inside one of the chunks.
pub open spec fn position_in_chunks(cks: Seq<TextChunk>, p: int) -> bool {
    exists|t: int| 0 <= t < cks.len() && (#[trigger] cks[t]).start_pos <= p < cks[t].end_pos
}

/// A position covered by the chunks stays covered when a chunk is appended.
proof fn lemma_position_push(cks: Seq<TextChunk>, c: TextChunk, p: int)
    requires
        position_in_chunks(cks, p),
    ensures
        position_in_chunks(cks.push(c), p),
{
    let t = choose|t: int|
        0 <= t < cks.len() && (#[trigger] cks[t]).start_pos <= p < cks[t].end_pos;
    assert(cks.push(c)[t] == cks[t]);
}

/// In a chunk sequence that starts at position zero and whose consecutive
/// members overlap, every position below a member's end lies inside some
/// member.
proof fn lemma_overlap_cover(cks: Seq<TextChunk>, p: int, i: int)
    requires
        forall|t: int|
            0 <= t < cks.len() - 1 ==> cks[t + 1].start_pos < (#[trigger] cks[t]).end_pos,
        cks.len() >= 1,
        cks[0].start_pos == 0,
        0 <= i < cks.len(),
        0 <= p < cks[i].end_pos,
    ensures
        position_in_chunks(cks, p),
    decreases i,
{
    if p >= cks[i].start_pos {
        assert(cks[i].start_pos <= p < cks[i].end_pos);
    } else {
        lemma_overlap_cover(cks, p, i - 1);
    }
}


/// While paragraphs are packed, position `p` is accounted for: inside a
/// finished chunk, inside the pending packed span, or a blank-line byte.
spec fn packed_byte(cks: Seq<TextChunk>, cur: Option<(usize, usize)>, b: Seq<u8>, p: int) -> bool {
    ||| position_in_chunks(cks, p)
    ||| (cur matches Some(c) && c.0 <= p < c.1)
    ||| b[p] == 0x0a
}


/// Progress refinements of the sliding window: starts strictly increase
/// once the step exceeds the three-byte boundary slack, and on ASCII text
/// -- where no window edge needs rounding -- consecutive starts are exactly
/// one step apart and no chunk but a merged final one exceeds the window.
pub open spec fn sliding_steps_ok(cks: Seq<TextChunk>, cfg: ChunkConfig, ascii: bool) -> bool {
    let cs = cfg.spec_chunk_size();
    let step = cfg.spec_step_size();
    &&& (step >= 4 ==> forall|i: int|
        0 <= i < cks.len() - 1 ==> (#[trigger] cks[i]).start_pos < cks[i + 1].start_pos)
    &&& (ascii ==> forall|i: int|
        0 <= i < cks.len() - 1 ==> cks[i + 1].start_pos == (#[trigger] cks[i]).start_pos + step)
    &&& (ascii ==> forall|i: int|
        0 <= i < cks.len() - 1 ==> (#[trigger] cks[i]).end_pos - cks[i].start_pos <= cs)
    &&& (ascii && cks.len() >= 1 ==> cks[cks.len() - 1].end_pos - cks[cks.len() - 1].start_pos
        <= cs + cs / 4)
}


/// Cut one window of the sliding strategy: the chunk begins at the nearest
/// character boundary at or below `cursor` and ends at the snapped window
/// edge, or at the end of the text once the window reaches it.
fn cut_window(
    text: &str,
    cursor: usize,
    cs: usize,
    lookback: usize,
    index: usize,
    cpt: usize,
) -> (c: TextChunk)
    requires
        cursor < text.spec_bytes().len(),
        cpt >= 1,
        1 <= cs,
        lookback < cs,
    ensures
        ({
            let b = text.spec_bytes();
            let n = b.len() as int;
            let raw: int = if cursor + cs < n {
                cursor + cs
            } else {
                n
            };
            &&& c.index == index
            &&& chunk_covers(c, b, cpt as nat)
            &&& c.start_pos < c.end_pos <= n
            &&& is_char_boundary(b, c.start_pos as int)
            &&& c.start_pos <= cursor && cursor <= c.start_pos + 3
            &&& (forall|k: int| c.start_pos < k <= cursor ==> !is_char_boundary(b, k))
            &&& (cs >= n - cursor ==> c.end_pos == n)
            &&& (cs < n - cursor ==> ((c.end_pos <= raw && (raw - c.end_pos < lookback || raw
                - c.end_pos <= 3)) || (c.end_pos == n && raw - c.start_pos <= 3)))
            &&& (vstd::string::is_ascii(text) ==> c.start_pos == cursor && c.end_pos
                - c.start_pos <= cs)
        }),
{
    let ghost b = text.spec_bytes();
    proof {
        broadcast use vstd::utf8::encode_utf8_valid_utf8;

        assert(valid_utf8(b));
        if vstd::string::is_ascii(text) {
            lemma_ascii_all_boundaries(text);
        }
    }
    let n = text.as_bytes().len();
    let start = round_down_to_boundary(text, cursor);
    proof {
        if vstd::string::is_ascii(text) {
            assert(is_char_boundary(b, cursor as int));
            assert(start == cursor);
        }
    }
    let raw_end = if cs < n - cursor {
        cursor + cs
    } else {
        n
    };
    let end = if raw_end < n {
        snap_end(text, start, raw_end, lookback)
    } else {
        proof {
            broadcast use vstd::utf8::is_char_boundary_start_end_of_seq;

            assert(is_char_boundary(b, n as int));
        }
        n
    };
    let ctext = extract_range(text, start, end);
    let tok = estimate_len_tokens(end - start, cpt);
    let c = TextChunk { text: ctext, index, start_pos: start, end_pos: end, token_count: tok };
    proof {
        assert(chunk_covers(c, b, cpt as nat)) by {
            reveal(chunk_covers);
        }
    }
    c
}

/// The text splitter.  It owns a configuration and exposes the two chunking
/// strategies: a plain sliding window and a paragraph-aware variant.
pub struct TextChunker {
    config: ChunkConfig,
}

impl TextChunker {
    /// The configuration in use (specification view).
    pub closed spec fn spec_config(self) -> ChunkConfig {
        self.config
    }

    /// A chunker with the default configuration.
    pub fn new() -> (r: Self)
        ensures
            r.spec_config() == (ChunkConfig { max_tokens: 512, overlap_tokens: 50, chars_per_token: 4 }),
    {
        TextChunker { config: ChunkConfig::default() }
    }

    /// A chunker with the given configuration.
    pub fn with_config(config: ChunkConfig) -> (r: Self)
        ensures
            r.spec_config() == config,
    {
        TextChunker { config }
    }

    /// The configuration in use.
    pub fn config(&self) -> (r: &ChunkConfig)
        ensures
            *r == self.spec_config(),
    {
        &self.config
    }

}



impl TextChunker {
    /// Split `text` into overlapping chunks.
    ///
    /// An empty text yields no chunks, and a text whose token estimate fits
    /// `max_tokens` yields exactly one chunk spanning the whole text.
    /// Otherwise a window of `chunk_size` bytes slides over the text in steps
    /// of `chunk_size - overlap_size` bytes, so that consecutive chunks
    /// overlap; each cut is snapped backward to a nearby word or sentence
    /// separator, and a final tail smaller than a quarter window is merged
    /// into the previous chunk.  A configuration whose overlap is at least as
    /// large as the window cannot advance and is rejected.
    #[verifier::rlimit(100)]
    pub fn chunk_text(&self, text: &str) -> (r: Result<Vec<TextChunk>, ChunkError>)
        requires
            self.spec_config().max_tokens * self.spec_config().chars_per_token <= usize::MAX,
            self.spec_config().overlap_tokens * self.spec_config().chars_per_token <= usize::MAX,
        ensures
            ({
                let b = text.spec_bytes();
                let cfg = self.spec_config();
                let cpt = cfg.chars_per_token as nat;
                let est = spec_estimate_tokens(b.len(), cpt);
                &&& (b.len() == 0 ==> r is Ok && r->Ok_0@.len() == 0)
                &&& (b.len() > 0 && cpt >= 1 && est <= cfg.max_tokens ==> r is Ok
                    && r->Ok_0@.len() == 1 && r->Ok_0@[0].text@ == text@ && r->Ok_0@[0].index == 0
                    && r->Ok_0@[0].start_pos == 0 && r->Ok_0@[0].end_pos == b.len()
                    && r->Ok_0@[0].token_count == est)
                &&& (b.len() > 0 && cpt == 0 ==> r is Err)
                &&& (b.len() > 0 && cpt >= 1 && est > cfg.max_tokens ==> ((r is Err)
                    <==> cfg.spec_step_size() == 0))
                &&& (r is Err ==> r->Err_0 == ChunkError::OverlapTooLarge)
                &&& (b.len() > 0 && cpt >= 1 && est > cfg.max_tokens && cfg.spec_step_size() >= 1
                    ==> r is Ok && sliding_chunks_ok(r->Ok_0@, b, cfg))
                &&& (b.len() > 0 && cpt >= 1 && est > cfg.max_tokens && cfg.spec_step_size() >= 1
                    ==> sliding_steps_ok(r->Ok_0@, cfg, vstd::string::is_ascii(text)))
            }),
    {
        let ghost b = text.spec_bytes();
        let ghost cfg = self.spec_config();
        proof {
            broadcast use vstd::utf8::encode_utf8_valid_utf8;

            assert(valid_utf8(b));
        }
        let n: usize = text.as_bytes().len();
        if n == 0 {
            return Ok(Vec::new());
        }
        if self.config.chars_per_token == 0 {
            return Err(ChunkError::OverlapTooLarge);
        }
        let cpt: usize = self.config.chars_per_token;
        let est_total = estimate_len_tokens(n, cpt);
        if est_total <= self.config.max_tokens {
            let mut single: Vec<TextChunk> = Vec::new();
            single.push(
                TextChunk {
                    text: text.to_owned(),
                    index: 0,
                    start_pos: 0,
                    end_pos: n,
                    token_count: est_total,
                },
            );
            proof {
                assert(b.subrange(0, n as int) =~= b);
            }
            return Ok(single);
        }
        let cs = self.config.chunk_size_chars();
        let os = self.config.overlap_size_chars();
        if os >= cs {
            return Err(ChunkError::OverlapTooLarge);
        }
        let step: usize = cs - os;
        let lookback: usize = if os < 50 {
            os
        } else {
            50
        };
        let ghost ascii = vstd::string::is_ascii(text);
        let mut chunks: Vec<TextChunk> = Vec::new();
        let mut cursor: usize = 0;
        let mut index: usize = 0;
        loop
            invariant
                b == text.spec_bytes(),
                valid_utf8(b),
                cfg == self.spec_config(),
                n == b.len(),
                cpt == cfg.chars_per_token,
                cpt >= 1,
                spec_estimate_tokens(b.len(), cpt as nat) > cfg.max_tokens,
                cs == cfg.spec_chunk_size(),
                os == cfg.spec_overlap_size(),
                os < cs,
                step == cs - os,
                step == cfg.spec_step_size(),
                lookback == if os < 50 {
                    os as int
                } else {
                    50int
                },
                ascii == vstd::string::is_ascii(text),
                cursor < n,
                chunks@.len() == index,
                index <= cursor,
                index == 0 ==> cursor == 0,
                forall|i: int| 0 <= i < chunks@.len() ==> (#[trigger] chunks@[i]).index == i,
                chunks@.len() >= 1 ==> chunks@[0].start_pos == 0,
                forall|i: int|
                    0 <= i < chunks@.len() ==> chunk_covers(#[trigger] chunks@[i], b, cpt as nat),
                forall|i: int|
                    0 <= i < chunks@.len() - 1 ==> (#[trigger] chunks@[i]).start_pos <= chunks@[i
                        + 1].start_pos,
                os >= 4 ==> forall|i: int|
                    0 <= i < chunks@.len() - 1 ==> chunks@[i + 1].start_pos < (
                    #[trigger] chunks@[i]).end_pos,
                cs >= 4 ==> forall|i: int|
                    0 <= i < chunks@.len() ==> (#[trigger] chunks@[i]).end_pos
                        - chunks@[i].start_pos <= cs + 3,
                step >= 4 ==> forall|i: int|
                    0 <= i < chunks@.len() - 1 ==> (#[trigger] chunks@[i]).start_pos < chunks@[i
                        + 1].start_pos,
                ascii ==> forall|i: int|
                    0 <= i < chunks@.len() - 1 ==> chunks@[i + 1].start_pos == (
                    #[trigger] chunks@[i]).start_pos + step,
                ascii ==> forall|i: int|
                    0 <= i < chunks@.len() ==> (#[trigger] chunks@[i]).end_pos
                        - chunks@[i].start_pos <= cs,
                chunks@.len() >= 1 ==> ({
                    let last = chunks@[chunks@.len() - 1];
                    &&& is_char_boundary(b, last.start_pos as int)
                    &&& last.start_pos <= cursor
                    &&& last.start_pos + step <= cursor
                    &&& cursor <= last.start_pos + step + 3
                    &&& (os >= 4 ==> last.end_pos > cursor)
                    &&& (ascii ==> last.start_pos + step == cursor)
                }),
            decreases n - cursor,
        {
            let ghost prev_cks = chunks@;
            let c = cut_window(text, cursor, cs, lookback, index, cpt);
            let ghost cspec = c;
            chunks.push(c);
            proof {
                if cs >= 4 {
                    assert(cspec.end_pos - cspec.start_pos <= cs + 3);
                }
                if prev_cks.len() >= 1 {
                    lemma_sliding_push(prev_cks, cspec, b, cfg, ascii, cursor as int);
                }
            }
            index += 1;
            if step >= n - cursor {
                proof {
                    assert(cspec.end_pos == n);
                    assert(chunks@[chunks@.len() - 1] == cspec);
                    if cs >= 4 {
                        assert(cspec.end_pos - cspec.start_pos <= cs + cs / 4 + 3);
                    }
                    if ascii {
                        assert(cspec.end_pos - cspec.start_pos <= cs + cs / 4);
                    }
                }
                return Ok(chunks);
            }
            cursor += step;
            let remaining = n - cursor;
            if remaining < cs / 4 {
                let last_start = chunks[chunks.len() - 1].start_pos;
                proof {
                    broadcast use vstd::utf8::is_char_boundary_start_end_of_seq;

                    assert(chunks@[chunks@.len() - 1] == cspec);
                    assert(last_start == cspec.start_pos);
                    assert(is_char_boundary(b, n as int));
                }
                let mtext = extract_range(text, last_start, n);
                let mtok = estimate_len_tokens(n - last_start, cpt);
                let last_popped = chunks.pop().unwrap();
                let m = TextChunk {
                    text: mtext,
                    index: last_popped.index,
                    start_pos: last_start,
                    end_pos: n,
                    token_count: mtok,
                };
                let ghost mspec = m;
                chunks.push(m);
                proof {
                    let cks = chunks@;
                    assert(cks =~= prev_cks.push(mspec));
                    assert(chunk_covers(mspec, b, cpt as nat)) by {
                        reveal(chunk_covers);
                    }
                    if prev_cks.len() >= 1 {
                        lemma_sliding_push(prev_cks, mspec, b, cfg, ascii, cursor - step);
                    }
                    // size of the merged final chunk
                    assert(n - last_start <= cs + cs / 4 + 3);
                    if ascii {
                        assert(last_start + step == cursor);
                        assert(n - last_start <= cs + cs / 4);
                    }
                }
                return Ok(chunks);
            }
            proof {
                assert(chunks@[chunks@.len() - 1] == cspec);
                if os >= 4 {
                    assert(cspec.end_pos > cursor);
                }
            }
        }
    }
}


impl TextChunker {
    /// Split `text` into chunks, keeping blank-line-separated paragraphs
    /// together where possible.
    ///
    /// Paragraphs are packed greedily into a chunk until the next paragraph
    /// would push the token estimate over `max_tokens`.  A single paragraph
    /// that alone exceeds the bound falls back to the sliding-window
    /// strategy; chunk indices stay consecutive across that boundary.  Texts
    /// that are empty or fit in one chunk behave as in
    /// [`TextChunker::chunk_text`], and only a configuration without forward
    /// progress is rejected.
    #[verifier::rlimit(100)]
    pub fn chunk_by_paragraphs(&self, text: &str) -> (r: Result<Vec<TextChunk>, ChunkError>)
        requires
            self.spec_config().max_tokens * self.spec_config().chars_per_token <= usize::MAX,
            self.spec_config().overlap_tokens * self.spec_config().chars_per_token <= usize::MAX,
        ensures
            ({
                let b = text.spec_bytes();
                let cfg = self.spec_config();
                let cpt = cfg.chars_per_token as nat;
                let est = spec_estimate_tokens(b.len(), cpt);
                &&& (b.len() == 0 ==> r is Ok && r->Ok_0@.len() == 0)
                &&& (b.len() > 0 && cpt >= 1 && est <= cfg.max_tokens ==> r is Ok
                    && r->Ok_0@.len() == 1 && r->Ok_0@[0].text@ == text@ && r->Ok_0@[0].index == 0
                    && r->Ok_0@[0].start_pos == 0 && r->Ok_0@[0].end_pos == b.len()
                    && r->Ok_0@[0].token_count == est)
                &&& (b.len() > 0 && cpt == 0 ==> r is Err)
                &&& (r is Err ==> r->Err_0 == ChunkError::OverlapTooLarge
                    && (cpt >= 1 ==> cfg.spec_step_size() == 0))
                &&& (cpt >= 1 && cfg.spec_step_size() >= 1 ==> r is Ok)
                &&& (r is Ok ==> ({
                    let cks = r->Ok_0@;
                    &&& (forall|i: int| 0 <= i < cks.len() ==> (#[trigger] cks[i]).index == i)
                    &&& (forall|i: int|
                        0 <= i < cks.len() ==> chunk_covers(#[trigger] cks[i], b, cpt))
                }))
                &&& (b.len() > 0 && cpt >= 1 && est > cfg.max_tokens && cfg.spec_overlap_size()
                    >= 4 && r is Ok ==> ({
                    // Together the chunks cover the paragraph text: a byte
                    // escapes them only as part of a blank-line separator.
                    let cks = r->Ok_0@;
                    &&& (forall|q: int|
                        0 <= q < b.len() ==> #[trigger] position_in_chunks(cks, q) || b[q]
                            == 0x0a)
                    &&& ((exists|q: int| 0 <= q < b.len() && b[q] != 0x0a) ==> cks.len() >= 1)
                }))
            }),
    {
        let ghost b = text.spec_bytes();
        let ghost cfg = self.spec_config();
        proof {
            broadcast use vstd::utf8::encode_utf8_valid_utf8;

            assert(valid_utf8(b));
        }
        let n: usize = text.as_bytes().len();
        if n == 0 {
            return Ok(Vec::new());
        }
        if self.config.chars_per_token == 0 {
            return Err(ChunkError::OverlapTooLarge);
        }
        let cpt: usize = self.config.chars_per_token;
        let est_total = estimate_len_tokens(n, cpt);
        let max_tokens: usize = self.config.max_tokens;
        if est_total <= max_tokens {
            let mut single: Vec<TextChunk> = Vec::new();
            single.push(
                TextChunk {
                    text: text.to_owned(),
                    index: 0,
                    start_pos: 0,
                    end_pos: n,
                    token_count: est_total,
                },
            );
            proof {
                assert(b.subrange(0, n as int) =~= b);
                assert(chunk_covers(single@[0], b, cpt as nat)) by {
                    reveal(chunk_covers);
                    assert(b.subrange(0, n as int) =~= b);
                }
                assert forall|q: int| 0 <= q < b.len() implies #[trigger] position_in_chunks(
                    single@,
                    q,
                ) || b[q] == 0x0a by {
                    assert(single@[0].start_pos <= q < single@[0].end_pos);
                }
            }
            return Ok(single);
        }
        let bytes = text.as_bytes();
        // Paragraph spans: byte ranges between blank-line separators.
        let mut spans: Vec<(usize, usize)> = Vec::new();
        let mut p: usize = 0;
        let mut i: usize = 0;
        while i < n
            invariant
                b == text.spec_bytes(),
                valid_utf8(b),
                n == b.len(),
                bytes@ == b,
                p <= i,
                i <= n,
                is_char_boundary(b, p as int),
                forall|k: int|
                    0 <= k < spans@.len() ==> ({
                        let sp = #[trigger] spans@[k];
                        &&& sp.0 <= sp.1 <= n
                        &&& is_char_boundary(b, sp.0 as int)
                        &&& is_char_boundary(b, sp.1 as int)
                    }),
                forall|k: int|
                    0 <= k < spans@.len() ==> (#[trigger] spans@[k]).1 + 2 <= p as int,
                forall|k: int|
                    0 <= k < spans@.len() - 1 ==> (#[trigger] spans@[k]).1 < spans@[k + 1].0,
                spans@.len() == 0 ==> p == 0,
                spans@.len() >= 1 ==> spans@[0].0 == 0,
                spans@.len() >= 1 ==> (spans@[spans@.len() - 1]).1 + 2 == p as int,
                forall|k: int|
                    0 <= k < spans@.len() - 1 ==> (#[trigger] spans@[k + 1]).0 == spans@[k].1 + 2,
                forall|k: int|
                    0 <= k < spans@.len() ==> (#[trigger] spans@[k]).1 + 1 < n && b[spans@[k].1
                        as int] == 0x0a && b[spans@[k].1 as int + 1] == 0x0a,
            decreases n - i,
        {
            if i + 1 < n && bytes[i] == 0x0a && bytes[i + 1] == 0x0a && text.is_char_boundary(i)
                && text.is_char_boundary(i + 2) {
                spans.push((p, i));
                p = i + 2;
                i = i + 2;
            } else {
                i = i + 1;
            }
        }
        proof {
            broadcast use vstd::utf8::is_char_boundary_start_end_of_seq;

            assert(is_char_boundary(b, n as int));
        }
        spans.push((p, n));
        proof {
            assert(spans@[0].0 == 0);
            assert((spans@[spans@.len() - 1]).1 == n);
        }
        // Greedy packing of paragraphs, with a sliding-window fallback for a
        // paragraph that alone exceeds the bound.
        let ghost os4 = cfg.spec_overlap_size() >= 4;
        let mut chunks: Vec<TextChunk> = Vec::new();
        let mut cur: Option<(usize, usize)> = None;
        let mut k: usize = 0;
        while k < spans.len()
            invariant
                b == text.spec_bytes(),
                valid_utf8(b),
                cfg == self.spec_config(),
                n == b.len(),
                cpt == cfg.chars_per_token,
                cpt >= 1,
                max_tokens == cfg.max_tokens,
                cfg.max_tokens * cfg.chars_per_token <= usize::MAX,
                cfg.overlap_tokens * cfg.chars_per_token <= usize::MAX,
                k <= spans@.len(),
                n >= 1,
                spec_estimate_tokens(b.len(), cpt as nat) > cfg.max_tokens,
                forall|j: int|
                    0 <= j < spans@.len() ==> ({
                        let sp = #[trigger] spans@[j];
                        &&& sp.0 <= sp.1 <= n
                        &&& is_char_boundary(b, sp.0 as int)
                        &&& is_char_boundary(b, sp.1 as int)
                    }),
                forall|j: int|
                    0 <= j < spans@.len() - 1 ==> (#[trigger] spans@[j]).1 < spans@[j + 1].0,
                spans@.len() >= 1,
                spans@[0].0 == 0,
                (spans@[spans@.len() - 1]).1 == n,
                forall|j: int|
                    0 <= j < spans@.len() - 1 ==> (#[trigger] spans@[j + 1]).0 == spans@[j].1 + 2,
                forall|j: int|
                    0 <= j < spans@.len() - 1 ==> (#[trigger] spans@[j]).1 + 1 < n
                        && b[spans@[j].1 as int] == 0x0a && b[spans@[j].1 as int + 1] == 0x0a,
                forall|j: int| 0 <= j < chunks@.len() ==> (#[trigger] chunks@[j]).index == j,
                forall|j: int|
                    0 <= j < chunks@.len() ==> chunk_covers(#[trigger] chunks@[j], b, cpt as nat),
                cur matches Some(c) ==> ({
                    &&& c.0 <= c.1 <= n
                    &&& is_char_boundary(b, c.0 as int)
                    &&& is_char_boundary(b, c.1 as int)
                    &&& (k < spans@.len() ==> c.1 <= spans@[k as int].0)
                }),
                os4 == (cfg.spec_overlap_size() >= 4),
                os4 ==> forall|q: int|
                    0 <= q < (if k == 0 {
                        0int
                    } else {
                        (spans@[k - 1]).1 as int
                    }) ==> #[trigger] packed_byte(chunks@, cur, b, q),
            decreases spans@.len() - k,
        {
            let (ps, pe) = spans[k];
            let ghost front_old: int = if k == 0 {
                0int
            } else {
                (spans@[k - 1]).1 as int
            };
            let ghost front_new: int = pe as int;
            let ghost chunks0 = chunks@;
            let ghost cur0 = cur;
            proof {
                // the bytes between the previous paragraph and this one are
                // the two blank-line bytes
                assert(ps as int == front_old || (k >= 1 && ps as int == front_old + 2));
                if k >= 1 {
                    assert(b[front_old] == 0x0a && b[front_old + 1] == 0x0a);
                }
            }
            let para_tokens = estimate_len_tokens(pe - ps, cpt);
            if para_tokens > max_tokens {
                // flush the packed chunk, then sub-chunk the big paragraph
                if let Some((cs_, ce_)) = cur {
                    if ce_ > cs_ {
                        let ctext = extract_range(text, cs_, ce_);
                        let tok = estimate_len_tokens(ce_ - cs_, cpt);
                        let idx = chunks.len();
                        let c = TextChunk {
                            text: ctext,
                            index: idx,
                            start_pos: cs_,
                            end_pos: ce_,
                            token_count: tok,
                        };
                        let ghost cspec = c;
                        proof {
                            assert(chunk_covers(cspec, b, cpt as nat)) by {
                                reveal(chunk_covers);
                            }
                        }
                        chunks.push(c);
                        proof {
                            if os4 {
                                assert forall|q: int| 0 <= q < front_old implies
                                    #[trigger] packed_byte(
                                    chunks@,
                                    None::<(usize, usize)>,
                                    b,
                                    q,
                                ) by {
                                    assert(packed_byte(chunks0, cur0, b, q));
                                    if position_in_chunks(chunks0, q) {
                                        lemma_position_push(chunks0, cspec, q);
                                    } else if cs_ <= q < ce_ {
                                        assert(chunks@[chunks@.len() - 1].start_pos <= q
                                            < chunks@[chunks@.len() - 1].end_pos);
                                    }
                                }
                            }
                        }
                    }
                    cur = None;
                }
                proof {
                    if os4 {
                        assert forall|q: int| 0 <= q < front_old implies #[trigger] packed_byte(
                            chunks@,
                            None::<(usize, usize)>,
                            b,
                            q,
                        ) by {
                            assert(packed_byte(chunks0, cur0, b, q));
                        }
                    }
                }
                let ghost chunks_flushed = chunks@;
                proof {
                    assert(pe > ps) by {
                        if pe == ps {
                            assert(spec_estimate_tokens(0, cpt as nat) == 0);
                        }
                    }
                }
                let sub_result = self.fallback_paragraph(text, ps, pe, &mut chunks);
                match sub_result {
                    Ok(()) => {},
                    Err(e) => {
                        return Err(e);
                    },
                }
                proof {
                    if os4 {
                        assert forall|q: int| 0 <= q < front_new implies #[trigger] packed_byte(
                            chunks@,
                            cur,
                            b,
                            q,
                        ) by {
                            if q < front_old {
                                assert(packed_byte(chunks_flushed, None::<(usize, usize)>, b, q));
                                if position_in_chunks(chunks_flushed, q) {
                                    let t = choose|t: int|
                                        0 <= t < chunks_flushed.len() && (
                                        #[trigger] chunks_flushed[t]).start_pos <= q
                                            < chunks_flushed[t].end_pos;
                                    assert(chunks@[t] == chunks_flushed[t]);
                                }
                            } else if q < ps {
                                assert(b[q] == 0x0a);
                            } else {
                                assert(position_in_chunks(chunks@, q));
                            }
                        }
                    }
                }
            } else {
                match cur {
                    None => {
                        cur = Some((ps, pe));
                        proof {
                            if os4 {
                                assert forall|q: int| 0 <= q < front_new implies
                                    #[trigger] packed_byte(chunks@, cur, b, q) by {
                                    if q < front_old {
                                        assert(packed_byte(chunks0, cur0, b, q));
                                    } else if q < ps {
                                        assert(b[q] == 0x0a);
                                    }
                                }
                            }
                        }
                    },
                    Some((cs_, ce_)) => {
                        if ce_ == cs_ {
                            // an empty packed chunk is replaced, not joined
                            cur = Some((ps, pe));
                            proof {
                                if os4 {
                                    assert forall|q: int| 0 <= q < front_new implies
                                        #[trigger] packed_byte(chunks@, cur, b, q) by {
                                        if q < front_old {
                                            assert(packed_byte(chunks0, cur0, b, q));
                                        } else if q < ps {
                                            assert(b[q] == 0x0a);
                                        }
                                    }
                                }
                            }
                        } else {
                            let cur_tokens = estimate_len_tokens(ce_ - cs_, cpt);
                            if cur_tokens > max_tokens - para_tokens {
                                let ctext = extract_range(text, cs_, ce_);
                                let idx = chunks.len();
                                let c = TextChunk {
                                    text: ctext,
                                    index: idx,
                                    start_pos: cs_,
                                    end_pos: ce_,
                                    token_count: cur_tokens,
                                };
                                let ghost cspec = c;
                                proof {
                                    assert(chunk_covers(cspec, b, cpt as nat)) by {
                                        reveal(chunk_covers);
                                    }
                                }
                                chunks.push(c);
                                cur = Some((ps, pe));
                                proof {
                                    assert(chunks@[chunks@.len() - 1] == cspec);
                                    if os4 {
                                        assert forall|q: int| 0 <= q < front_new implies
                                            #[trigger] packed_byte(chunks@, cur, b, q) by {
                                            if q < front_old {
                                                assert(packed_byte(chunks0, cur0, b, q));
                                                if position_in_chunks(chunks0, q) {
                                                    lemma_position_push(chunks0, cspec, q);
                                                } else if cs_ <= q < ce_ {
                                                    assert(chunks@[chunks@.len() - 1].start_pos
                                                        <= q < chunks@[chunks@.len()
                                                        - 1].end_pos);
                                                }
                                            } else if q < ps {
                                                assert(b[q] == 0x0a);
                                            }
                                        }
                                    }
                                }
                            } else {
                                cur = Some((cs_, pe));
                                proof {
                                    if os4 {
                                        assert forall|q: int| 0 <= q < front_new implies
                                            #[trigger] packed_byte(chunks@, cur, b, q) by {
                                            if q < front_old {
                                                assert(packed_byte(chunks0, cur0, b, q));
                                            } else if q < ps {
                                                assert(b[q] == 0x0a);
                                            } else {
                                                assert(cs_ <= q < pe);
                                            }
                                        }
                                    }
                                }
                            }
                        }
                    },
                }
            }
            k = k + 1;
        }
        let ghost chunks_end = chunks@;
        let ghost cur_end = cur;
        if let Some((cs_, ce_)) = cur {
            if ce_ > cs_ {
                let ctext = extract_range(text, cs_, ce_);
                let tok = estimate_len_tokens(ce_ - cs_, cpt);
                let idx = chunks.len();
                let c = TextChunk {
                    text: ctext,
                    index: idx,
                    start_pos: cs_,
                    end_pos: ce_,
                    token_count: tok,
                };
                let ghost cspec = c;
                proof {
                    assert(chunk_covers(cspec, b, cpt as nat)) by {
                        reveal(chunk_covers);
                    }
                }
                chunks.push(c);
                proof {
                    assert(chunks@[chunks@.len() - 1] == cspec);
                    if os4 {
                        assert forall|q: int| 0 <= q < n implies #[trigger] position_in_chunks(
                            chunks@,
                            q,
                        ) || b[q] == 0x0a by {
                            assert(packed_byte(chunks_end, cur_end, b, q));
                            if position_in_chunks(chunks_end, q) {
                                lemma_position_push(chunks_end, cspec, q);
                            } else if cs_ <= q < ce_ {
                                assert(chunks@[chunks@.len() - 1].start_pos <= q < chunks@[
                                    chunks@.len() - 1].end_pos);
                            }
                        }
                    }
                }
            }
        }
        proof {
            if os4 {
                assert forall|q: int| 0 <= q < n implies #[trigger] position_in_chunks(
                    chunks@,
                    q,
                ) || b[q] == 0x0a by {
                    assert(packed_byte(chunks_end, cur_end, b, q));
                }
                if exists|q: int| 0 <= q < b.len() && b[q] != 0x0a {
                    let q = choose|q: int| 0 <= q < b.len() && b[q] != 0x0a;
                    assert(position_in_chunks(chunks@, q));
                }
            }
        }
        Ok(chunks)
    }
}


impl TextChunker {
    /// Fall back to the sliding window for a single paragraph whose token
    /// estimate alone exceeds the bound, appending its chunks -- their
    /// indices continuing the sequence, their positions global.  When the
    /// configured overlap spans at least four bytes, the appended chunks
    /// jointly cover the whole paragraph.
    #[verifier::rlimit(100)]
    fn fallback_paragraph(
        &self,
        text: &str,
        ps: usize,
        pe: usize,
        chunks: &mut Vec<TextChunk>,
    ) -> (r: Result<(), ChunkError>)
        requires
            self.spec_config().max_tokens * self.spec_config().chars_per_token <= usize::MAX,
            self.spec_config().overlap_tokens * self.spec_config().chars_per_token <= usize::MAX,
            self.spec_config().chars_per_token >= 1,
            ps < pe <= text.spec_bytes().len(),
            is_char_boundary(text.spec_bytes(), ps as int),
            is_char_boundary(text.spec_bytes(), pe as int),
            spec_estimate_tokens((pe - ps) as nat, self.spec_config().chars_per_token as nat)
                > self.spec_config().max_tokens,
            forall|i: int|
                0 <= i < old(chunks)@.len() ==> (#[trigger] old(chunks)@[i]).index == i,
            forall|i: int|
                0 <= i < old(chunks)@.len() ==> chunk_covers(#[trigger] old(chunks)@[i],
                    text.spec_bytes(), self.spec_config().chars_per_token as nat),
        ensures
            ({
                let b = text.spec_bytes();
                let cfg = self.spec_config();
                &&& (r is Err ==> final(chunks)@ == old(chunks)@ && r->Err_0
                    == ChunkError::OverlapTooLarge && cfg.spec_step_size() == 0)
                &&& (cfg.spec_step_size() >= 1 ==> r is Ok)
                &&& (r is Ok ==> ({
                    &&& final(chunks)@.len() >= old(chunks)@.len()
                    &&& (forall|i: int|
                        0 <= i < old(chunks)@.len() ==> final(chunks)@[i] == (
                        #[trigger] old(chunks)@[i]))
                    &&& (forall|i: int|
                        0 <= i < final(chunks)@.len() ==> (#[trigger] final(chunks)@[i]).index
                            == i)
                    &&& (forall|i: int|
                        0 <= i < final(chunks)@.len() ==> chunk_covers(
                            #[trigger] final(chunks)@[i],
                            b,
                            cfg.chars_per_token as nat,
                        ))
                    &&& (cfg.spec_overlap_size() >= 4 ==> forall|q: int|
                        ps <= q < pe ==> #[trigger] position_in_chunks(final(chunks)@, q))
                }))
            }),
    {
        let ghost b = text.spec_bytes();
        let ghost cfg = self.spec_config();
        proof {
            broadcast use vstd::utf8::encode_utf8_valid_utf8;

            assert(valid_utf8(b));
        }
        let n: usize = text.as_bytes().len();
        let cpt: usize = self.config.chars_per_token;
            let para = extract_range(text, ps, pe);
            let para_ref = para.as_str();
            let sub = match self.chunk_text(para_ref) {
                Ok(v) => v,
                Err(e) => {
                    return Err(e);
                },
            };
            let ghost para_bytes = b.subrange(ps as int, pe as int);
            let ghost base = chunks@.len() as int;
            let mut j: usize = 0;
            while j < sub.len()
                invariant
                    b == text.spec_bytes(),
                    n == b.len(),
                    cpt >= 1,
                    ps <= pe <= n,
                    para_bytes == b.subrange(ps as int, pe as int),
                    j <= sub@.len(),
                    chunks@.len() == base + j,
                    base == old(chunks)@.len(),
                    forall|t: int| 0 <= t < base ==> chunks@[t] == (#[trigger] old(chunks)@[t]),
                    forall|t: int|
                        0 <= t < chunks@.len() ==> (#[trigger] chunks@[t]).index == t,
                    forall|t: int|
                        0 <= t < chunks@.len() ==> chunk_covers(#[trigger] chunks@[t], b,
                            cpt as nat),
                    forall|t: int|
                        0 <= t < sub@.len() ==> chunk_covers(#[trigger] sub@[t], para_bytes,
                            cpt as nat),
                    forall|t: int|
                        0 <= t < j ==> (#[trigger] chunks@[base + t]).start_pos == ps + sub@[t].start_pos
                            && (#[trigger] chunks@[base + t]).end_pos == ps + sub@[t].end_pos,
                decreases sub@.len() - j,
            {
                let sc = &sub[j];
                proof {
                    reveal(chunk_covers);
                }
                let idx = chunks.len();
                let c = TextChunk {
                    text: sc.text.clone(),
                    index: idx,
                    start_pos: sc.start_pos + ps,
                    end_pos: sc.end_pos + ps,
                    token_count: sc.token_count,
                };
                let ghost cspec = c;
                let ghost chunks_before = chunks@;
                proof {
                    assert(chunk_covers(cspec, b, cpt as nat)) by {
                        reveal(chunk_covers);
                        assert(para_bytes.subrange(
                            sc.start_pos as int,
                            sc.end_pos as int,
                        ) =~= b.subrange(sc.start_pos + ps, sc.end_pos + ps));
                    }
                }
                chunks.push(c);
                proof {
                    assert(forall|t: int|
                        0 <= t < chunks_before.len() ==> chunks@[t] == (
                        #[trigger] chunks_before[t]));
                    assert(chunks@[base + j] == cspec);
                }
                j = j + 1;
            }
            proof {
                if cfg.spec_overlap_size() >= 4 {
                    reveal(chunk_covers);
                    let sb = sub@;
                    assert(para_ref.spec_bytes() =~= para_bytes);
                    assert(para_bytes.len() == pe - ps);
                    assert(spec_estimate_tokens((pe - ps) as nat, cpt as nat)
                        > cfg.max_tokens);
                    assert(pe - ps > 0);
                    assert(cfg.spec_step_size() >= 1);
                    assert(sliding_chunks_ok(sb, para_bytes, cfg));
                    assert forall|q: int| ps <= q < pe implies #[trigger] position_in_chunks(
                        chunks@,
                        q,
                    ) by {
                        lemma_overlap_cover(sb, q - ps, sb.len() - 1);
                        let t = choose|t: int|
                            0 <= t < sb.len() && (#[trigger] sb[t]).start_pos <= q - ps
                                < sb[t].end_pos;
                        assert(chunks@[base + t].start_pos <= q < chunks@[base + t].end_pos);
                    }
                }
            }
        Ok(())
    }
}

impl Default for TextChunker {
    /// Same as [`TextChunker::new`].
    fn default() -> (r: Self)
        ensures
            r.spec_config() == (ChunkConfig { max_tokens: 512, overlap_tokens: 50, chars_per_token: 4 }),
    {
        TextChunker::new()
    }
}

} // verus!
