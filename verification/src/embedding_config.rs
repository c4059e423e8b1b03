//! Configuration of the embedding subsystem, and counters for bulk
//! reindexing runs.
//!
//! Validity of a configuration is a pure predicate; [`EmbeddingConfig::validate`]
//! additionally normalizes the text fields (trimming whitespace, lowercasing
//! the provider name) and reports the first structural problem it finds.

use vstd::prelude::*;

verus! {

use vstd::string::StrSliceExecFns;
use vstd::string::StringExecFns;
use vstd::string::StringSliceAdditionalSpecFns;

/// The Unicode white-space characters, as `str::trim` understands them.
pub open spec fn is_whitespace_char(c: char) -> bool {
    ||| c == '\u{0009}'
    ||| c == '\u{000A}'
    ||| c == '\u{000B}'
    ||| c == '\u{000C}'
    ||| c == '\u{000D}'
    ||| c == ' '
    ||| c == '\u{0085}'
    ||| c == '\u{00A0}'
    ||| c == '\u{1680}'
    ||| ('\u{2000}' <= c && c <= '\u{200A}')
    ||| c == '\u{2028}'
    ||| c == '\u{2029}'
    ||| c == '\u{202F}'
    ||| c == '\u{205F}'
    ||| c == '\u{3000}'
}

/// Whether `c` is a white-space character.
fn is_space_char(c: char) -> (r: bool)
    ensures
        r == is_whitespace_char(c),
{
    c == '\u{0009}' || c == '\u{000A}' || c == '\u{000B}' || c == '\u{000C}' || c == '\u{000D}'
        || c == ' ' || c == '\u{0085}' || c == '\u{00A0}' || c == '\u{1680}' || ('\u{2000}' <= c
        && c <= '\u{200A}') || c == '\u{2028}' || c == '\u{2029}' || c == '\u{202F}' || c
        == '\u{205F}' || c == '\u{3000}'
}

/// The number of leading white-space characters of `s`.
pub open spec fn ws_prefix_len(s: Seq<char>) -> int
    decreases s.len(),
{
    if s.len() == 0 {
        0
    } else if is_whitespace_char(s[0]) {
        1 + ws_prefix_len(s.drop_first())
    } else {
        0
    }
}

/// The number of trailing white-space characters of `s`.
pub open spec fn ws_suffix_len(s: Seq<char>) -> int
    decreases s.len(),
{
    if s.len() == 0 {
        0
    } else if is_whitespace_char(s.last()) {
        1 + ws_suffix_len(s.drop_last())
    } else {
        0
    }
}

/// `s` with leading and trailing white space removed.
pub open spec fn spec_trim(s: Seq<char>) -> Seq<char> {
    if ws_prefix_len(s) == s.len() {
        Seq::empty()
    } else {
        s.subrange(ws_prefix_len(s), s.len() - ws_suffix_len(s))
    }
}

proof fn lemma_ws_prefix(s: Seq<char>)
    ensures
        0 <= ws_prefix_len(s) <= s.len(),
        forall|i: int| 0 <= i < ws_prefix_len(s) ==> is_whitespace_char(#[trigger] s[i]),
        ws_prefix_len(s) < s.len() ==> !is_whitespace_char(s[ws_prefix_len(s)]),
    decreases s.len(),
{
    if s.len() > 0 && is_whitespace_char(s[0]) {
        lemma_ws_prefix(s.drop_first());
        assert forall|i: int| 0 <= i < ws_prefix_len(s) implies is_whitespace_char(
            #[trigger] s[i],
        ) by {
            if i > 0 {
                assert(s.drop_first()[i - 1] == s[i]);
            }
        }
    }
}

proof fn lemma_ws_suffix(s: Seq<char>)
    ensures
        0 <= ws_suffix_len(s) <= s.len(),
        forall|i: int|
            s.len() - ws_suffix_len(s) <= i < s.len() ==> is_whitespace_char(#[trigger] s[i]),
        ws_suffix_len(s) < s.len() ==> !is_whitespace_char(s[s.len() - ws_suffix_len(s) - 1]),
    decreases s.len(),
{
    if s.len() > 0 && is_whitespace_char(s.last()) {
        lemma_ws_suffix(s.drop_last());
        assert forall|i: int| s.len() - ws_suffix_len(s) <= i < s.len() implies is_whitespace_char(
            #[trigger] s[i],
        ) by {
            if i < s.len() - 1 {
                assert(s.drop_last()[i] == s[i]);
            }
        }
    }
}

/// `s` with leading and trailing white space removed.
pub fn trimmed(s: &str) -> (r: String)
    ensures
        r@ == spec_trim(s@),
{
    proof {
        lemma_ws_prefix(s@);
        lemma_ws_suffix(s@);
    }
    let len = s.unicode_len();
    let mut a: usize = 0;
    while a < len && is_space_char(s.get_char(a))
        invariant
            len == s@.len(),
            a <= len,
            forall|i: int| 0 <= i < a ==> is_whitespace_char(#[trigger] s@[i]),
        decreases len - a,
    {
        a += 1;
    }
    proof {
        assert(a == ws_prefix_len(s@)) by {
            lemma_ws_prefix(s@);
            if a < ws_prefix_len(s@) {
                assert(is_whitespace_char(s@[a as int]));
            }
        }
    }
    if a == len {
        return String::new();
    }
    let mut z: usize = len;
    while z > a && is_space_char(s.get_char(z - 1))
        invariant
            len == s@.len(),
            a < len,
            a <= z <= len,
            !is_whitespace_char(s@[a as int]),
            forall|i: int| z <= i < len ==> is_whitespace_char(#[trigger] s@[i]),
        decreases z,
    {
        z -= 1;
    }
    proof {
        assert(z == s@.len() - ws_suffix_len(s@)) by {
            lemma_ws_suffix(s@);
            if z < s@.len() - ws_suffix_len(s@) {
                assert(is_whitespace_char(s@[z - 1]));
            } else if z > s@.len() - ws_suffix_len(s@) {
                assert(is_whitespace_char(s@[z - 1]));
            }
        }
    }
    let t = s.substring_char(a, z);
    t.to_owned()
}

/// Whether two strings hold the same characters.
pub fn str_eq(a: &str, b: &str) -> (r: bool)
    ensures
        r == (a@ == b@),
{
    proof {
        broadcast use vstd::utf8::encode_utf8_decode_utf8;

    }
    let ab = a.as_bytes();
    let bb = b.as_bytes();
    if ab.len() != bb.len() {
        return false;
    }
    let n = ab.len();
    let mut i: usize = 0;
    while i < n
        invariant
            n == ab@.len() == bb@.len(),
            ab@ == a.spec_bytes(),
            bb@ == b.spec_bytes(),
            i <= n,
            forall|j: int| 0 <= j < i ==> ab@[j] == bb@[j],
        decreases n - i,
    {
        if ab[i] != bb[i] {
            return false;
        }
        i += 1;
    }
    proof {
        broadcast use vstd::utf8::encode_utf8_decode_utf8;

        assert(a.spec_bytes() =~= b.spec_bytes());
        assert(a@ == vstd::utf8::decode_utf8(a.spec_bytes()));
        assert(b@ == vstd::utf8::decode_utf8(b.spec_bytes()));
    }
    true
}

/// The result of Unicode-lowercasing a sequence of characters; it depends on
/// the characters alone.
pub uninterp spec fn lower_of(s: Seq<char>) -> Seq<char>;

/// Relies on str::to_lowercase: lowercases according to the Unicode
/// `Lowercase` property; the result depends only on the input characters,
/// and an empty string stays empty.
#[verifier::external_body]
fn to_lower(s: &str) -> (r: String)
    ensures
        r@ == lower_of(s@),
        s@.len() == 0 ==> r@.len() == 0,
{
    s.to_lowercase()
}


/// Configuration of the embedding and semantic-search subsystem.
///
/// `min_similarity` is a similarity threshold in thousandths: `300` stands
/// for a similarity of 0.300.
#[derive(Debug, Clone)]
pub struct EmbeddingConfig {
    /// Whether the embedding subsystem is enabled.
    pub enabled: bool,
    /// The embedding provider: "openrouter" or "ollama".
    pub provider: String,
    /// The model identifier, e.g. "qwen/qwen3-embedding-8b".
    pub model: String,
    /// The API key, required by the remote provider.
    pub api_key: Option<String>,
    /// The base URL of the provider's API.
    pub api_url: String,
    /// The length of every embedding vector the model produces.
    pub dimension: usize,
    /// Whether the embedding cache is enabled.
    pub cache_enabled: bool,
    /// Upper bound on the estimated tokens per chunk.
    pub max_chunk_tokens: usize,
    /// Tokens shared between consecutive chunks.
    pub overlap_tokens: usize,
    /// Minimum similarity for a match, in thousandths (0 ..= 1000).
    pub min_similarity: u32,
}

impl Default for EmbeddingConfig {
    /// The remote provider against OpenRouter's API, with the
    /// qwen3-embedding-8b model and its 4096-dimensional vectors.
    fn default() -> (r: Self)
        ensures
            r.enabled == true,
            r.provider@ == "openrouter"@,
            r.model@ == "qwen/qwen3-embedding-8b"@,
            r.api_key is None,
            r.api_url@ == "https://openrouter.ai/api/v1"@,
            r.dimension == 4096,
            r.cache_enabled == true,
            r.max_chunk_tokens == 512,
            r.overlap_tokens == 50,
            r.min_similarity == 300,
    {
        EmbeddingConfig {
            enabled: true,
            provider: String::from_str("openrouter"),
            model: String::from_str("qwen/qwen3-embedding-8b"),
            api_key: None,
            api_url: String::from_str("https://openrouter.ai/api/v1"),
            dimension: 4096,
            cache_enabled: true,
            max_chunk_tokens: 512,
            overlap_tokens: 50,
            min_similarity: 300,
        }
    }
}

impl EmbeddingConfig {
    /// A configuration with the default values.
    pub fn new() -> (r: Self)
        ensures
            r.enabled == true,
            r.provider@ == "openrouter"@,
            r.model@ == "qwen/qwen3-embedding-8b"@,
            r.api_key is None,
            r.api_url@ == "https://openrouter.ai/api/v1"@,
            r.dimension == 4096,
            r.cache_enabled == true,
            r.max_chunk_tokens == 512,
            r.overlap_tokens == 50,
            r.min_similarity == 300,
    {
        Self::default()
    }

    /// Whether the configuration can be used: it is enabled, the remote
    /// provider has an API key, the model is named, and the dimension is in
    /// range.
    pub open spec fn spec_is_valid(self) -> bool {
        &&& self.enabled
        &&& (self.provider@ == "openrouter"@ ==> self.api_key is Some)
        &&& self.model@.len() > 0
        &&& 1 <= self.dimension <= 4096
    }

    /// Whether the configuration can be used.
    pub fn is_valid(&self) -> (r: bool)
        ensures
            r == self.spec_is_valid(),
    {
        if !self.enabled {
            return false;
        }
        if str_eq(self.provider.as_str(), "openrouter") && self.api_key.is_none() {
            return false;
        }
        if self.model.as_str().is_empty() {
            return false;
        }
        if self.dimension == 0 || self.dimension > 4096 {
            return false;
        }
        true
    }

    /// The full embeddings endpoint for the configured provider.
    pub fn get_embeddings_endpoint(&self) -> (r: String)
        ensures
            r@ == self.api_url@ + if self.provider@ == "ollama"@ {
                "/api/embeddings"@
            } else {
                "/embeddings"@
            },
    {
        let mut url = self.api_url.clone();
        if str_eq(self.provider.as_str(), "ollama") {
            url.append("/api/embeddings");
        } else {
            url.append("/embeddings");
        }
        url
    }
}


impl EmbeddingConfig {
    /// Normalize and check the configuration.
    ///
    /// The model, provider and API URL are trimmed and the provider is
    /// lowercased, whether or not the check succeeds.  The first structural
    /// problem is reported: an unsupported provider, a zero dimension, a zero
    /// chunk size, an overlap at least as large as the chunk size, or a
    /// similarity threshold above 1000 thousandths.
    pub fn validate(&mut self) -> (r: Result<(), String>)
        ensures
            final(self).model@ == spec_trim(old(self).model@),
            final(self).provider@ == lower_of(spec_trim(old(self).provider@)),
            final(self).api_url@ == spec_trim(old(self).api_url@),
            final(self).enabled == old(self).enabled,
            final(self).api_key == old(self).api_key,
            final(self).dimension == old(self).dimension,
            final(self).cache_enabled == old(self).cache_enabled,
            final(self).max_chunk_tokens == old(self).max_chunk_tokens,
            final(self).overlap_tokens == old(self).overlap_tokens,
            final(self).min_similarity == old(self).min_similarity,
            ({
                let p = lower_of(spec_trim(old(self).provider@));
                let supported = p == "openrouter"@ || p == "ollama"@;
                &&& (r is Ok <==> supported && old(self).dimension != 0 && old(
                    self,
                ).max_chunk_tokens != 0 && old(self).overlap_tokens < old(self).max_chunk_tokens
                    && old(self).min_similarity <= 1000)
                &&& (!supported ==> r is Err && r->Err_0@ == "Proveedor no soportado: "@ + p)
                &&& (supported && old(self).dimension == 0 ==> r is Err && r->Err_0@
                    == "La dimensi\u{f3}n debe ser mayor que 0"@)
                &&& (supported && old(self).dimension != 0 && old(self).max_chunk_tokens == 0
                    ==> r is Err && r->Err_0@ == "max_chunk_tokens debe ser mayor que 0"@)
                &&& (supported && old(self).dimension != 0 && old(self).max_chunk_tokens != 0
                    && old(self).overlap_tokens >= old(self).max_chunk_tokens ==> r is Err
                    && r->Err_0@ == "overlap_tokens debe ser menor que max_chunk_tokens"@)
                &&& (supported && old(self).dimension != 0 && old(self).max_chunk_tokens != 0
                    && old(self).overlap_tokens < old(self).max_chunk_tokens && old(
                    self,
                ).min_similarity > 1000 ==> r is Err && r->Err_0@
                    == "min_similarity debe estar entre 0 y 1000"@)
            }),
    {
        let tm = trimmed(self.model.as_str());
        self.model = tm;
        let tp = trimmed(self.provider.as_str());
        self.provider = to_lower(tp.as_str());
        let tu = trimmed(self.api_url.as_str());
        self.api_url = tu;
        let supported = str_eq(self.provider.as_str(), "openrouter") || str_eq(
            self.provider.as_str(),
            "ollama",
        );
        if !supported {
            let mut m = String::from_str("Proveedor no soportado: ");
            m.append(self.provider.as_str());
            return Err(m);
        }
        if self.dimension == 0 {
            return Err(String::from_str("La dimensi\u{f3}n debe ser mayor que 0"));
        }
        if self.max_chunk_tokens == 0 {
            return Err(String::from_str("max_chunk_tokens debe ser mayor que 0"));
        }
        if self.overlap_tokens >= self.max_chunk_tokens {
            return Err(String::from_str("overlap_tokens debe ser menor que max_chunk_tokens"));
        }
        if self.min_similarity > 1000 {
            return Err(String::from_str("min_similarity debe estar entre 0 y 1000"));
        }
        Ok(())
    }
}

/// Counters accumulated while reindexing a collection of notes.
#[derive(Debug, Clone)]
pub struct IndexStats {
    /// How many notes the run set out to index.
    pub total_notes: usize,
    /// How many notes were indexed.
    pub indexed_notes: usize,
    /// How many chunks the indexed notes produced.
    pub total_chunks: usize,
    /// The estimated tokens over all indexed notes.
    pub total_tokens: usize,
    /// How many notes were skipped.
    pub skipped_notes: usize,
    /// The errors encountered, one message per failed note.
    pub errors: Vec<String>,
}

impl Default for IndexStats {
    /// All counters at zero and no errors.
    fn default() -> (r: Self)
        ensures
            r.total_notes == 0,
            r.indexed_notes == 0,
            r.total_chunks == 0,
            r.total_tokens == 0,
            r.skipped_notes == 0,
            r.errors@.len() == 0,
    {
        IndexStats {
            total_notes: 0,
            indexed_notes: 0,
            total_chunks: 0,
            total_tokens: 0,
            skipped_notes: 0,
            errors: Vec::new(),
        }
    }
}

impl IndexStats {
    /// All counters at zero and no errors.
    pub fn new() -> (r: Self)
        ensures
            r.total_notes == 0,
            r.indexed_notes == 0,
            r.total_chunks == 0,
            r.total_tokens == 0,
            r.skipped_notes == 0,
            r.errors@.len() == 0,
    {
        Self::default()
    }

    /// Record one indexed note with its chunk and token counts.
    pub fn add_note(&mut self, chunks: usize, tokens: usize)
        requires
            old(self).indexed_notes < usize::MAX,
            old(self).total_chunks + chunks <= usize::MAX,
            old(self).total_tokens + tokens <= usize::MAX,
        ensures
            final(self).indexed_notes == old(self).indexed_notes + 1,
            final(self).total_chunks == old(self).total_chunks + chunks,
            final(self).total_tokens == old(self).total_tokens + tokens,
            final(self).total_notes == old(self).total_notes,
            final(self).skipped_notes == old(self).skipped_notes,
            final(self).errors == old(self).errors,
    {
        self.indexed_notes = self.indexed_notes + 1;
        self.total_chunks = self.total_chunks + chunks;
        self.total_tokens = self.total_tokens + tokens;
    }

    /// Record one failed note.
    pub fn add_error(&mut self, error: String)
        ensures
            final(self).errors@ == old(self).errors@.push(error),
            final(self).total_notes == old(self).total_notes,
            final(self).indexed_notes == old(self).indexed_notes,
            final(self).total_chunks == old(self).total_chunks,
            final(self).total_tokens == old(self).total_tokens,
            final(self).skipped_notes == old(self).skipped_notes,
    {
        self.errors.push(error);
    }

    /// Record one skipped note.
    pub fn skip_note(&mut self)
        requires
            old(self).skipped_notes < usize::MAX,
        ensures
            final(self).skipped_notes == old(self).skipped_notes + 1,
            final(self).total_notes == old(self).total_notes,
            final(self).indexed_notes == old(self).indexed_notes,
            final(self).total_chunks == old(self).total_chunks,
            final(self).total_tokens == old(self).total_tokens,
            final(self).errors == old(self).errors,
    {
        self.skipped_notes = self.skipped_notes + 1;
    }
}

} // verus!
