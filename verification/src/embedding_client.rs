//! The embedding providers and the integrity checks on their responses.
//!
//! The remote provider talks to an OpenAI-compatible embeddings endpoint; a
//! local provider exists as an explicit placeholder.  The network call itself
//! is performed by the surrounding application: this module holds everything
//! that can be decided from plain values -- which provider a configuration
//! selects, how a batch is split, when a failed request is retried and with
//! what delay, and whether a response is complete, correctly ordered and of
//! the right dimension.
//!
//! Embedding vector components are carried as the raw bit patterns of the
//! provider's 32-bit floats; the retrieval logic never does arithmetic on
//! them.

use vstd::prelude::*;

verus! {

use vstd::string::StrSliceExecFns;
use vstd::string::StringExecFns;

use crate::embedding_config::EmbeddingConfig;

/// The decimal digit character for `d`.
pub open spec fn digit_char(d: nat) -> char
    recommends
        d < 10,
{
    if d == 0 {
        '0'
    } else if d == 1 {
        '1'
    } else if d == 2 {
        '2'
    } else if d == 3 {
        '3'
    } else if d == 4 {
        '4'
    } else if d == 5 {
        '5'
    } else if d == 6 {
        '6'
    } else if d == 7 {
        '7'
    } else if d == 8 {
        '8'
    } else {
        '9'
    }
}

/// The decimal representation of `n`, most significant digit first.
pub open spec fn dec_str(n: nat) -> Seq<char>
    decreases n,
{
    if n < 10 {
        seq![digit_char(n)]
    } else {
        dec_str(n / 10).push(digit_char(n % 10))
    }
}

/// The single decimal digit `d` as a string.
fn digit_str(d: usize) -> (r: &'static str)
    requires
        d < 10,
    ensures
        r@ == seq![digit_char(d as nat)],
{
    proof {
        reveal_strlit("0");
        reveal_strlit("1");
        reveal_strlit("2");
        reveal_strlit("3");
        reveal_strlit("4");
        reveal_strlit("5");
        reveal_strlit("6");
        reveal_strlit("7");
        reveal_strlit("8");
        reveal_strlit("9");
    }
    let r = if d == 0 {
        "0"
    } else if d == 1 {
        "1"
    } else if d == 2 {
        "2"
    } else if d == 3 {
        "3"
    } else if d == 4 {
        "4"
    } else if d == 5 {
        "5"
    } else if d == 6 {
        "6"
    } else if d == 7 {
        "7"
    } else if d == 8 {
        "8"
    } else {
        "9"
    };
    proof {
        assert(r@ =~= seq![digit_char(d as nat)]);
    }
    r
}

/// The decimal representation of `n`.
pub fn usize_to_string(n: usize) -> (r: String)
    ensures
        r@ == dec_str(n as nat),
    decreases n,
{
    if n < 10 {
        let d = digit_str(n);
        d.to_owned()
    } else {
        let high = usize_to_string(n / 10);
        let low = digit_str(n % 10);
        let r = high.concat(low);
        proof {
            assert(r@ =~= dec_str(n as nat));
        }
        r
    }
}

/// One item of an embeddings response: a vector and the position of the
/// input it belongs to.  Components are raw bit patterns of 32-bit floats.
#[derive(Debug, Clone, PartialEq, Eq)]
pub struct EmbeddingData {
    /// The embedding vector, one bit pattern per component.
    pub embedding: Vec<u32>,
    /// The position of the input text this vector answers.
    pub index: usize,
}

/// Why an embedding operation failed.
#[derive(Debug, Clone, PartialEq, Eq)]
pub enum EmbeddingError {
    /// The configuration did not pass [`EmbeddingConfig::is_valid`].
    InvalidConfig,
    /// The configuration names a provider this crate does not know.
    UnknownProvider(String),
    /// The remote provider needs an API key and none was given.
    MissingApiKey,
    /// A single-text request came back with no items.
    EmptyResponse,
    /// A batch response held a different number of items than the request.
    BatchCountMismatch { expected: usize, got: usize },
    /// A returned vector's length differs from the configured dimension.
    DimensionMismatch { index: usize, expected: usize, got: usize },
    /// The local provider is a placeholder and cannot embed anything.
    NotImplemented,
    /// The service answered with an error; the message carries its words.
    Provider(String),
    /// The request never reached the service; the message carries the cause.
    Transport(String),
}

impl EmbeddingError {
    /// A human-readable description of the error.
    pub fn message(&self) -> (r: String)
        ensures
            r@ == match self {
                EmbeddingError::InvalidConfig => "Configuraci\u{f3}n de embeddings inv\u{e1}lida"@,
                EmbeddingError::UnknownProvider(p) => "Proveedor desconocido: "@ + p@,
                EmbeddingError::MissingApiKey => "API key de OpenRouter requerida"@,
                EmbeddingError::EmptyResponse => "OpenRouter devolvi\u{f3} respuesta vac\u{ed}a"@,
                EmbeddingError::BatchCountMismatch { expected, got } => (
                "Respuesta batch incompleta: esperaba "@ + dec_str(*expected as nat) + ", obtuvo "@
                    + dec_str(*got as nat)),
                EmbeddingError::DimensionMismatch { index, expected, got } => (
                "Dimensi\u{f3}n incorrecta en \u{ed}ndice "@ + dec_str(*index as nat)
                    + ": esperada "@ + dec_str(*expected as nat) + ", obtenida "@ + dec_str(
                    *got as nat,
                )),
                EmbeddingError::NotImplemented => (
                "Ollama provider no implementado a\u{fa}n. Use 'openrouter' como proveedor."@),
                EmbeddingError::Provider(m) => "OpenRouter error: "@ + m@,
                EmbeddingError::Transport(m) => "Error de conexi\u{f3}n: "@ + m@,
            },
    {
        match self {
            EmbeddingError::InvalidConfig => String::from_str(
                "Configuraci\u{f3}n de embeddings inv\u{e1}lida",
            ),
            EmbeddingError::UnknownProvider(p) => {
                let mut m = String::from_str("Proveedor desconocido: ");
                m.append(p.as_str());
                m
            },
            EmbeddingError::MissingApiKey => String::from_str("API key de OpenRouter requerida"),
            EmbeddingError::EmptyResponse => String::from_str(
                "OpenRouter devolvi\u{f3} respuesta vac\u{ed}a",
            ),
            EmbeddingError::BatchCountMismatch { expected, got } => {
                let mut m = String::from_str("Respuesta batch incompleta: esperaba ");
                let e = usize_to_string(*expected);
                m.append(e.as_str());
                m.append(", obtuvo ");
                let g = usize_to_string(*got);
                m.append(g.as_str());
                m
            },
            EmbeddingError::DimensionMismatch { index, expected, got } => {
                let mut m = String::from_str("Dimensi\u{f3}n incorrecta en \u{ed}ndice ");
                let i = usize_to_string(*index);
                m.append(i.as_str());
                m.append(": esperada ");
                let e = usize_to_string(*expected);
                m.append(e.as_str());
                m.append(", obtenida ");
                let g = usize_to_string(*got);
                m.append(g.as_str());
                m
            },
            EmbeddingError::NotImplemented => String::from_str(
                "Ollama provider no implementado a\u{fa}n. Use 'openrouter' como proveedor.",
            ),
            EmbeddingError::Provider(m0) => {
                let mut m = String::from_str("OpenRouter error: ");
                m.append(m0.as_str());
                m
            },
            EmbeddingError::Transport(m0) => {
                let mut m = String::from_str("Error de conexi\u{f3}n: ");
                m.append(m0.as_str());
                m
            },
        }
    }
}


/// The remote embedding provider, backed by OpenRouter's OpenAI-compatible
/// embeddings endpoint.  It holds what a request needs; the surrounding
/// application owns the HTTP client and performs the call.
#[derive(Debug, Clone)]
pub struct OpenRouterProvider {
    /// The bearer credential sent with every request.
    pub api_key: String,
    /// The model identifier sent with every request.
    pub model: String,
    /// The length every returned vector must have.
    pub dimension: usize,
    /// The base URL of the API.
    pub api_url: String,
}

impl OpenRouterProvider {
    /// A remote provider; the API key must not be empty.  Without an
    /// explicit API URL, OpenRouter's public endpoint is used.
    pub fn new(api_key: String, model: String, dimension: usize, api_url: Option<String>) -> (r:
        Result<Self, EmbeddingError>)
        ensures
            r is Ok <==> api_key@.len() > 0,
            api_key@.len() == 0 ==> r == Err::<Self, EmbeddingError>(
                EmbeddingError::MissingApiKey,
            ),
            api_key@.len() > 0 ==> ({
                let p = r->Ok_0;
                &&& p.api_key == api_key
                &&& p.model == model
                &&& p.dimension == dimension
                &&& (api_url matches Some(u) ==> p.api_url == u)
                &&& (api_url is None ==> p.api_url@ == "https://openrouter.ai/api/v1"@)
            }),
    {
        if api_key.as_str().is_empty() {
            return Err(EmbeddingError::MissingApiKey);
        }
        let url = match api_url {
            Some(u) => u,
            None => String::from_str("https://openrouter.ai/api/v1"),
        };
        Ok(OpenRouterProvider { api_key, model, dimension, api_url: url })
    }

    /// The length of the vectors this provider produces.
    pub fn dimension(&self) -> (r: usize)
        ensures
            r == self.dimension,
    {
        self.dimension
    }

    /// The full URL embedding requests are sent to.
    pub fn embeddings_endpoint(&self) -> (r: String)
        ensures
            r@ == self.api_url@ + "/embeddings"@,
    {
        let mut url = self.api_url.clone();
        url.append("/embeddings");
        url
    }

    /// The provider's name.
    pub fn provider_name(&self) -> (r: &'static str)
        ensures
            r@ == "openrouter"@,
    {
        "openrouter"
    }
}

/// The local embedding provider.  It is a deliberate placeholder: selecting
/// it is a configuration error, and every embedding call fails with an
/// explicit "not implemented" error.
#[derive(Debug, Clone)]
pub struct OllamaProvider {
    /// The model identifier the provider was configured with.
    pub model: String,
    /// The dimension the provider was configured with.
    pub dimension: usize,
    /// The base URL of the local API.
    pub api_url: String,
}

impl OllamaProvider {
    /// A local provider.  Without an explicit API URL, the usual local
    /// endpoint is used.
    pub fn new(model: String, dimension: usize, api_url: Option<String>) -> (r: Result<
        Self,
        EmbeddingError,
    >)
        ensures
            r is Ok,
            ({
                let p = r->Ok_0;
                &&& p.model == model
                &&& p.dimension == dimension
                &&& (api_url matches Some(u) ==> p.api_url == u)
                &&& (api_url is None ==> p.api_url@ == "http://localhost:11434"@)
            }),
    {
        let url = match api_url {
            Some(u) => u,
            None => String::from_str("http://localhost:11434"),
        };
        Ok(OllamaProvider { model, dimension, api_url: url })
    }

    /// Embedding a text always fails: the provider is not implemented.
    pub fn embed_text(&self, _text: &str) -> (r: Result<Vec<u32>, EmbeddingError>)
        ensures
            r == Err::<Vec<u32>, EmbeddingError>(EmbeddingError::NotImplemented),
    {
        Err(EmbeddingError::NotImplemented)
    }

    /// Embedding a batch always fails: the provider is not implemented.
    pub fn embed_batch(&self, _texts: &Vec<String>) -> (r: Result<Vec<Vec<u32>>, EmbeddingError>)
        ensures
            r == Err::<Vec<Vec<u32>>, EmbeddingError>(EmbeddingError::NotImplemented),
    {
        Err(EmbeddingError::NotImplemented)
    }

    /// The dimension the provider was configured with.
    pub fn dimension(&self) -> (r: usize)
        ensures
            r == self.dimension,
    {
        self.dimension
    }

    /// The provider's name.
    pub fn provider_name(&self) -> (r: &'static str)
        ensures
            r@ == "ollama"@,
    {
        "ollama"
    }
}

/// The closed set of embedding providers a configuration can select.
#[derive(Debug, Clone)]
pub enum EmbeddingProvider {
    /// The remote provider.
    OpenRouter(OpenRouterProvider),
    /// The local placeholder provider.
    Ollama(OllamaProvider),
}

impl EmbeddingProvider {
    /// The length of the vectors this provider produces.
    pub fn dimension(&self) -> (r: usize)
        ensures
            r == (match self {
                EmbeddingProvider::OpenRouter(p) => p.dimension,
                EmbeddingProvider::Ollama(p) => p.dimension,
            }),
    {
        match self {
            EmbeddingProvider::OpenRouter(p) => p.dimension(),
            EmbeddingProvider::Ollama(p) => p.dimension(),
        }
    }

    /// The provider's name.
    pub fn provider_name(&self) -> (r: &'static str)
        ensures
            r@ == (match self {
                EmbeddingProvider::OpenRouter(p) => "openrouter"@,
                EmbeddingProvider::Ollama(p) => "ollama"@,
            }),
    {
        match self {
            EmbeddingProvider::OpenRouter(p) => p.provider_name(),
            EmbeddingProvider::Ollama(p) => p.provider_name(),
        }
    }
}

/// The client façade: a validated configuration and the provider it
/// selected.
#[derive(Debug, Clone)]
pub struct EmbeddingClient {
    provider: EmbeddingProvider,
    config: EmbeddingConfig,
}

impl EmbeddingClient {
    /// The provider the configuration selected (specification view).
    pub closed spec fn spec_provider(self) -> EmbeddingProvider {
        self.provider
    }

    /// The configuration in use (specification view).
    pub closed spec fn spec_config(self) -> EmbeddingConfig {
        self.config
    }

    /// Validate the configuration and select its provider.
    ///
    /// Construction succeeds exactly when the configuration is valid and
    /// names a known provider whose requirements are met: the remote
    /// provider needs a non-empty API key, the local one takes anything.
    pub fn new(config: EmbeddingConfig) -> (r: Result<Self, EmbeddingError>)
        ensures
            ({
                let p = config.provider@;
                let key_ok = config.api_key matches Some(k) && k@.len() > 0;
                &&& (r is Ok <==> config.spec_is_valid() && ((p == "openrouter"@ && key_ok) || (p
                    != "openrouter"@ && p == "ollama"@)))
                &&& (!config.spec_is_valid() ==> r == Err::<Self, EmbeddingError>(
                    EmbeddingError::InvalidConfig,
                ))
                &&& (config.spec_is_valid() && p == "openrouter"@ && !key_ok ==> r == Err::<
                    Self,
                    EmbeddingError,
                >(EmbeddingError::MissingApiKey))
                &&& (config.spec_is_valid() && p != "openrouter"@ && p != "ollama"@ ==> r is Err
                    && (r->Err_0 matches EmbeddingError::UnknownProvider(q) && q@ == p))
                &&& (r is Ok ==> ({
                    let c = r->Ok_0;
                    &&& c.spec_config() == config
                    &&& (p == "openrouter"@ ==> (c.spec_provider() matches
                        EmbeddingProvider::OpenRouter(o) && o.api_key == config.api_key->0
                        && o.model == config.model && o.dimension == config.dimension
                        && o.api_url == config.api_url))
                    &&& (p == "ollama"@ ==> (c.spec_provider() matches
                        EmbeddingProvider::Ollama(o) && o.model == config.model && o.dimension
                        == config.dimension && o.api_url == config.api_url))
                }))
            }),
    {
        proof {
            broadcast use vstd::string::group_string_axioms;

            reveal_strlit("openrouter");
            reveal_strlit("ollama");
        }
        if !config.is_valid() {
            return Err(EmbeddingError::InvalidConfig);
        }
        let provider: EmbeddingProvider = if crate::embedding_config::str_eq(
            config.provider.as_str(),
            "openrouter",
        ) {
            let key = match &config.api_key {
                Some(k) => k.clone(),
                None => String::new(),
            };
            match OpenRouterProvider::new(
                key,
                config.model.clone(),
                config.dimension,
                Some(config.api_url.clone()),
            ) {
                Ok(p) => EmbeddingProvider::OpenRouter(p),
                Err(e) => {
                    return Err(e);
                },
            }
        } else if crate::embedding_config::str_eq(config.provider.as_str(), "ollama") {
            match OllamaProvider::new(
                config.model.clone(),
                config.dimension,
                Some(config.api_url.clone()),
            ) {
                Ok(p) => EmbeddingProvider::Ollama(p),
                Err(e) => {
                    return Err(e);
                },
            }
        } else {
            return Err(EmbeddingError::UnknownProvider(config.provider.clone()));
        };
        proof {
            assert("openrouter"@.len() == 10);
            assert("ollama"@.len() == 6);
        }
        Ok(EmbeddingClient { provider, config })
    }

    /// The configuration in use.
    pub fn config(&self) -> (r: &EmbeddingConfig)
        ensures
            *r == self.spec_config(),
    {
        &self.config
    }

    /// The provider in use.
    pub fn provider(&self) -> (r: &EmbeddingProvider)
        ensures
            *r == self.spec_provider(),
    {
        &self.provider
    }

    /// The length of the vectors the selected provider produces.
    pub fn dimension(&self) -> (r: usize)
        ensures
            r == (match self.spec_provider() {
                EmbeddingProvider::OpenRouter(p) => p.dimension,
                EmbeddingProvider::Ollama(p) => p.dimension,
            }),
    {
        self.provider.dimension()
    }
}


/// The largest number of texts sent in one embeddings request; larger
/// batches are split into consecutive sub-batches of at most this size.
pub const MAX_BATCH_SIZE: usize = 100;

/// The consecutive sub-batches in which `n` inputs are sent: each span is at
/// most [`MAX_BATCH_SIZE`] long, they tile `0..n` in order, and their
/// results, concatenated in span order, line up with the inputs.
pub fn batch_spans(n: usize) -> (r: Vec<(usize, usize)>)
    ensures
        n == 0 ==> r@.len() == 0,
        n > 0 ==> r@.len() >= 1 && r@[0].0 == 0 && r@[r@.len() - 1].1 == n,
        forall|i: int|
            0 <= i < r@.len() ==> (#[trigger] r@[i]).0 < r@[i].1 && r@[i].1 - r@[i].0
                <= MAX_BATCH_SIZE,
        forall|i: int| 0 <= i < r@.len() - 1 ==> (#[trigger] r@[i]).1 == r@[i + 1].0,
{
    let mut r: Vec<(usize, usize)> = Vec::new();
    let mut s: usize = 0;
    while s < n
        invariant
            s <= n,
            s == 0 ==> r@.len() == 0,
            s > 0 ==> r@.len() >= 1 && r@[0].0 == 0 && r@[r@.len() - 1].1 == s,
            forall|i: int|
                0 <= i < r@.len() ==> (#[trigger] r@[i]).0 < r@[i].1 && r@[i].1 - r@[i].0
                    <= MAX_BATCH_SIZE,
            forall|i: int| 0 <= i < r@.len() - 1 ==> (#[trigger] r@[i]).1 == r@[i + 1].0,
        decreases n - s,
    {
        let e = if n - s < MAX_BATCH_SIZE {
            n
        } else {
            s + MAX_BATCH_SIZE
        };
        r.push((s, e));
        s = e;
    }
    r
}

/// The retry schedule for requests to the embedding service: a bounded
/// number of retries with exponential backoff, the delay starting at 500
/// milliseconds and doubling after every retryable failure.
#[derive(Debug, Clone)]
pub struct BackoffState {
    /// How many retries have been spent.
    pub retries: u32,
    /// How many retries may be spent in all.
    pub max_retries: u32,
    /// The delay before the next retry, in milliseconds.
    pub delay_ms: u64,
}

impl BackoffState {
    /// The state is consistent: the delay is 500ms doubled once per spent
    /// retry, and the retry budget is small enough that the delay cannot
    /// overflow.
    pub open spec fn wf(self) -> bool {
        &&& self.retries <= self.max_retries
        &&& self.max_retries <= 32
        &&& self.delay_ms == 500 * vstd::arithmetic::power2::pow2(self.retries as nat)
    }

    /// A fresh schedule with the given retry budget.
    pub fn new(max_retries: u32) -> (r: Self)
        requires
            max_retries <= 32,
        ensures
            r.wf(),
            r.retries == 0,
            r.max_retries == max_retries,
            r.delay_ms == 500,
    {
        proof {
            vstd::arithmetic::power2::lemma2_to64();
        }
        BackoffState { retries: 0, max_retries, delay_ms: 500 }
    }

    /// React to a retryable failure: if the budget allows another attempt,
    /// the delay to sleep before it is returned and the schedule advances
    /// (the next delay doubles); otherwise the caller must give up.
    pub fn on_retryable_failure(&mut self) -> (r: Option<u64>)
        requires
            old(self).wf(),
        ensures
            final(self).wf(),
            final(self).max_retries == old(self).max_retries,
            old(self).retries < old(self).max_retries ==> r == Some(old(self).delay_ms)
                && final(self).retries == old(self).retries + 1 && final(self).delay_ms == 2 * old(
                self,
            ).delay_ms,
            old(self).retries >= old(self).max_retries ==> r is None && *final(self) == *old(self),
    {
        proof {
            vstd::arithmetic::power2::lemma2_to64();
            vstd::arithmetic::power2::lemma2_to64_rest();
        }
        if self.retries < self.max_retries {
            let d = self.delay_ms;
            proof {
                broadcast use vstd::arithmetic::power2::lemma_pow2_unfold;
                broadcast use vstd::arithmetic::power2::lemma_pow2_strictly_increases;

                assert(vstd::arithmetic::power2::pow2((self.retries + 1) as nat) == 2
                    * vstd::arithmetic::power2::pow2(self.retries as nat));
                if (self.retries + 1) < 33 {
                    if (self.retries + 1) < 32 {
                        vstd::arithmetic::power2::lemma_pow2_strictly_increases(
                            (self.retries + 1) as nat,
                            32,
                        );
                    }
                    assert(vstd::arithmetic::power2::pow2(32) == 0x100000000);
                }
            }
            self.retries = self.retries + 1;
            self.delay_ms = self.delay_ms * 2;
            Some(d)
        } else {
            None
        }
    }
}

/// Whether an HTTP status calls for a retry: rate limiting and server
/// errors do, every other status is terminal.
pub fn status_is_retryable(status: u16) -> (r: bool)
    ensures
        r == (status == 429 || (500 <= status && status < 600)),
{
    status == 429 || (500 <= status && status < 600)
}


/// In a sequence sorted by `index` whose indices are distinct and all below
/// its length, the item at position `i` has index exactly `i`.
proof fn lemma_sorted_distinct_indices(s: Seq<EmbeddingData>, i: int)
    requires
        forall|a: int, b: int| 0 <= a < b < s.len() ==> s[a].index <= s[b].index,
        forall|a: int, b: int| 0 <= a < b < s.len() ==> s[a].index != s[b].index,
        forall|a: int| 0 <= a < s.len() ==> (#[trigger] s[a]).index < s.len(),
        0 <= i < s.len(),
    ensures
        s[i].index == i,
    decreases s.len() - i,
{
    lemma_sorted_distinct_lower(s, i);
    if i < s.len() - 1 {
        lemma_sorted_distinct_indices(s, i + 1);
    }
}

/// In such a sequence the item at position `i` has index at least `i`.
proof fn lemma_sorted_distinct_lower(s: Seq<EmbeddingData>, i: int)
    requires
        forall|a: int, b: int| 0 <= a < b < s.len() ==> s[a].index <= s[b].index,
        forall|a: int, b: int| 0 <= a < b < s.len() ==> s[a].index != s[b].index,
        0 <= i < s.len(),
    ensures
        s[i].index >= i,
    decreases i,
{
    if i > 0 {
        lemma_sorted_distinct_lower(s, i - 1);
    }
}

/// The items sorted by ascending `index`: a reordering (a permutation) of
/// the input.
fn sort_by_index(data: Vec<EmbeddingData>) -> (r: Vec<EmbeddingData>)
    ensures
        r@.len() == data@.len(),
        r@.to_multiset() == data@.to_multiset(),
        forall|a: int, b: int| 0 <= a < b < r@.len() ==> r@[a].index <= r@[b].index,
{
    proof {
        broadcast use vstd::seq_lib::group_to_multiset_ensures;

    }
    let mut rest = data;
    let mut out: Vec<EmbeddingData> = Vec::new();
    let ghost orig = rest@;
    while rest.len() > 0
        invariant
            out@.len() + rest@.len() == orig.len(),
            out@.to_multiset().add(rest@.to_multiset()) =~= orig.to_multiset(),
            forall|a: int, b: int| 0 <= a < b < out@.len() ==> out@[a].index <= out@[b].index,
            forall|a: int, b: int|
                0 <= a < out@.len() && 0 <= b < rest@.len() ==> out@[a].index <= rest@[b].index,
        decreases rest@.len(),
    {
        let mut mi: usize = 0;
        let mut k: usize = 1;
        while k < rest.len()
            invariant
                rest@.len() > 0,
                mi < k <= rest@.len(),
                forall|t: int| 0 <= t < k ==> rest@[mi as int].index <= (#[trigger] rest@[t]).index,
            decreases rest@.len() - k,
        {
            if rest[k].index < rest[mi].index {
                mi = k;
            }
            k += 1;
        }
        let ghost old_rest = rest@;
        let ghost old_out = out@;
        let item = rest.remove(mi);
        proof {
            broadcast use vstd::seq_lib::group_to_multiset_ensures;

            assert(rest@.to_multiset() =~= old_rest.to_multiset().remove(item));
            assert(old_rest.to_multiset().count(item) > 0);
            assert forall|b: int| 0 <= b < rest@.len() implies item.index <= (
            #[trigger] rest@[b]).index by {
                if b < mi {
                    assert(rest@[b] == old_rest[b]);
                } else {
                    assert(rest@[b] == old_rest[b + 1]);
                }
            }
        }
        out.push(item);
        proof {
            broadcast use vstd::seq_lib::group_to_multiset_ensures;

            assert(out@.to_multiset() =~= old_out.to_multiset().insert(item));
            assert(out@.to_multiset().add(rest@.to_multiset()) =~= orig.to_multiset());
            assert(forall|a: int|
                0 <= a < old_out.len() ==> out@[a] == (#[trigger] old_out[a]));
        }
    }
    out
}

impl OpenRouterProvider {
    /// Check a single-text response: it must hold at least one item, and
    /// that item's vector must have the configured dimension; the first
    /// item's vector is the result.
    pub fn check_single_response(&self, data: &Vec<EmbeddingData>) -> (r: Result<
        Vec<u32>,
        EmbeddingError,
    >)
        ensures
            data@.len() == 0 ==> r == Err::<Vec<u32>, EmbeddingError>(
                EmbeddingError::EmptyResponse,
            ),
            data@.len() > 0 && data@[0].embedding@.len() != self.dimension ==> r == Err::<
                Vec<u32>,
                EmbeddingError,
            >(
                EmbeddingError::DimensionMismatch {
                    index: 0,
                    expected: self.dimension,
                    got: data@[0].embedding@.len() as usize,
                },
            ),
            data@.len() > 0 && data@[0].embedding@.len() == self.dimension ==> r is Ok
                && r->Ok_0@ == data@[0].embedding@,
    {
        if data.len() == 0 {
            return Err(EmbeddingError::EmptyResponse);
        }
        let first = &data[0];
        if first.embedding.len() != self.dimension {
            return Err(
                EmbeddingError::DimensionMismatch {
                    index: 0,
                    expected: self.dimension,
                    got: first.embedding.len(),
                },
            );
        }
        Ok(first.embedding.clone())
    }

    /// Check a batch response against the request that produced it.
    ///
    /// The item count must equal the number of inputs (a silent truncation
    /// fails the whole call), every vector must have the configured
    /// dimension (a single mismatch fails the whole call, no partial
    /// results), and the items are reordered by their index field before the
    /// vectors are extracted: the transport may deliver items out of order,
    /// and the index field, not arrival order, says which input a vector
    /// answers.  When the response carries each input's index exactly once,
    /// the vector for input `j` therefore comes out at position `j`.
    #[verifier::rlimit(100)]
    pub fn check_batch_response(&self, expected: usize, data: Vec<EmbeddingData>) -> (r: Result<
        Vec<Vec<u32>>,
        EmbeddingError,
    >)
        ensures
            data@.len() != expected ==> r == Err::<Vec<Vec<u32>>, EmbeddingError>(
                EmbeddingError::BatchCountMismatch { expected, got: data@.len() as usize },
            ),
            r is Ok ==> r->Ok_0@.len() == expected,
            r is Ok ==> forall|j: int|
                0 <= j < data@.len() ==> (#[trigger] data@[j]).embedding@.len() == self.dimension,
            data@.len() == expected && (exists|j: int|
                0 <= j < data@.len() && (#[trigger] data@[j]).embedding@.len() != self.dimension)
                ==> r is Err,
            r is Err ==> data@.len() != expected || (exists|j: int|
                0 <= j < data@.len() && (#[trigger] data@[j]).embedding@.len() != self.dimension),
            ({
                let distinct = (forall|a: int, b: int|
                    0 <= a < b < data@.len() ==> data@[a].index != data@[b].index);
                let in_range = (forall|j: int|
                    0 <= j < data@.len() ==> (#[trigger] data@[j]).index < data@.len());
                let dims_ok = (forall|j: int|
                    0 <= j < data@.len() ==> (#[trigger] data@[j]).embedding@.len()
                        == self.dimension);
                data@.len() == expected && distinct && in_range && dims_ok ==> r is Ok && (forall|
                    j: int,
                |
                    0 <= j < data@.len() ==> r->Ok_0@[(#[trigger] data@[j]).index as int]@
                        == data@[j].embedding@)
            }),
    {
        proof {
            broadcast use vstd::seq_lib::group_to_multiset_ensures;

        }
        if data.len() != expected {
            return Err(EmbeddingError::BatchCountMismatch { expected, got: data.len() });
        }
        let ghost dv = data@;
        let sorted = sort_by_index(data);
        let mut out: Vec<Vec<u32>> = Vec::new();
        let mut i: usize = 0;
        while i < sorted.len()
            invariant
                i == out@.len() <= sorted@.len(),
                dv == data@,
                dv.len() == expected,
                sorted@.len() == dv.len(),
                sorted@.to_multiset() == dv.to_multiset(),
                forall|t: int|
                    0 <= t < i ==> (#[trigger] sorted@[t]).embedding@.len() == self.dimension,
                forall|t: int| 0 <= t < i ==> (#[trigger] out@[t])@ == sorted@[t].embedding@,
            decreases sorted@.len() - i,
        {
            let item = &sorted[i];
            if item.embedding.len() != self.dimension {
                proof {
                    broadcast use vstd::seq_lib::group_to_multiset_ensures;

                    assert(dv.to_multiset().count(sorted@[i as int]) > 0);
                    assert(dv.contains(sorted@[i as int]));
                    let w = choose|w: int| 0 <= w < dv.len() && dv[w] == sorted@[i as int];
                    assert(dv[w].embedding@.len() != self.dimension);
                }
                return Err(
                    EmbeddingError::DimensionMismatch {
                        index: i,
                        expected: self.dimension,
                        got: item.embedding.len(),
                    },
                );
            }
            out.push(item.embedding.clone());
            i += 1;
        }
        proof {
            broadcast use vstd::seq_lib::group_to_multiset_ensures;

            assert forall|j: int|
                0 <= j < dv.len() implies (#[trigger] dv[j]).embedding@.len()
                == self.dimension by {
                assert(dv.to_multiset().count(dv[j]) > 0);
                assert(sorted@.contains(dv[j]));
                let k = choose|k: int| 0 <= k < sorted@.len() && sorted@[k] == dv[j];
                assert(sorted@[k].embedding@.len() == self.dimension);
            }
            let distinct = (forall|a: int, b: int|
                0 <= a < b < dv.len() ==> dv[a].index != dv[b].index);
            let in_range = (forall|j: int|
                0 <= j < dv.len() ==> (#[trigger] dv[j]).index < dv.len());
            if distinct && in_range {
                assert forall|a: int, b: int|
                    0 <= a < b < sorted@.len() implies sorted@[a].index != sorted@[b].index by {
                    lemma_sorted_permutation_distinct(dv, sorted@);
                }
                assert forall|a: int| 0 <= a < sorted@.len() implies (
                #[trigger] sorted@[a]).index < sorted@.len() by {
                    assert(sorted@.to_multiset().count(sorted@[a]) > 0);
                    assert(dv.contains(sorted@[a]));
                }
                assert forall|j: int|
                    0 <= j < dv.len() implies out@[(#[trigger] dv[j]).index as int]@
                        == dv[j].embedding@ by {
                    assert(dv.to_multiset().count(dv[j]) > 0);
                    assert(sorted@.contains(dv[j]));
                    let k = choose|k: int| 0 <= k < sorted@.len() && sorted@[k] == dv[j];
                    lemma_sorted_distinct_indices(sorted@, k);
                }
            }
        }
        Ok(out)
    }
}

/// Two sequences with the same items where one carries pairwise-distinct
/// indices: the other does too.
proof fn lemma_sorted_permutation_distinct(dv: Seq<EmbeddingData>, sv: Seq<EmbeddingData>)
    requires
        sv.to_multiset() == dv.to_multiset(),
        forall|a: int, b: int| 0 <= a < b < dv.len() ==> dv[a].index != dv[b].index,
    ensures
        forall|a: int, b: int| 0 <= a < b < sv.len() ==> sv[a].index != sv[b].index,
{
    broadcast use vstd::seq_lib::group_to_multiset_ensures;

    assert(dv.no_duplicates()) by {
        assert forall|i: int, j: int|
            0 <= i < dv.len() && 0 <= j < dv.len() && i != j implies dv[i] != dv[j] by {
            if i < j {
                assert(dv[i].index != dv[j].index);
            } else {
                assert(dv[j].index != dv[i].index);
            }
        }
    }
    dv.lemma_multiset_has_no_duplicates();
    sv.lemma_multiset_has_no_duplicates_conv();
    assert forall|a: int, b: int| 0 <= a < b < sv.len() implies sv[a].index != sv[b].index by {
        if sv[a].index == sv[b].index {
            assert(sv[a] != sv[b]);
            assert(sv.to_multiset().count(sv[a]) > 0);
            assert(sv.to_multiset().count(sv[b]) > 0);
            assert(dv.contains(sv[a]));
            assert(dv.contains(sv[b]));
            let x = choose|x: int| 0 <= x < dv.len() && dv[x] == sv[a];
            let y = choose|y: int| 0 <= y < dv.len() && dv[y] == sv[b];
            assert(x != y);
            if x < y {
                assert(dv[x].index != dv[y].index);
            } else {
                assert(dv[y].index != dv[x].index);
            }
        }
    }
}

} // verus!
