use notnative::embedding_client::{
    batch_spans, usize_to_string, BackoffState, EmbeddingClient, EmbeddingData, EmbeddingError,
    OllamaProvider, OpenRouterProvider, status_is_retryable, MAX_BATCH_SIZE,
};
use notnative::embedding_config::EmbeddingConfig;

#[test]
fn test_client_creation() {
    let config = EmbeddingConfig::default();

    // Without an API key the client must be refused.
    let result = EmbeddingClient::new(config);
    assert!(result.is_err());

    // With an API key it must be accepted.
    let mut config = EmbeddingConfig::default();
    config.enabled = true;
    config.api_key = Some("test-key".to_string());
    let result = EmbeddingClient::new(config);
    assert!(result.is_ok());
}

#[test]
fn test_provider_creation() {
    // OpenRouter without an API key must be refused.
    let result = OpenRouterProvider::new(
        "".to_string(),
        "qwen/qwen3-embedding-8b".to_string(),
        1024,
        None,
    );
    assert!(result.is_err());

    // OpenRouter with an API key must be accepted.
    let result = OpenRouterProvider::new(
        "test-key".to_string(),
        "qwen/qwen3-embedding-8b".to_string(),
        1024,
        None,
    );
    assert!(result.is_ok());
}

#[test]
fn test_ollama_not_implemented() {
    let provider = OllamaProvider::new("nomic-embed-text".to_string(), 768, None).unwrap();

    let result = provider.embed_text("test");
    assert!(result.is_err());
    assert!(result.unwrap_err().message().contains("no implementado"));
}

#[test]
fn test_unknown_provider() {
    let mut config = EmbeddingConfig::default();
    config.provider = "acme".to_string();
    config.api_key = Some("test-key".to_string());
    let result = EmbeddingClient::new(config);
    match result {
        Err(EmbeddingError::UnknownProvider(p)) => assert_eq!(p, "acme"),
        other => panic!("expected an unknown-provider error, got {:?}", other),
    }
}

#[test]
fn test_client_dimension() {
    let mut config = EmbeddingConfig::default();
    config.api_key = Some("test-key".to_string());
    config.dimension = 1024;
    let client = EmbeddingClient::new(config).unwrap();
    assert_eq!(client.dimension(), 1024);
    assert_eq!(client.provider().provider_name(), "openrouter");
}

fn remote(dimension: usize) -> OpenRouterProvider {
    OpenRouterProvider::new("test-key".to_string(), "m".to_string(), dimension, None).unwrap()
}

fn item(index: usize, vector: &[u32]) -> EmbeddingData {
    EmbeddingData {
        embedding: vector.to_vec(),
        index,
    }
}

#[test]
fn test_batch_scrambled_order() {
    // Items arriving as c, a, b with correct index fields come out as
    // a, b, c: the index field, not arrival order, is ground truth.
    let provider = remote(2);
    let data = vec![item(2, &[30, 31]), item(0, &[10, 11]), item(1, &[20, 21])];
    let out = provider.check_batch_response(3, data).unwrap();
    assert_eq!(out.len(), 3);
    assert_eq!(out[0], vec![10, 11]);
    assert_eq!(out[1], vec![20, 21]);
    assert_eq!(out[2], vec![30, 31]);
}

#[test]
fn test_batch_count_mismatch() {
    // A response with fewer items than inputs fails the whole call.
    let provider = remote(2);
    let data = vec![item(0, &[10, 11]), item(1, &[20, 21])];
    let r = provider.check_batch_response(3, data);
    match r {
        Err(EmbeddingError::BatchCountMismatch { expected, got }) => {
            assert_eq!(expected, 3);
            assert_eq!(got, 2);
        }
        other => panic!("expected a count mismatch, got {:?}", other),
    }
}

#[test]
fn test_batch_dimension_mismatch() {
    // A single wrong-length vector fails the whole batch.
    let provider = remote(2);
    let data = vec![item(0, &[10, 11]), item(1, &[20, 21, 22]), item(2, &[30, 31])];
    let r = provider.check_batch_response(3, data);
    match r {
        Err(EmbeddingError::DimensionMismatch { expected, got, .. }) => {
            assert_eq!(expected, 2);
            assert_eq!(got, 3);
        }
        other => panic!("expected a dimension mismatch, got {:?}", other),
    }
}

#[test]
fn test_single_response_checks() {
    let provider = remote(3);
    assert_eq!(
        provider.check_single_response(&vec![]),
        Err(EmbeddingError::EmptyResponse)
    );
    let wrong = vec![item(0, &[1, 2])];
    match provider.check_single_response(&wrong) {
        Err(EmbeddingError::DimensionMismatch { expected, got, index }) => {
            assert_eq!((index, expected, got), (0, 3, 2));
        }
        other => panic!("expected a dimension mismatch, got {:?}", other),
    }
    let ok = vec![item(0, &[1, 2, 3])];
    assert_eq!(provider.check_single_response(&ok), Ok(vec![1, 2, 3]));
}

#[test]
fn test_batch_spans_tile() {
    assert!(batch_spans(0).is_empty());
    assert_eq!(batch_spans(1), vec![(0, 1)]);
    assert_eq!(batch_spans(100), vec![(0, 100)]);
    assert_eq!(batch_spans(250), vec![(0, 100), (100, 200), (200, 250)]);
    for (s, e) in batch_spans(1234) {
        assert!(e - s <= MAX_BATCH_SIZE);
    }
}

#[test]
fn test_backoff_schedule() {
    // Three retries with delays 500, 1000, 2000 ms, then giving up.
    let mut b = BackoffState::new(3);
    assert_eq!(b.on_retryable_failure(), Some(500));
    assert_eq!(b.on_retryable_failure(), Some(1000));
    assert_eq!(b.on_retryable_failure(), Some(2000));
    assert_eq!(b.on_retryable_failure(), None);
    assert_eq!(b.on_retryable_failure(), None);
}

#[test]
fn test_retryable_statuses() {
    assert!(status_is_retryable(429));
    assert!(status_is_retryable(500));
    assert!(status_is_retryable(503));
    assert!(status_is_retryable(599));
    assert!(!status_is_retryable(200));
    assert!(!status_is_retryable(400));
    assert!(!status_is_retryable(404));
    assert!(!status_is_retryable(600));
}

#[test]
fn test_error_messages() {
    let e = EmbeddingError::BatchCountMismatch {
        expected: 3,
        got: 2,
    };
    assert_eq!(e.message(), "Respuesta batch incompleta: esperaba 3, obtuvo 2");
    let e = EmbeddingError::DimensionMismatch {
        index: 1,
        expected: 4096,
        got: 12,
    };
    assert_eq!(
        e.message(),
        "Dimensión incorrecta en índice 1: esperada 4096, obtenida 12"
    );
    assert_eq!(
        EmbeddingError::UnknownProvider("acme".to_string()).message(),
        "Proveedor desconocido: acme"
    );
    assert_eq!(
        EmbeddingError::InvalidConfig.message(),
        "Configuración de embeddings inválida"
    );
    assert_eq!(
        EmbeddingError::MissingApiKey.message(),
        "API key de OpenRouter requerida"
    );
    assert_eq!(
        EmbeddingError::EmptyResponse.message(),
        "OpenRouter devolvió respuesta vacía"
    );
    assert_eq!(
        EmbeddingError::Provider("HTTP 404 - not found".to_string()).message(),
        "OpenRouter error: HTTP 404 - not found"
    );
    assert_eq!(
        EmbeddingError::Transport("timeout".to_string()).message(),
        "Error de conexión: timeout"
    );
}

#[test]
fn test_usize_to_string() {
    assert_eq!(usize_to_string(0), "0");
    assert_eq!(usize_to_string(7), "7");
    assert_eq!(usize_to_string(10), "10");
    assert_eq!(usize_to_string(25000), "25000");
}
