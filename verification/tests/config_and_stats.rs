use notnative::embedding_config::{EmbeddingConfig, IndexStats};

#[test]
fn test_default_config() {
    let config = EmbeddingConfig::default();
    assert_eq!(config.enabled, true);
    assert_eq!(config.provider, "openrouter");
    assert_eq!(config.dimension, 4096);
}

#[test]
fn test_config_validation() {
    let mut config = EmbeddingConfig::default();
    config.enabled = true;

    // Without an API key the OpenRouter configuration is invalid.
    assert!(!config.is_valid());

    // With an API key it is valid.
    config.api_key = Some("test-key".to_string());
    assert!(config.is_valid());
}

#[test]
fn test_validate_method() {
    let mut config = EmbeddingConfig::default();
    config.provider = " OpenRouter ".to_string();
    config.model = " qwen/test ".to_string();

    assert!(config.validate().is_ok());
    assert_eq!(config.provider, "openrouter");
    assert_eq!(config.model, "qwen/test");
}

#[test]
fn test_invalid_dimension() {
    let mut config = EmbeddingConfig::default();
    config.dimension = 0;

    assert!(config.validate().is_err());
}

#[test]
fn test_index_stats() {
    let mut stats = IndexStats::new();
    stats.total_notes = 10;
    stats.add_note(5, 100);
    stats.add_note(3, 80);
    stats.skip_note();

    assert_eq!(stats.indexed_notes, 2);
    assert_eq!(stats.total_chunks, 8);
    assert_eq!(stats.total_tokens, 180);
    assert_eq!(stats.skipped_notes, 1);
    let success_rate = (stats.indexed_notes as f32 / stats.total_notes as f32) * 100.0;
    assert_eq!(success_rate, 20.0);
}

#[test]
fn test_validate_unsupported_provider() {
    let mut config = EmbeddingConfig::default();
    config.provider = "acme".to_string();
    let r = config.validate();
    assert_eq!(r, Err("Proveedor no soportado: acme".to_string()));
}

#[test]
fn test_validate_overlap_and_similarity() {
    let mut config = EmbeddingConfig::default();
    config.max_chunk_tokens = 50;
    config.overlap_tokens = 50;
    assert_eq!(
        config.validate(),
        Err("overlap_tokens debe ser menor que max_chunk_tokens".to_string())
    );

    let mut config = EmbeddingConfig::default();
    config.min_similarity = 1001;
    assert_eq!(
        config.validate(),
        Err("min_similarity debe estar entre 0 y 1000".to_string())
    );

    let mut config = EmbeddingConfig::default();
    config.max_chunk_tokens = 0;
    assert_eq!(
        config.validate(),
        Err("max_chunk_tokens debe ser mayor que 0".to_string())
    );
}

#[test]
fn test_embeddings_endpoint() {
    let config = EmbeddingConfig::default();
    assert_eq!(
        config.get_embeddings_endpoint(),
        "https://openrouter.ai/api/v1/embeddings"
    );

    let mut config = EmbeddingConfig::default();
    config.provider = "ollama".to_string();
    config.api_url = "http://localhost:11434".to_string();
    assert_eq!(
        config.get_embeddings_endpoint(),
        "http://localhost:11434/api/embeddings"
    );
}

#[test]
fn test_add_error() {
    let mut stats = IndexStats::new();
    stats.add_error("nota rota".to_string());
    stats.add_error("otra".to_string());
    assert_eq!(stats.errors, vec!["nota rota".to_string(), "otra".to_string()]);
    assert_eq!(stats.indexed_notes, 0);
}
