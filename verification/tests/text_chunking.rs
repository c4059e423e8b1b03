use notnative::text_chunker::{ChunkConfig, TextChunker};

#[test]
fn test_small_text() {
    let chunker = TextChunker::new();
    let text = "Este es un texto pequeño que no necesita chunking.";

    let chunks = chunker.chunk_text(text).unwrap();
    assert_eq!(chunks.len(), 1);
    assert_eq!(chunks[0].text, text);
    assert_eq!(chunks[0].index, 0);
    assert_eq!(chunks[0].start_pos, 0);
    assert_eq!(chunks[0].end_pos, text.len());
}

#[test]
fn test_empty_text() {
    let chunker = TextChunker::new();
    let text = "";

    let chunks = chunker.chunk_text(text).unwrap();
    assert!(chunks.is_empty());
}

#[test]
fn test_large_text_chunking() {
    let chunker = TextChunker::new();

    let text = "palabra ".repeat(3000);

    let chunks = chunker.chunk_text(&text).unwrap();

    assert!(chunks.len() > 1);

    for (i, chunk) in chunks.iter().enumerate() {
        assert_eq!(chunk.index, i);
    }

    for chunk in &chunks {
        assert!(chunk.token_count <= chunker.config().max_tokens);
    }

    for i in 0..chunks.len() - 1 {
        let current = &chunks[i];
        let next = &chunks[i + 1];

        assert!(current.end_pos > next.start_pos);
    }
}

#[test]
fn test_paragraph_chunking() {
    let chunker = TextChunker::new();

    let text = "Párrafo uno.\n\nPárrafo dos.\n\nPárrafo tres.";

    let chunks = chunker.chunk_by_paragraphs(text).unwrap();

    assert_eq!(chunks.len(), 1);
}

#[test]
fn test_large_paragraph_chunking() {
    let chunker = TextChunker::new();

    let para1 = "palabra ".repeat(300);
    let para2 = "texto ".repeat(300);
    let para3 = "contenido ".repeat(300);

    let text = format!("{}\n\n{}\n\n{}", para1, para2, para3);

    let chunks = chunker.chunk_by_paragraphs(&text).unwrap();

    assert!(chunks.len() >= 2);

    for (i, chunk) in chunks.iter().enumerate() {
        assert_eq!(chunk.index, i);
    }
}

#[test]
fn test_custom_config() {
    let config = ChunkConfig {
        max_tokens: 100,
        overlap_tokens: 10,
        chars_per_token: 5,
    };

    let chunker = TextChunker::with_config(config);

    assert_eq!(chunker.config().max_tokens, 100);
    assert_eq!(chunker.config().overlap_tokens, 10);
    assert_eq!(chunker.config().chars_per_token, 5);
}

#[test]
fn test_token_estimation() {
    let config = ChunkConfig::default();

    let text = "Hola mundo"; // 10 characters
    let estimated = config.estimate_tokens(text);

    // 10 chars / 4 chars_per_token = 2.5 -> ceil = 3 tokens
    assert_eq!(estimated, 3);
}

#[test]
fn test_word_boundary() {
    let chunker = TextChunker::new();

    let text = "Este es un texto largo con muchas palabras para probar el límite de palabras";

    let chunks = chunker.chunk_text(text).unwrap();

    if chunks.len() > 1 {
        for chunk in &chunks {
            if chunk.index < chunks.len() - 1 {
                let last_char = chunk.text.chars().last();
                assert!(last_char.map_or(false, |c| c.is_whitespace() || c.is_ascii_punctuation()));
            }
        }
    }
}

#[test]
fn test_chunk_coverage() {
    let chunker = TextChunker::new();

    let text = "palabra ".repeat(3000);

    let chunks = chunker.chunk_text(&text).unwrap();

    assert_eq!(chunks[0].start_pos, 0);

    assert_eq!(chunks.last().unwrap().end_pos, text.len());

    for i in 0..chunks.len() - 1 {
        let current = &chunks[i];
        let next = &chunks[i + 1];

        assert!(
            next.start_pos < current.end_pos,
            "Chunk {} termina en {} pero chunk {} empieza en {}",
            i,
            current.end_pos,
            i + 1,
            next.start_pos
        );
    }
}

#[test]
fn test_overlap_config_error() {
    // An overlap at least as large as the window must be rejected, never
    // looped on.
    let config = ChunkConfig {
        max_tokens: 10,
        overlap_tokens: 10,
        chars_per_token: 4,
    };
    let chunker = TextChunker::with_config(config);
    let text = "x".repeat(1000);
    let r = chunker.chunk_text(&text);
    assert!(r.is_err());
    assert_eq!(
        r.unwrap_err().message(),
        "Overlap size es igual o mayor que chunk size"
    );

    // A small text is served by a single chunk before the configuration is
    // looked at.
    let config = ChunkConfig {
        max_tokens: 10,
        overlap_tokens: 12,
        chars_per_token: 4,
    };
    let chunker = TextChunker::with_config(config);
    let small = chunker.chunk_text("corto").unwrap();
    assert_eq!(small.len(), 1);
}

#[test]
fn test_sliding_window_scenario() {
    // max_tokens 100, overlap 10, 5 characters per token over a 2000
    // character text: at least two chunks, each within the token bound,
    // adjacent chunks overlapping by 50 characters.
    let config = ChunkConfig {
        max_tokens: 100,
        overlap_tokens: 10,
        chars_per_token: 5,
    };
    let chunker = TextChunker::with_config(config);
    let text = "abcd ".repeat(400); // 2000 characters
    let chunks = chunker.chunk_text(&text).unwrap();

    assert!(chunks.len() >= 2);
    for chunk in &chunks {
        assert!(chunk.token_count <= 100);
    }
    for i in 0..chunks.len() - 1 {
        let overlap = chunks[i].end_pos as i64 - chunks[i + 1].start_pos as i64;
        assert!(overlap >= 50, "overlap of pair {} is {}", i, overlap);
    }
    assert_eq!(chunks[0].start_pos, 0);
    assert_eq!(chunks.last().unwrap().end_pos, text.len());
}

#[test]
fn test_chunk_text_matches_span() {
    let chunker = TextChunker::new();
    let text = "palabra ".repeat(1000);
    let chunks = chunker.chunk_text(&text).unwrap();
    assert!(chunks.len() > 1);
    for chunk in &chunks {
        assert_eq!(chunk.text.as_bytes(), &text.as_bytes()[chunk.start_pos..chunk.end_pos]);
    }
}

#[test]
fn test_paragraph_fallback_config_error() {
    // A paragraph that alone exceeds the bound falls back to the sliding
    // window, so a configuration without forward progress is rejected there
    // too.
    let config = ChunkConfig {
        max_tokens: 10,
        overlap_tokens: 10,
        chars_per_token: 4,
    };
    let chunker = TextChunker::with_config(config);
    let text = "y".repeat(500);
    assert!(chunker.chunk_by_paragraphs(&text).is_err());
}

#[test]
fn test_snap_at_multibyte_whitespace() {
    // The only separator near the first window edge (byte 20) is a
    // no-break space at bytes 16..18: the cut snaps to just after it.
    let config = ChunkConfig {
        max_tokens: 20,
        overlap_tokens: 5,
        chars_per_token: 1,
    };
    let chunker = TextChunker::with_config(config);
    let piece = format!("{}\u{a0}yy", "x".repeat(16));
    let text = piece.repeat(3);
    let chunks = chunker.chunk_text(&text).unwrap();
    assert!(chunks.len() >= 2);
    assert_eq!(chunks[0].start_pos, 0);
    assert_eq!(chunks[0].end_pos, 18);
    assert!(chunks[0].text.ends_with('\u{a0}'));
}
