use notnative::editor_mode::EditorMode;
use notnative::memory::{clear_plan, make_document, truncate_content, MAX_CONTENT_LEN};
use notnative::notes_config::NotesConfig;
use notnative::tools_analysis::GetWordCount;
use notnative::tools_reminders::CreateReminder;
use notnative::tools_tags::MergeNotes;
use notnative::tools_utility::CreateDailyNote;
use std::path::PathBuf;

#[test]
fn test_truncate_short_content() {
    let content = "una nota corta";
    assert_eq!(truncate_content(content), content);
}

#[test]
fn test_truncate_long_content() {
    let content = "a".repeat(MAX_CONTENT_LEN + 500);
    let t = truncate_content(&content);
    assert_eq!(t.len(), MAX_CONTENT_LEN);
    assert_eq!(t.as_bytes(), &content.as_bytes()[..MAX_CONTENT_LEN]);
}

#[test]
fn test_truncate_respects_character_boundary() {
    // A two-byte character straddling the cap is dropped whole.
    let mut content = "a".repeat(MAX_CONTENT_LEN - 1);
    content.push('ñ');
    content.push_str(&"b".repeat(400));
    let t = truncate_content(&content);
    assert_eq!(t.len(), MAX_CONTENT_LEN - 1);
    assert!(t.chars().all(|c| c == 'a'));
}

#[test]
fn test_make_document() {
    let metadata = serde_json::Value::Null;
    let doc = make_document("mi-nota", "contenido", metadata);
    assert_eq!(doc.id, "mi-nota");
    assert_eq!(doc.content, "contenido");
    assert!(doc.metadata.is_null());
}

#[test]
fn test_clear_plan_drops_exactly_the_family() {
    let existing = vec![
        "rig_note".to_string(),
        "rig_note_embeddings".to_string(),
        "rig_note_embeddings_chunks".to_string(),
        "notes_fts".to_string(),
        "sqlite_sequence".to_string(),
    ];
    let plan = clear_plan(&existing);

    // The family is dropped...
    assert!(plan.contains(&"rig_note_embeddings".to_string()));
    assert!(plan.contains(&"rig_note_embeddings_chunks".to_string()));
    assert!(plan.contains(&"rig_note_embedding_map".to_string()));
    assert_eq!(plan.last().unwrap(), "rig_note");
    // ... and nothing else.
    assert!(!plan.contains(&"notes_fts".to_string()));
    assert!(!plan.contains(&"sqlite_sequence".to_string()));
    // No table is named twice.
    for i in 0..plan.len() {
        for j in 0..plan.len() {
            if i != j {
                assert_ne!(plan[i], plan[j]);
            }
        }
    }
}

#[test]
fn test_clear_plan_on_empty_schema() {
    let plan = clear_plan(&vec![]);
    assert_eq!(
        plan,
        vec![
            "rig_note_embeddings".to_string(),
            "rig_note_embedding_map".to_string(),
            "rig_note".to_string(),
        ]
    );
}

#[test]
fn test_notes_config_positions() {
    let mut config = NotesConfig::new();
    assert_eq!(config.get_position("a"), None);

    config.set_position("a".to_string(), 0);
    config.set_position("b".to_string(), 1);
    config.set_position("c".to_string(), 2);
    assert_eq!(config.get_position("b"), Some(1));

    config.set_position("b".to_string(), 7);
    assert_eq!(config.get_position("b"), Some(7));

    config.remove_note("b");
    assert_eq!(config.get_position("b"), None);
    // Removing an absent note is a no-op.
    config.remove_note("b");
    assert_eq!(config.get_position("a"), Some(0));
    assert_eq!(config.get_position("c"), Some(2));
}

#[test]
fn test_notes_config_move_down() {
    let mut config = NotesConfig::new();
    config.set_position("a".to_string(), 0);
    config.set_position("b".to_string(), 1);
    config.set_position("c".to_string(), 2);

    // Moving "a" to position 2 slides "b" and "c" up.
    config.move_note("a", 2);
    assert_eq!(config.get_position("a"), Some(2));
    assert_eq!(config.get_position("b"), Some(0));
    assert_eq!(config.get_position("c"), Some(1));
}

#[test]
fn test_notes_config_move_new_note() {
    let mut config = NotesConfig::new();
    config.set_position("a".to_string(), 0);
    config.set_position("b".to_string(), 1);

    // A note without a position pushes everything at or after its new
    // position one step down.
    config.move_note("n", 0);
    assert_eq!(config.get_position("n"), Some(0));
    assert_eq!(config.get_position("a"), Some(1));
    assert_eq!(config.get_position("b"), Some(2));
}

#[test]
fn test_folder_toggle() {
    let mut config = NotesConfig::new();
    assert!(!config.is_folder_expanded("docs"));
    config.toggle_folder("docs".to_string());
    assert!(config.is_folder_expanded("docs"));
    config.toggle_folder("docs".to_string());
    assert!(!config.is_folder_expanded("docs"));
}

#[test]
fn test_editor_modes() {
    assert_eq!(EditorMode::Normal.name(), "NORMAL");
    assert_eq!(EditorMode::Insert.name(), "INSERT");
    assert_eq!(EditorMode::Command.name(), "COMMAND");
    assert_eq!(EditorMode::Visual.name(), "VISUAL");
    assert!(EditorMode::Insert.is_editable());
    assert!(!EditorMode::Normal.is_editable());
    assert_eq!(EditorMode::default(), EditorMode::Normal);
}

#[test]
fn test_tool_constructors() {
    let db = PathBuf::from("/tmp/notes.db");
    let dir = PathBuf::from("/tmp/notes");
    assert_eq!(GetWordCount::new(db.clone()).db_path, db);
    assert_eq!(CreateReminder::new(db.clone()).db_path, db);
    assert_eq!(MergeNotes::new(db.clone()).db_path, db);
    let daily = CreateDailyNote::new(db.clone(), dir.clone());
    assert_eq!(daily.db_path, db);
    assert_eq!(daily.notes_dir, dir);
}
