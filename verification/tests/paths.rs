//! Path handling: hidden components, relative paths, extensions and vault
//! paths.

use zk_index::note::{extension_of, vault_path_from_relative_path, Note};
use zk_index::watcher::{file_has_no_hidden_component, relative_path_from_absolute_path};

#[test]
fn test_relative_path_from_absolute_path() {
    let root = "/tmp/vault";

    assert_eq!(
        relative_path_from_absolute_path(root, "/tmp/vault/.zk_index/"),
        ".zk_index/".to_string()
    );

    for name in ["file1.md", "a b c", "x.y.z", "nested/deep/file", "%41"] {
        let path = format!("{}/{}", root, name);
        assert_eq!(relative_path_from_absolute_path(root, &path), name.to_string());
    }

    let slash_root = "/tmp/vault/";
    assert_eq!(
        relative_path_from_absolute_path(slash_root, "/tmp/vault/notes.md"),
        "notes.md".to_string()
    );
}

#[test]
fn test_file_has_hidden_component() {
    // Hidden files.
    assert!(!file_has_no_hidden_component("./.test"));
    assert!(!file_has_no_hidden_component("/tmp/.test"));
    assert!(!file_has_no_hidden_component("/tmp/.test/test"));
    assert!(!file_has_no_hidden_component("/tmp/test/.test"));
    assert!(!file_has_no_hidden_component("/tmp/test/.test/test"));

    // One hidden component anywhere makes the path hidden.
    let samples: [&[&str]; 4] = [
        &["a"],
        &["alpha", "beta"],
        &["x1", "y2", "z3"],
        &["notes", "daily", "journal"],
    ];
    for components in samples {
        for hidden_index in 0..components.len() {
            let mut with_hidden: Vec<String> =
                components.iter().map(|c| c.to_string()).collect();
            with_hidden[hidden_index] = format!(".{}", with_hidden[hidden_index]);
            let path = with_hidden.join("/");
            assert!(!file_has_no_hidden_component(&path));
        }
    }

    // Non-hidden files.
    assert!(file_has_no_hidden_component("./test"));
    assert!(file_has_no_hidden_component("/tmp/test"));
    assert!(file_has_no_hidden_component("/tmp/test/test"));

    for components in samples {
        let path = components.join("/");
        assert!(file_has_no_hidden_component(&path));
    }
}

#[test]
fn test_extension_of() {
    assert_eq!(extension_of("note.md"), Some("md".to_string()));
    assert_eq!(extension_of("dir/note.md"), Some("md".to_string()));
    assert_eq!(extension_of("archive.tar.gz"), Some("gz".to_string()));
    assert_eq!(extension_of("noext"), None);
    assert_eq!(extension_of(".hidden"), None);
    assert_eq!(extension_of("dir.d/noext"), None);
    assert_eq!(extension_of("trailing."), Some("".to_string()));
}

#[test]
fn test_vault_path_strips_markdown_extension() {
    assert_eq!(vault_path_from_relative_path("note.md"), "note".to_string());
    assert_eq!(vault_path_from_relative_path("dir/note.md"), "dir/note".to_string());
    assert_eq!(vault_path_from_relative_path("note.txt"), "note.txt".to_string());
    assert_eq!(vault_path_from_relative_path("noext"), "noext".to_string());
    assert_eq!(vault_path_from_relative_path(".md"), ".md".to_string());
}

#[test]
fn test_note_new_derives_paths() {
    let note = Note::new("/vault", "dir/note.md");
    assert_eq!(note.rel_path, "dir/note.md".to_string());
    assert_eq!(note.absolute_path, "/vault/dir/note.md".to_string());
    assert_eq!(note.vault_path, "dir/note".to_string());
    assert_eq!(note.extension, Some("md".to_string()));

    let plain = Note::new("/vault/", "data.csv");
    assert_eq!(plain.absolute_path, "/vault/data.csv".to_string());
    assert_eq!(plain.vault_path, "data.csv".to_string());
    assert_eq!(plain.extension, Some("csv".to_string()));
}
