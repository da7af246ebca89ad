use project_ledger::naming::{document_name, document_stem};
use std::path::Path;

#[test]
fn document_is_named_after_its_project() {
    assert_eq!(document_name("proj1"), "proj1.md");
    assert_eq!(document_name("a.b"), "a.b.md");
    assert_eq!(document_name(""), ".md");
    assert_eq!(document_name("été"), "été.md");
}

#[test]
fn stem_is_the_name_without_its_extension() {
    assert_eq!(document_stem("proj1.md"), Some("proj1".to_string()));
    assert_eq!(document_stem("a.b.md"), Some("a.b".to_string()));
    assert_eq!(document_stem("a..md"), Some("a.".to_string()));
    assert_eq!(document_stem("été.md"), Some("été".to_string()));
}

#[test]
fn other_files_are_no_documents() {
    assert_eq!(document_stem(".md"), None);
    assert_eq!(document_stem("md"), None);
    assert_eq!(document_stem(""), None);
    assert_eq!(document_stem("notes.txt"), None);
    assert_eq!(document_stem("notes.MD"), None);
    assert_eq!(document_stem("notes.md.bak"), None);
    assert_eq!(document_stem("notes.md "), None);
    assert_eq!(document_stem("notesmd"), None);
}

#[test]
fn name_and_stem_undo_each_other() {
    for id in ["a", "proj1", "with space", "dots.in.name", ".hidden", "ü"] {
        assert_eq!(document_stem(&document_name(id)), Some(id.to_string()));
    }
}

#[test]
fn stem_agrees_with_the_standard_library() {
    for name in [
        "a.md", ".md", "..md", "a", "a.", "a.md.", "a.mdx", "a.b.md", ".a.md", "md", "x.MD", "",
        " .md", "a.txt",
    ] {
        let path = Path::new(name);
        let want = if path.extension().map_or(false, |e| e == "md") {
            path.file_stem().map(|s| s.to_string_lossy().to_string())
        } else {
            None
        };
        assert_eq!(document_stem(name), want, "{:?}", name);
    }
}
