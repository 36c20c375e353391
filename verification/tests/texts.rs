use std::path::Path;

use docx2md_tui::names::{
    extension_in, file_extension, file_stem, is_docx_path, normalize_word_target, sanitize_field,
    sanitize_path_input, FilePath,
};
use docx2md_tui::number::{parse_usize, show, show_padded};
use docx2md_tui::order::sort_paths;
use docx2md_tui::text::{
    is_whitespace, join, lines, replace, same_ignoring_case, split, strip_prefix, trim,
};
use docx2md_tui::text_map::TextMap;

#[test]
fn white_space_is_that_of_unicode() {
    for code in 0..0x11_0000 {
        if let Some(c) = char::from_u32(code) {
            assert_eq!(is_whitespace(c), c.is_whitespace(), "{code:x}");
        }
    }
}

#[test]
fn texts_are_cut_like_strings() {
    for s in ["", " ", "a", "\u{3000} a b\t\n", "x\r\n", "\n\na\n\n", "a\r\rb\r\n\r\nc\r", "\t\ta\t"] {
        assert_eq!(trim(s), s.trim());
        assert_eq!(lines(s), s.lines().collect::<Vec<_>>());
        assert_eq!(split(s, '\t'), s.split('\t').collect::<Vec<_>>());
        assert_eq!(replace(s, '\n', '/'), s.replace('\n', "/"));
        assert_eq!(strip_prefix(s, "a").as_deref(), s.strip_prefix("a"));
        let parts = lines(s);
        assert_eq!(join(&parts, "+"), s.lines().collect::<Vec<_>>().join("+"));
    }
}

#[test]
fn case_of_ascii_letters_is_ignored() {
    assert!(same_ignoring_case("DocX", "dOCx"));
    assert!(!same_ignoring_case("É", "é"));
    assert!(!same_ignoring_case("doc", "docx"));
    assert!(!same_ignoring_case("a@", "A`"));
}

#[test]
fn numbers_are_shown_and_read() {
    for n in [0, 9, 10, 99, 100, 12345, usize::MAX] {
        assert_eq!(show(n), n.to_string());
        assert_eq!(show_padded(n, 3), format!("{n:03}"));
        assert_eq!(parse_usize(&show(n)), Some(n));
    }
    for s in ["", "+", "+7", "++7", "-7", " 7", "07", "7a", "18446744073709551616", "٣"] {
        assert_eq!(parse_usize(s), s.parse::<usize>().ok());
    }
}

#[test]
fn stems_and_extensions_are_those_of_paths() {
    for name in ["a", "a.docx", "a.b.docx", ".docx", "..x", "a.", "...", "报告.v1.DOCX"] {
        let path = Path::new(name);
        assert_eq!(file_stem(name), path.file_stem().unwrap().to_string_lossy());
        assert_eq!(
            file_extension(name),
            path.extension().map(|e| e.to_string_lossy().into_owned())
        );
    }
    for path in ["word/media/a.png", "word/media/a", "a/b.c/", "a/b.c/.", "a/..", "", "/", "x.y/z"] {
        assert_eq!(
            extension_in(path, false),
            Path::new(path).extension().map(|e| e.to_string_lossy().into_owned())
        );
    }
}

#[test]
fn drives_are_no_names() {
    let extension = |path: &str| extension_in(path, true);
    assert_eq!(extension("c:.png"), None);
    assert_eq!(extension("Z:a.png"), Some("png".to_string()));
    assert_eq!(extension("c:/a.b/.png"), None);
    assert_eq!(extension("1:.png"), Some("png".to_string()));
    assert_eq!(extension("cc:.png"), Some("png".to_string()));
    assert_eq!(extension("c:"), None);
    assert_eq!(extension("word/c:.png"), Some("png".to_string()));
    assert_eq!(extension_in("c:.png", false), Some("png".to_string()));
}

#[test]
fn documents_are_known_by_their_extension() {
    let path = |name: Option<&str>| FilePath {
        parent: None,
        file_name: name.map(|n| n.to_string()),
    };
    assert!(is_docx_path(&path(Some("a.docx"))));
    assert!(is_docx_path(&path(Some("a.b.DOCX"))));
    assert!(!is_docx_path(&path(Some("a.doc"))));
    assert!(!is_docx_path(&path(Some(".docx"))));
    assert!(!is_docx_path(&path(Some("docx"))));
    assert!(!is_docx_path(&path(None)));
}

#[test]
fn targets_become_entries() {
    assert_eq!(normalize_word_target("media/a.png"), "word/media/a.png");
    assert_eq!(normalize_word_target("media\\a.png"), "word/media/a.png");
    assert_eq!(normalize_word_target("word/media/a.png"), "word/media/a.png");
    assert_eq!(normalize_word_target("//word/a.png"), "word/a.png");
    assert_eq!(normalize_word_target("/media/a.png"), "media/a.png");
    assert_eq!(normalize_word_target(""), "word/");
}

#[test]
fn fields_hold_no_breaks() {
    assert_eq!(sanitize_field(" a\tb\r\nc "), "abc");
    assert_eq!(sanitize_field("\t \n"), "");
    assert_eq!(sanitize_field(&sanitize_field(" \ta b\n ")), "a b");
}

#[test]
fn typed_paths_lose_quotes() {
    assert_eq!(sanitize_path_input("  \"C:\\a b.docx\"  "), "C:\\a b.docx");
    assert_eq!(sanitize_path_input("\" a \""), " a ");
    assert_eq!(sanitize_path_input(" \"\" "), "");
}

#[test]
fn later_values_hold() {
    let mut map = TextMap::new();
    assert!(map.get("a").is_none());
    map.insert("a".to_string(), "1".to_string());
    map.insert("b".to_string(), "2".to_string());
    map.insert("a".to_string(), "3".to_string());
    assert_eq!(map.get("a"), Some("3".to_string()));
    assert_eq!(map.get("b"), Some("2".to_string()));
    assert_eq!(map.get("c"), None);
}

#[test]
fn paths_are_sorted_by_their_names() {
    let paths: Vec<Vec<String>> = ["b", "a/z", "a", "a b", "a/b/c", "B", "é", "a/b", "a"]
        .iter()
        .map(|p| p.split('/').map(|s| s.to_string()).collect())
        .collect();
    let mut expected: Vec<usize> = (0..paths.len()).collect();
    expected.sort_by(|i, j| {
        let a: std::path::PathBuf = paths[*i].iter().collect();
        let b: std::path::PathBuf = paths[*j].iter().collect();
        a.cmp(&b)
    });
    assert_eq!(sort_paths(&paths), expected);
    assert_eq!(expected, vec![5, 2, 8, 7, 4, 1, 3, 0, 6]);
}
