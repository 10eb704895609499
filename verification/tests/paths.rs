use std::path::{Path, PathBuf};

use mdbook_pdf::paths::{
    join_paths, normalize_chapter_path, parent_path, path_file_name, replace_extension,
    replace_file_name,
};

/// All texts of up to seven of the characters that matter to paths.
fn short_paths() -> Vec<String> {
    let mut all = vec![String::new()];
    let mut from = 0;
    for _ in 0..7 {
        let to = all.len();
        for i in from..to {
            for c in ['/', '.', 'a'] {
                let mut longer = all[i].clone();
                longer.push(c);
                all.push(longer);
            }
        }
        from = to;
    }
    all
}

#[test]
fn normal_forms_are_the_components_with_slashes_between() {
    for path in short_paths() {
        let expected = Path::new(&path)
            .components()
            .map(|component| component.as_os_str().to_string_lossy())
            .collect::<Vec<_>>()
            .join("/");
        assert_eq!(normalize_chapter_path(path.as_bytes()), expected, "{path:?}");
    }
}

#[test]
fn parents_are_those_of_the_operating_system() {
    for path in short_paths() {
        let expected = Path::new(&path).parent().map(|dir| dir.to_str().unwrap().as_bytes().to_vec());
        assert_eq!(parent_path(path.as_bytes()), expected, "{path:?}");
    }
}

#[test]
fn file_names_are_those_of_the_operating_system() {
    for path in short_paths() {
        let expected = Path::new(&path).file_name().map(|name| name.to_str().unwrap().as_bytes().to_vec());
        assert_eq!(path_file_name(path.as_bytes()), expected, "{path:?}");
    }
}

#[test]
fn extensions_and_file_names_are_replaced_as_by_the_operating_system() {
    for path in short_paths() {
        let mut with_extension = PathBuf::from(&path);
        with_extension.set_extension("html");
        assert_eq!(
            replace_extension(path.as_bytes(), b"html"),
            with_extension.to_str().unwrap().as_bytes(),
            "{path:?}"
        );

        let mut without_extension = PathBuf::from(&path);
        without_extension.set_extension("");
        assert_eq!(
            replace_extension(path.as_bytes(), b""),
            without_extension.to_str().unwrap().as_bytes(),
            "{path:?}"
        );

        let mut with_name = PathBuf::from(&path);
        with_name.set_file_name("index.html");
        assert_eq!(
            replace_file_name(path.as_bytes(), b"index.html"),
            with_name.to_str().unwrap().as_bytes(),
            "{path:?}"
        );
    }
}

#[test]
fn paths_are_joined_as_by_the_operating_system() {
    let short: Vec<String> = short_paths().into_iter().filter(|path| path.len() <= 3).collect();
    for base in &short {
        for path in &short {
            let expected = Path::new(base).join(path);
            assert_eq!(
                join_paths(base.as_bytes(), path.as_bytes()),
                expected.to_str().unwrap().as_bytes(),
                "{base:?} {path:?}"
            );
        }
    }
}

#[test]
fn normalizing_twice_changes_nothing() {
    for path in short_paths() {
        let once = normalize_chapter_path(path.as_bytes());
        assert_eq!(normalize_chapter_path(once.as_bytes()), once);
    }
}

#[test]
fn names_beyond_ascii_are_kept() {
    let bytes = |text: &str| text.as_bytes().to_vec();
    assert_eq!(parent_path("büch/kapitel.md".as_bytes()), Some(bytes("büch")));
    assert_eq!(path_file_name("büch/größe.md".as_bytes()), Some(bytes("größe.md")));
    assert_eq!(
        replace_extension("büch/größe.tar.md".as_bytes(), b"html"),
        bytes("büch/größe.tar.html")
    );
    assert_eq!(replace_extension("büch/.größe".as_bytes(), b"html"), bytes("büch/.größe.html"));
    assert_eq!(join_paths("bücher/".as_bytes(), "größe".as_bytes()), bytes("bücher/größe"));
    assert_eq!(normalize_chapter_path("./büch//größe".as_bytes()), "./büch/größe");
}

#[test]
fn names_that_are_not_unicode_are_kept() {
    assert_eq!(parent_path(b"\xff/\xfe.md"), Some(b"\xff".to_vec()));
    assert_eq!(path_file_name(b"\xff/\xfe.md"), Some(b"\xfe.md".to_vec()));
    assert_eq!(replace_extension(b"\xff/\xfe.md", b"html"), b"\xff/\xfe.html");
    assert_eq!(replace_file_name(b"\xff/\xfe.md", b"a"), b"\xff/a");
    assert_eq!(normalize_chapter_path(b"\xff//\xfe.md"), "\u{fffd}/\u{fffd}.md");
}
