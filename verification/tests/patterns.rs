use mdbook_pdf::links::{html_path_to_root, link_escapes_book_root, rewrite_links};

/// All sequences of up to `len` of the given pieces, put together.
fn texts(pieces: &[&str], len: usize) -> Vec<String> {
    let mut all = vec![String::new()];
    let mut from = 0;
    for _ in 0..len {
        let to = all.len();
        for i in from..to {
            for piece in pieces {
                let longer = format!("{}{piece}", all[i]);
                all.push(longer);
            }
        }
        from = to;
    }
    all
}

fn has_at(s: &[char], i: usize, word: &str) -> bool {
    let word: Vec<char> = word.chars().collect();
    i + word.len() <= s.len() && s[i..i + word.len()] == word[..]
}

/// The first anchor that does not start before `from`: its start, the start
/// of its link, and the quote behind it.
fn first_anchor(s: &[char], from: usize) -> Option<(usize, usize, usize)> {
    for start in from..s.len() {
        if !has_at(s, start, "<a ") {
            continue;
        }
        for link in start + 9..s.len() {
            if !has_at(s, link - 6, "href=\"") || s[start + 3..link - 6].contains(&'>') {
                continue;
            }
            if let Some(len) = s[link..].iter().position(|c| *c == '"') {
                if len > 0 {
                    return Some((start, link, link + len));
                }
            }
        }
    }
    None
}

#[test]
fn anchors_are_found_one_after_the_other() {
    for page in texts(&["<a ", "href=\"", "\"", ">", "../y"], 5) {
        let s: Vec<char> = page.chars().collect();
        let mut expected = String::new();
        let mut from = 0;
        while let Some((start, link, close)) = first_anchor(&s, from) {
            expected.extend(&s[from..link]);
            let target: String = s[link..close].iter().collect();
            assert!(start >= from);
            if !target.starts_with('#') && link_escapes_book_root(&target, "") {
                expected.push_str("s:/");
            }
            expected.push_str(&target);
            expected.push('"');
            from = close + 1;
        }
        expected.extend(&s[from..]);
        assert_eq!(rewrite_links(&page, "s:", ""), expected, "{page:?}");
    }
}

/// The text in quotes of the first declaration, read off word by word.
fn declared_root(s: &[char]) -> Option<String> {
    let skip = |mut i: usize| {
        while i < s.len() && s[i].is_whitespace() {
            i += 1;
        }
        i
    };
    for start in 0..s.len() {
        if !has_at(s, start, "const") {
            continue;
        }
        let name = skip(start + 5);
        if name == start + 5 || !has_at(s, name, "path_to_root") {
            continue;
        }
        let equals = skip(name + 12);
        if !has_at(s, equals, "=") {
            continue;
        }
        let open = skip(equals + 1);
        if !has_at(s, open, "\"") {
            continue;
        }
        if let Some(len) = s[open + 1..].iter().position(|c| *c == '"') {
            return Some(s[open + 1..open + 1 + len].iter().collect());
        }
    }
    None
}

#[test]
fn declarations_are_found_in_order() {
    for page in texts(&["const", "path_to_root", "=", "\"", " ", "x"], 7) {
        if page.contains("path_to_root") && page.contains("const") {
            let s: Vec<char> = page.chars().collect();
            if declared_root(&s).is_some() || page.len() % 16 == 0 {
                assert_eq!(html_path_to_root(&page), declared_root(&s), "{page:?}");
            }
        }
    }
}

#[test]
fn white_space_is_that_of_unicode() {
    let declare = |c: char| format!("const{c}path_to_root=\"x\"\n");
    let (spaces, others): (Vec<char>, Vec<char>) =
        (0..=0x10ffffu32).filter_map(char::from_u32).partition(|c| c.is_whitespace());
    assert_eq!(spaces.len(), 25);
    for c in spaces {
        assert_eq!(html_path_to_root(&declare(c)), Some("x".to_string()), "{c:?}");
    }
    let page: String = others.into_iter().map(declare).collect();
    assert_eq!(html_path_to_root(&page), None);
}

#[test]
fn schemes_are_told_by_their_characters() {
    for start in texts(&["a", "Z", "0", "+", ":", "/", "é"], 4) {
        let link = format!("{start}/../../../../../..");
        let scheme = match start.find(':') {
            Some(n) => {
                start.starts_with('a')
                    && start[..n].chars().all(|c| c == 'a' || c == '0' || c == '+')
            }
            None => false,
        };
        let page = format!("<a href=\"{link}\">");
        assert_eq!(rewrite_links(&page, "s:", "") == page, scheme, "{link:?}");
    }
}
