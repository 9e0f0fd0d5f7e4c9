use mdbook_fs_summary::title::load_chapter_title;

#[test]
fn title_is_the_first_heading_line() {
    assert_eq!(load_chapter_title("# Introduction\ntext\n"), Some("Introduction".to_string()));
    assert_eq!(load_chapter_title("intro\n\n# One\n# Two\n"), Some("One".to_string()));
    assert_eq!(load_chapter_title("# Last line"), Some("Last line".to_string()));
}

#[test]
fn title_needs_a_heading_at_the_start_of_a_line() {
    assert_eq!(load_chapter_title(""), None);
    assert_eq!(load_chapter_title("text # Not\n"), None);
    assert_eq!(load_chapter_title("## Second level\n"), None);
    assert_eq!(load_chapter_title("#NoSpace\n"), None);
    assert_eq!(load_chapter_title(" # Indented\n"), None);
    assert_eq!(load_chapter_title("#"), None);
}

#[test]
fn title_may_be_empty() {
    assert_eq!(load_chapter_title("# "), Some(String::new()));
    assert_eq!(load_chapter_title("# \nrest"), Some(String::new()));
}

#[test]
fn title_drops_the_carriage_return_of_the_line_ending() {
    assert_eq!(load_chapter_title("# Windows\r\ntext\r\n"), Some("Windows".to_string()));
    assert_eq!(load_chapter_title("# \r\n"), Some(String::new()));
    assert_eq!(load_chapter_title("# Mid\rdle\n"), Some("Mid\rdle".to_string()));
}

#[test]
fn title_agrees_with_the_lines_of_std() {
    for text in ["# a\r", "x\r\n# b\r\n", "# c\r\r\n", "\n\n# d", "#\n# e "] {
        let expected = text.lines().find(|l| l.starts_with("# ")).map(|l| l[2..].to_string());
        assert_eq!(load_chapter_title(text), expected, "for {:?}", text);
    }
}

#[test]
fn title_keeps_characters_beyond_ascii() {
    assert_eq!(load_chapter_title("é\n# Über uns\n"), Some("Über uns".to_string()));
}
