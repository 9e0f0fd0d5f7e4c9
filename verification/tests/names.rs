use mdbook_fs_summary::names::{classify_file, has_draft_marker, needs_text, FileClass};

#[test]
fn classes_by_name() {
    assert_eq!(classify_file("05_end__.md"), FileClass::Separator);
    assert_eq!(classify_file("__.md"), FileClass::Separator);
    assert_eq!(classify_file("line__.txt"), FileClass::Separator);
    assert_eq!(classify_file("03_part#.md"), FileClass::PartTitle);
    assert_eq!(classify_file("_include.md"), FileClass::Partial);
    assert_eq!(classify_file("logo.png"), FileClass::Ignored);
    assert_eq!(classify_file("README"), FileClass::Ignored);
    assert_eq!(classify_file(".md"), FileClass::Ignored);
    assert_eq!(classify_file("a.MD"), FileClass::Ignored);
    assert_eq!(classify_file("a.md.bak"), FileClass::Ignored);
    assert_eq!(classify_file("00.md"), FileClass::IndexFile);
    assert_eq!(classify_file("01_a.md"), FileClass::RegularChapter { exempt: false });
    assert_eq!(classify_file("a.b.md"), FileClass::RegularChapter { exempt: false });
    assert_eq!(classify_file("00_preface.md"), FileClass::RegularChapter { exempt: true });
    assert_eq!(classify_file("ZZ_appendix.md"), FileClass::RegularChapter { exempt: true });
    assert_eq!(classify_file("000.md"), FileClass::RegularChapter { exempt: true });
    assert_eq!(classify_file("zz_x.md"), FileClass::RegularChapter { exempt: false });
    assert_eq!(classify_file("01_soon().md"), FileClass::DraftChapter { exempt: false });
    assert_eq!(classify_file("ZZ_soon().md"), FileClass::DraftChapter { exempt: true });
}

#[test]
fn first_rule_wins() {
    assert_eq!(classify_file("_x__.md"), FileClass::Separator);
    assert_eq!(classify_file("_x#.md"), FileClass::PartTitle);
    assert_eq!(classify_file("_x().md"), FileClass::Partial);
    assert_eq!(classify_file("x#__.md"), FileClass::Separator);
}

#[test]
fn text_is_read_for_titled_classes_only() {
    assert!(needs_text("01_a.md"));
    assert!(needs_text("01_a().md"));
    assert!(needs_text("p#.md"));
    assert!(needs_text("00.md"));
    assert!(!needs_text("s__.md"));
    assert!(!needs_text("logo.png"));
    assert!(!needs_text("_p.md"));
}

#[test]
fn draft_marker_ends_the_name() {
    assert!(has_draft_marker("05_here()"));
    assert!(has_draft_marker("()"));
    assert!(!has_draft_marker("05_here().md"));
    assert!(!has_draft_marker("05_here"));
    assert!(!has_draft_marker(")"));
}
