use mdbook_fs_summary::book::{load_book, load_book_item, load_book_items, BuildError};
use mdbook_fs_summary::config::Config;
use mdbook_fs_summary::snapshot::{Entry, EntryKind};
use mdbook_fs_summary::tree::{Chapter, TreeNode};

fn file(name: &str, text: &str) -> Entry {
    Entry { name: name.to_string(), kind: EntryKind::File(Some(text.to_string())) }
}

fn dir(name: &str, entries: Vec<Entry>) -> Entry {
    Entry { name: name.to_string(), kind: EntryKind::Directory(Some(entries)) }
}

fn chapter(node: &TreeNode) -> &Chapter {
    match node {
        TreeNode::Chapter(c) => c,
        other => panic!("not a chapter: {:?}", other),
    }
}

#[test]
fn folder_with_index_and_separator() {
    let root = Some(vec![
        file("05_end__.md", ""),
        dir(
            "02_intro",
            vec![file("03_setup.md", "# Setup\nsteps\n"), file("00.md", "# Introduction\nhello\n")],
        ),
    ]);
    let book = load_book(&root, &Config::new(None)).unwrap();
    assert_eq!(book.sections.len(), 2);
    let intro = chapter(&book.sections[0]);
    assert_eq!(intro.title, "Introduction");
    assert_eq!(intro.body, "# Introduction\nhello\n");
    assert_eq!(intro.number, Some(vec![1]));
    assert_eq!(intro.source_path.as_deref(), Some("02_intro/00.md"));
    assert_eq!(intro.display_path.as_deref(), Some("intro/index.md"));
    assert!(intro.ancestor_titles.is_empty());
    assert!(!intro.numbering_exempt);
    assert_eq!(intro.children.len(), 1);
    let setup = chapter(&intro.children[0]);
    assert_eq!(setup.title, "Setup");
    assert_eq!(setup.body, "# Setup\nsteps\n");
    assert_eq!(setup.number, Some(vec![1, 1]));
    assert_eq!(setup.source_path.as_deref(), Some("02_intro/03_setup.md"));
    assert_eq!(setup.display_path.as_deref(), Some("intro/setup.md"));
    assert_eq!(setup.ancestor_titles, vec!["Introduction".to_string()]);
    assert!(setup.children.is_empty());
    assert_eq!(book.sections[1], TreeNode::Separator);
    assert!(book.warnings.is_empty());
}

#[test]
fn back_matter_takes_no_number() {
    let root = Some(vec![
        file("ZZ_appendix.md", "# Appendix\n"),
        file("03_chapter.md", "# Chapter\n"),
    ]);
    let book = load_book(&root, &Config::new(None)).unwrap();
    assert_eq!(book.sections.len(), 2);
    let first = chapter(&book.sections[0]);
    assert_eq!(first.title, "Chapter");
    assert_eq!(first.number, Some(vec![1]));
    let appendix = chapter(&book.sections[1]);
    assert_eq!(appendix.title, "Appendix");
    assert_eq!(appendix.number, None);
    assert!(appendix.numbering_exempt);
    assert_eq!(appendix.display_path.as_deref(), Some("appendix.md"));
}

#[test]
fn front_matter_before_chapters_leaves_the_count_alone() {
    let root = Some(vec![
        file("00_preface.md", "# Preface\n"),
        file("01_one.md", "# One\n"),
        file("02_two.md", "# Two\n"),
    ]);
    let book = load_book(&root, &Config::new(None)).unwrap();
    assert_eq!(chapter(&book.sections[0]).number, None);
    assert_eq!(chapter(&book.sections[1]).number, Some(vec![1]));
    assert_eq!(chapter(&book.sections[2]).number, Some(vec![2]));
}

#[test]
fn listing_order_does_not_matter() {
    let a = Some(vec![file("b.md", "# B\n"), file("a.md", "# A\n"), file("c.md", "# C\n")]);
    let b = Some(vec![file("c.md", "# C\n"), file("b.md", "# B\n"), file("a.md", "# A\n")]);
    let conf = Config::new(None);
    let first = load_book(&a, &conf).unwrap();
    let second = load_book(&b, &conf).unwrap();
    assert_eq!(first, second);
    assert_eq!(chapter(&first.sections[0]).title, "A");
    assert_eq!(chapter(&first.sections[1]).title, "B");
    assert_eq!(chapter(&first.sections[2]).title, "C");
}

#[test]
fn listing_order_below_does_not_matter() {
    let a = Some(vec![
        dir(
            "02_b",
            vec![file("02_y.md", "# Y\n"), file("00.md", "# B\n"), file("01_x.md", "# X\n")],
        ),
        dir(
            "01_a",
            vec![file("00.md", "# A\n"), dir("img", vec![file("b.png", ""), file("a.png", "")])],
        ),
    ]);
    let b = Some(vec![
        dir(
            "01_a",
            vec![dir("img", vec![file("a.png", ""), file("b.png", "")]), file("00.md", "# A\n")],
        ),
        dir(
            "02_b",
            vec![file("00.md", "# B\n"), file("01_x.md", "# X\n"), file("02_y.md", "# Y\n")],
        ),
    ]);
    let conf = Config::new(None);
    let first = load_book(&a, &conf).unwrap();
    assert_eq!(first, load_book(&b, &conf).unwrap());
    let second = chapter(&first.sections[1]);
    assert_eq!(second.title, "B");
    assert_eq!(chapter(&second.children[0]).number, Some(vec![2, 1]));
    assert_eq!(chapter(&second.children[1]).title, "Y");
}

#[test]
fn separator_named_asset_needs_an_index() {
    let root = Some(vec![dir("img", vec![file("line__.png", "")])]);
    assert_eq!(
        load_book(&root, &Config::new(None)),
        Err(BuildError::MissingIndex { path: "img/00.md".to_string() })
    );
}

#[test]
fn rebuilding_gives_the_same_book() {
    let root = Some(vec![
        dir("10_part", vec![file("00.md", "# Part\n"), file("20_x.md", "# X\n")]),
        file("ZZ_end.md", "# End\n"),
    ]);
    let conf = Config::new(None);
    assert_eq!(load_book(&root, &conf), load_book(&root, &conf));
}

#[test]
fn names_order_by_code_point_and_prefix_first() {
    let root = Some(vec![
        file("b.md", "# b\n"),
        file("B.md", "# B\n"),
        file("a10.md", "# a10\n"),
        file("a1.md", "# a1\n"),
        file("a.md", "# a\n"),
    ]);
    let nodes = load_book_items(root.as_ref().unwrap(), "", &vec![], &Config::new(None)).unwrap();
    let titles: Vec<&str> = nodes.iter().map(|n| chapter(n).title.as_str()).collect();
    assert_eq!(titles, vec!["B", "a", "a1", "a10", "b"]);
}

#[test]
fn asset_directory_is_left_out() {
    let root = Some(vec![
        dir(
            "images",
            vec![
                file("logo.png", ""),
                Entry { name: "raw.bin".to_string(), kind: EntryKind::File(None) },
                dir("deep", vec![file("x.svg", "<svg/>")]),
            ],
        ),
        file("01_a.md", "# A\n"),
    ]);
    let book = load_book(&root, &Config::new(None)).unwrap();
    assert_eq!(book.sections.len(), 1);
    assert_eq!(chapter(&book.sections[0]).title, "A");
}

#[test]
fn empty_directory_is_left_out() {
    let item = load_book_item(&dir("empty", vec![]), "", &vec![], &Config::new(None));
    assert_eq!(item, Ok(None));
}

#[test]
fn directory_with_documents_needs_an_index() {
    let root = Some(vec![dir("01_part", vec![dir("sub", vec![file("01_x.md", "# X\n")])])]);
    let err = load_book(&root, &Config::new(None)).unwrap_err();
    assert_eq!(err, BuildError::MissingIndex { path: "01_part/sub/00.md".to_string() });
}

#[test]
fn directory_without_index_at_top() {
    let root = Some(vec![dir("01_part", vec![file("01_x.md", "# X\n")])]);
    let err = load_book(&root, &Config::new(None)).unwrap_err();
    assert_eq!(err, BuildError::MissingIndex { path: "01_part/00.md".to_string() });
    assert_eq!(err.message(), "missing folder index file: 01_part/00.md");
}

#[test]
fn document_without_heading_is_an_error() {
    let root = Some(vec![file("01_a.md", "no heading\n## second level\n")]);
    let err = load_book(&root, &Config::new(None)).unwrap_err();
    assert_eq!(err, BuildError::MissingTitle { path: "01_a.md".to_string() });
    assert_eq!(err.message(), "could not find H1 title from: 01_a.md");
}

#[test]
fn unreadable_document_is_an_error() {
    let root = Some(vec![Entry { name: "01_a.md".to_string(), kind: EntryKind::File(None) }]);
    let err = load_book(&root, &Config::new(None)).unwrap_err();
    assert_eq!(err, BuildError::Io { path: "01_a.md".to_string() });
    assert_eq!(err.message(), "could not read: 01_a.md");
}

#[test]
fn unlistable_directory_is_an_error() {
    let root = Some(vec![Entry { name: "locked".to_string(), kind: EntryKind::Directory(None) }]);
    assert_eq!(
        load_book(&root, &Config::new(None)),
        Err(BuildError::Io { path: "locked".to_string() })
    );
    assert_eq!(load_book(&None, &Config::new(None)), Err(BuildError::Io { path: String::new() }));
}

#[test]
fn entry_of_unknown_kind_is_an_error() {
    let root = Some(vec![Entry { name: "x.md".to_string(), kind: EntryKind::Unknown }]);
    assert_eq!(
        load_book(&root, &Config::new(None)),
        Err(BuildError::Io { path: "x.md".to_string() })
    );
}

#[test]
fn first_error_in_name_order_wins() {
    let root = Some(vec![
        Entry { name: "02_b.md".to_string(), kind: EntryKind::File(None) },
        file("01_a.md", "nothing"),
    ]);
    assert_eq!(
        load_book(&root, &Config::new(None)),
        Err(BuildError::MissingTitle { path: "01_a.md".to_string() })
    );
}

#[test]
fn summary_and_links_are_left_out() {
    let root = Some(vec![
        file("SUMMARY.md", "no heading here"),
        Entry { name: "link.md".to_string(), kind: EntryKind::Other },
        file("_partial.md", "no heading"),
        file("notes.txt", "no heading"),
        file("README", "no heading"),
        dir("01_a", vec![file("00.md", "# A\n"), file("SUMMARY.md", "none")]),
    ]);
    let book = load_book(&root, &Config::new(None)).unwrap();
    assert_eq!(book.sections.len(), 1);
    assert!(chapter(&book.sections[0]).children.is_empty());
}

#[test]
fn part_title_takes_the_heading_of_its_file() {
    let root = Some(vec![file("03_part#.md", "intro\n# Part Two\n"), file("04_x.md", "# X\n")]);
    let book = load_book(&root, &Config::new(None)).unwrap();
    assert_eq!(book.sections[0], TreeNode::PartTitle("Part Two".to_string()));
    assert_eq!(chapter(&book.sections[1]).number, Some(vec![1]));
}

#[test]
fn draft_file_holds_a_place() {
    let root = Some(vec![file("01_soon().md", "# Soon\ntext\n")]);
    let book = load_book(&root, &Config::new(None)).unwrap();
    let c = chapter(&book.sections[0]);
    assert_eq!(c.title, "Soon");
    assert_eq!(c.body, "");
    assert_eq!(c.source_path, None);
    assert_eq!(c.display_path, None);
    assert_eq!(c.number, Some(vec![1]));
}

#[test]
fn draft_directory_keeps_its_children() {
    let root = Some(vec![dir(
        "01_soon()",
        vec![file("00.md", "# Soon\n"), file("01_in.md", "# In\n")],
    )]);
    let book = load_book(&root, &Config::new(None)).unwrap();
    let c = chapter(&book.sections[0]);
    assert_eq!(c.body, "");
    assert_eq!(c.source_path, None);
    assert_eq!(c.display_path, None);
    assert_eq!(c.children.len(), 1);
    let inner = chapter(&c.children[0]);
    assert_eq!(inner.number, Some(vec![1, 1]));
    assert_eq!(inner.source_path.as_deref(), Some("01_soon()/01_in.md"));
    assert_eq!(inner.display_path.as_deref(), Some("soon/in.md"));
    assert_eq!(inner.ancestor_titles, vec!["Soon".to_string()]);
}

#[test]
fn raw_paths_when_cleaning_is_off() {
    let root = Some(vec![dir("02_intro", vec![file("00.md", "# I\n"), file("03_s.md", "# S\n")])]);
    let book = load_book(&root, &Config::new(Some(false))).unwrap();
    let c = chapter(&book.sections[0]);
    assert_eq!(c.source_path.as_deref(), Some("02_intro/00.md"));
    assert_eq!(c.display_path.as_deref(), Some("02_intro/00.md"));
    assert_eq!(chapter(&c.children[0]).display_path.as_deref(), Some("02_intro/03_s.md"));
}

#[test]
fn index_that_cannot_be_read_is_an_error() {
    let root = Some(vec![dir(
        "01_a",
        vec![Entry { name: "00.md".to_string(), kind: EntryKind::File(None) }],
    )]);
    assert_eq!(
        load_book(&root, &Config::new(None)),
        Err(BuildError::Io { path: "01_a/00.md".to_string() })
    );
}

#[test]
fn nested_front_matter_is_reported() {
    let root = Some(vec![dir(
        "01_a",
        vec![file("00.md", "# A\n"), file("00_pre.md", "# Pre\n"), file("01_x.md", "# X\n")],
    )]);
    let book = load_book(&root, &Config::new(None)).unwrap();
    let a = chapter(&book.sections[0]);
    assert_eq!(chapter(&a.children[0]).number, None);
    assert_eq!(chapter(&a.children[1]).number, Some(vec![1, 1]));
    assert_eq!(book.warnings.len(), 1);
}
