use mdbook_fs_summary::config::{strip_draft_indicator, strip_numbering_prefix, Config};

#[test]
fn cleans_drafts() {
    let conf = Config::new(Some(true));
    let p = "02_hmm/05_here()/02_sure()/06_normal.md";
    assert_eq!(conf.clean_path(p), "hmm/here/sure/normal.md");
}

#[test]
fn cleans_lower_case_prefixes() {
    let conf = Config::new(Some(true));
    assert_eq!(conf.clean_path("ab_intro/x1_setup.md"), "intro/setup.md");
}

#[test]
fn cleaning_can_be_switched_off() {
    let conf = Config::new(Some(false));
    assert!(!conf.clean_paths());
    assert_eq!(conf.clean_path("02_hmm/05_here()/x.md"), "02_hmm/05_here()/x.md");
}

#[test]
fn cleaning_is_on_unless_switched_off() {
    assert!(Config::new(None).clean_paths());
    assert!(Config::new(Some(true)).clean_paths());
    assert!(!Config::new(Some(false)).clean_paths());
}

#[test]
fn draft_indicator_is_taken_once() {
    let mut s = String::from("here()");
    strip_draft_indicator(&mut s);
    assert_eq!(s, "here");
    let mut twice = String::from("here()()");
    strip_draft_indicator(&mut twice);
    assert_eq!(twice, "here()");
    let mut none = String::from("he()re");
    strip_draft_indicator(&mut none);
    assert_eq!(none, "he()re");
    let mut bare = String::from("()");
    strip_draft_indicator(&mut bare);
    assert_eq!(bare, "");
}

#[test]
fn numbering_prefix_is_two_or_three_characters() {
    let cases = [
        ("02_hmm", "hmm"),
        ("A1_x", "x"),
        ("ZZ_appendix.md", "appendix.md"),
        ("123_x", "x"),
        ("ABC_x", "x"),
        ("1_x", "1_x"),
        ("1234_x", "1234_x"),
        ("ab_x", "x"),
        ("x1_setup.md", "setup.md"),
        ("x02_y", "y"),
        ("aZ9_y", "y"),
        ("a-b_x", "a-b_x"),
        ("a_x", "a_x"),
        ("abcd_x", "abcd_x"),
        ("02-x", "02-x"),
        ("02_", ""),
        ("01_02_x", "02_x"),
        ("__x", "__x"),
        ("", ""),
        ("AB_\u{e9}t\u{e9}", "\u{e9}t\u{e9}"),
        ("\u{c0}B_x", "\u{c0}B_x"),
        ("\u{ff11}\u{ff12}_x", "\u{ff11}\u{ff12}_x"),
        ("a/02_x", "a/02_x"),
        ("\n02_x", "\n02_x"),
    ];
    for (input, expected) in cases {
        let mut s = String::from(input);
        strip_numbering_prefix(&mut s);
        assert_eq!(s, expected, "for {:?}", input);
    }
}

#[test]
fn cleaning_twice_changes_nothing_more() {
    let conf = Config::new(None);
    for p in ["02_hmm/05_here()/06_normal.md", "a/b/c.md", "ZZ_end.md", "", "x()"] {
        let once = conf.clean_path(p);
        assert_eq!(conf.clean_path(&once), once);
    }
}

#[test]
fn doubly_marked_name_is_cleaned_one_layer_at_a_time() {
    let conf = Config::new(None);
    assert_eq!(conf.clean_path("01_02_x"), "02_x");
    assert_eq!(conf.clean_path("02_x"), "x");
    assert_eq!(conf.clean_path("x()()"), "x()");
}

#[test]
fn component_of_markup_alone_leaves_no_gap() {
    let conf = Config::new(None);
    assert_eq!(conf.clean_path("a/01_/b.md"), "a/b.md");
    assert_eq!(conf.clean_path("01_()/b.md"), "b.md");
}

#[test]
fn draft_marker_goes_before_the_prefix() {
    let conf = Config::new(None);
    assert_eq!(conf.clean_path("01_x()"), "x");
    assert_eq!(conf.clean_path("01_()"), "");
}
