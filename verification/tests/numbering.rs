use mdbook_fs_summary::numbering::{apply_section_numbers, Diagnostic};
use mdbook_fs_summary::tree::{Chapter, TreeNode};

fn chap(title: &str, exempt: bool, children: Vec<TreeNode>) -> TreeNode {
    TreeNode::Chapter(Chapter {
        title: title.to_string(),
        body: String::new(),
        children,
        number: None,
        source_path: Some(format!("{}.md", title)),
        display_path: None,
        ancestor_titles: vec![],
        numbering_exempt: exempt,
    })
}

fn number(node: &TreeNode) -> Option<Vec<u64>> {
    match node {
        TreeNode::Chapter(c) => c.number.clone(),
        _ => None,
    }
}

fn children(node: &TreeNode) -> &Vec<TreeNode> {
    match node {
        TreeNode::Chapter(c) => &c.children,
        other => panic!("not a chapter: {:?}", other),
    }
}

#[test]
fn numbers_run_from_one_past_what_takes_none() {
    let mut forest = vec![
        chap("pre", true, vec![]),
        chap("a", false, vec![]),
        TreeNode::Separator,
        chap("mid", true, vec![]),
        TreeNode::PartTitle("Part".to_string()),
        chap("b", false, vec![]),
        chap("c", false, vec![]),
        chap("post", true, vec![]),
    ];
    let warnings = apply_section_numbers(&mut forest, &vec![]);
    let numbers: Vec<Option<Vec<u64>>> = forest.iter().map(number).collect();
    assert_eq!(
        numbers,
        vec![None, Some(vec![1]), None, None, None, Some(vec![2]), Some(vec![3]), None]
    );
    assert!(warnings.is_empty());
}

#[test]
fn children_are_numbered_under_their_chapter() {
    let mut forest = vec![
        chap(
            "a",
            false,
            vec![chap("a1", false, vec![]), chap("a2", false, vec![chap("a2x", false, vec![])])],
        ),
        chap("b", false, vec![chap("b1", false, vec![])]),
    ];
    apply_section_numbers(&mut forest, &vec![]);
    assert_eq!(number(&forest[0]), Some(vec![1]));
    assert_eq!(number(&children(&forest[0])[0]), Some(vec![1, 1]));
    assert_eq!(number(&children(&forest[0])[1]), Some(vec![1, 2]));
    assert_eq!(number(&children(&children(&forest[0])[1])[0]), Some(vec![1, 2, 1]));
    assert_eq!(number(&forest[1]), Some(vec![2]));
    assert_eq!(number(&children(&forest[1])[0]), Some(vec![2, 1]));
}

#[test]
fn numbers_start_under_the_given_prefix() {
    let mut forest = vec![chap("a", false, vec![]), chap("b", false, vec![])];
    apply_section_numbers(&mut forest, &vec![4, 2]);
    assert_eq!(number(&forest[0]), Some(vec![4, 2, 1]));
    assert_eq!(number(&forest[1]), Some(vec![4, 2, 2]));
}

#[test]
fn children_of_an_exempt_chapter_are_numbered_at_its_level() {
    let mut forest = vec![
        chap("a", false, vec![]),
        chap("x", true, vec![chap("x1", false, vec![]), chap("x2", false, vec![])]),
        chap("b", false, vec![chap("y", true, vec![chap("y1", false, vec![])])]),
    ];
    let warnings = apply_section_numbers(&mut forest, &vec![]);
    assert_eq!(number(&forest[1]), None);
    assert_eq!(number(&children(&forest[1])[0]), Some(vec![1]));
    assert_eq!(number(&children(&forest[1])[1]), Some(vec![2]));
    assert_eq!(number(&forest[2]), Some(vec![2]));
    let y = &children(&forest[2])[0];
    assert_eq!(number(y), None);
    assert_eq!(number(&children(y)[0]), Some(vec![2, 1]));
    assert_eq!(
        warnings,
        vec![
            Diagnostic::NumberedUnderUnnumbered {
                title: "x1".to_string(),
                source_path: Some("x1.md".to_string())
            },
            Diagnostic::NumberedUnderUnnumbered {
                title: "x2".to_string(),
                source_path: Some("x2.md".to_string())
            },
            Diagnostic::NestedUnnumberedChapter {
                title: "y".to_string(),
                source_path: Some("y.md".to_string())
            },
            Diagnostic::NumberedUnderUnnumbered {
                title: "y1".to_string(),
                source_path: Some("y1.md".to_string())
            },
        ]
    );
}

#[test]
fn number_set_before_is_taken_from_an_exempt_chapter() {
    let mut forest = vec![TreeNode::Chapter(Chapter {
        title: "x".to_string(),
        body: String::new(),
        children: vec![],
        number: Some(vec![9]),
        source_path: None,
        display_path: None,
        ancestor_titles: vec![],
        numbering_exempt: true,
    })];
    apply_section_numbers(&mut forest, &vec![]);
    assert_eq!(number(&forest[0]), None);
}

#[test]
fn nested_part_titles_and_separators_are_reported() {
    let mut forest = vec![
        TreeNode::PartTitle("Top".to_string()),
        chap(
            "a",
            false,
            vec![
                TreeNode::PartTitle("Inner".to_string()),
                TreeNode::Separator,
                chap("a1", false, vec![]),
            ],
        ),
    ];
    let warnings = apply_section_numbers(&mut forest, &vec![]);
    assert_eq!(
        warnings,
        vec![
            Diagnostic::NestedPartTitle { title: "Inner".to_string() },
            Diagnostic::NestedSeparator
        ]
    );
    assert_eq!(number(&children(&forest[1])[2]), Some(vec![1, 1]));
    assert_eq!(forest[0], TreeNode::PartTitle("Top".to_string()));
}

#[test]
fn nodes_below_an_exempt_top_level_chapter_are_nested() {
    let mut forest = vec![chap(
        "x",
        true,
        vec![
            TreeNode::PartTitle("Inner".to_string()),
            TreeNode::Separator,
            chap("y", true, vec![]),
        ],
    )];
    let warnings = apply_section_numbers(&mut forest, &vec![]);
    assert_eq!(
        warnings,
        vec![
            Diagnostic::NestedPartTitle { title: "Inner".to_string() },
            Diagnostic::NestedSeparator,
            Diagnostic::NestedUnnumberedChapter {
                title: "y".to_string(),
                source_path: Some("y.md".to_string())
            },
        ]
    );
}

#[test]
fn level_under_a_given_number_is_nested() {
    let mut forest = vec![TreeNode::Separator, chap("x", true, vec![])];
    let warnings = apply_section_numbers(&mut forest, &vec![3]);
    assert_eq!(
        warnings,
        vec![
            Diagnostic::NestedSeparator,
            Diagnostic::NestedUnnumberedChapter {
                title: "x".to_string(),
                source_path: Some("x.md".to_string())
            },
        ]
    );
}

#[test]
fn empty_forest_stays_empty() {
    let mut forest: Vec<TreeNode> = vec![];
    let warnings = apply_section_numbers(&mut forest, &vec![]);
    assert!(forest.is_empty());
    assert!(warnings.is_empty());
}

#[test]
fn diagnostics_in_words() {
    assert_eq!(
        Diagnostic::NestedPartTitle { title: "Inner".to_string() }.message(),
        "Warning: nested part titles may not be supported Inner"
    );
    assert_eq!(
        Diagnostic::NestedSeparator.message(),
        "Warning: nested separators may not be supported"
    );
    assert_eq!(
        Diagnostic::NestedUnnumberedChapter {
            title: "Pre".to_string(),
            source_path: Some("01_a/00_pre.md".to_string())
        }
        .message(),
        "Warning: prefix and suffix chapters nested under other chapters may not be \
         supported: 01_a/00_pre.md"
    );
    assert_eq!(
        Diagnostic::NumberedUnderUnnumbered { title: "Draft".to_string(), source_path: None }
            .message(),
        "Warning: numbered chapters nested under prefix and suffix chapters may not be \
         supported: Draft"
    );
}
