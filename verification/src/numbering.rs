//! Section numbers: each chapter's position among the numbered chapters beside it, under
//! the number of the chapter above.

use vstd::prelude::*;
use crate::tree::{
    forest_view, is_outline, is_outline_node, number_view, text_view, ChapterView, NodeView,
    TreeNode,
};

verus! {

/// Begins the message of `Diagnostic::NestedPartTitle`.
pub const NESTED_PART_TITLE_MESSAGE: &'static str =
    "Warning: nested part titles may not be supported ";

/// The message of `Diagnostic::NestedSeparator`.
pub const NESTED_SEPARATOR_MESSAGE: &'static str =
    "Warning: nested separators may not be supported";

/// Begins the message of `Diagnostic::NestedUnnumberedChapter`.
pub const NESTED_UNNUMBERED_MESSAGE: &'static str =
    "Warning: prefix and suffix chapters nested under other chapters may not be supported: ";

/// Begins the message of `Diagnostic::NumberedUnderUnnumbered`.
pub const NUMBERED_UNDER_UNNUMBERED_MESSAGE: &'static str =
    "Warning: numbered chapters nested under prefix and suffix chapters may not be supported: ";

/// What the numbering reports and goes on: a node in a place where the host program may
/// not support it.
#[derive(Clone, Debug, PartialEq, Eq)]
pub enum Diagnostic {
    /// A part title below the top level.
    NestedPartTitle { title: String },
    /// A separator below the top level.
    NestedSeparator,
    /// A front- or back-matter chapter below the top level.
    NestedUnnumberedChapter { title: String, source_path: Option<String> },
    /// A chapter that takes a number right below a front- or back-matter chapter.
    NumberedUnderUnnumbered { title: String, source_path: Option<String> },
}

/// The view of a `Diagnostic`.
pub enum DiagnosticView {
    NestedPartTitle { title: Seq<char> },
    NestedSeparator,
    NestedUnnumberedChapter { title: Seq<char>, source_path: Option<Seq<char>> },
    NumberedUnderUnnumbered { title: Seq<char>, source_path: Option<Seq<char>> },
}

impl View for Diagnostic {
    type V = DiagnosticView;

    open spec fn view(&self) -> DiagnosticView {
        match self {
            Diagnostic::NestedPartTitle { title } => DiagnosticView::NestedPartTitle {
                title: title@,
            },
            Diagnostic::NestedSeparator => DiagnosticView::NestedSeparator,
            Diagnostic::NestedUnnumberedChapter {
                title,
                source_path,
            } => DiagnosticView::NestedUnnumberedChapter {
                title: title@,
                source_path: text_view(*source_path),
            },
            Diagnostic::NumberedUnderUnnumbered {
                title,
                source_path,
            } => DiagnosticView::NumberedUnderUnnumbered {
                title: title@,
                source_path: text_view(*source_path),
            },
        }
    }
}

impl Diagnostic {
    /// How the message of the diagnostic begins.
    pub open spec fn headline(&self) -> Seq<char> {
        match self {
            Diagnostic::NestedPartTitle { .. } => NESTED_PART_TITLE_MESSAGE@,
            Diagnostic::NestedSeparator => NESTED_SEPARATOR_MESSAGE@,
            Diagnostic::NestedUnnumberedChapter { .. } => NESTED_UNNUMBERED_MESSAGE@,
            Diagnostic::NumberedUnderUnnumbered { .. } => NUMBERED_UNDER_UNNUMBERED_MESSAGE@,
        }
    }

    /// What the message names: a part title by its title, a chapter by its source path
    /// or, where it has none, by its title; a separator by nothing.
    pub open spec fn subject(&self) -> Seq<char> {
        match self {
            Diagnostic::NestedPartTitle { title } => title@,
            Diagnostic::NestedSeparator => seq![],
            Diagnostic::NestedUnnumberedChapter { title, source_path } => match source_path {
                Some(path) => path@,
                None => title@,
            },
            Diagnostic::NumberedUnderUnnumbered { title, source_path } => match source_path {
                Some(path) => path@,
                None => title@,
            },
        }
    }

    /// The diagnostic in words.
    pub fn message(&self) -> (text: String)
        ensures
            text@ == self.headline() + self.subject(),
    {
        match self {
            Diagnostic::NestedPartTitle { title } => NESTED_PART_TITLE_MESSAGE.to_owned().concat(
                title.as_str(),
            ),
            Diagnostic::NestedSeparator => {
                let text = NESTED_SEPARATOR_MESSAGE.to_owned();
                assert(text@ + Seq::<char>::empty() =~= text@);
                text
            },
            Diagnostic::NestedUnnumberedChapter { title, source_path } => {
                let head = NESTED_UNNUMBERED_MESSAGE.to_owned();
                match source_path {
                    Some(path) => head.concat(path.as_str()),
                    None => head.concat(title.as_str()),
                }
            },
            Diagnostic::NumberedUnderUnnumbered { title, source_path } => {
                let head = NUMBERED_UNDER_UNNUMBERED_MESSAGE.to_owned();
                match source_path {
                    Some(path) => head.concat(path.as_str()),
                    None => head.concat(title.as_str()),
                }
            },
        }
    }
}

/// The views of a list of diagnostics, in order.
pub open spec fn diagnostics_view(list: Seq<Diagnostic>) -> Seq<DiagnosticView> {
    Seq::new(list.len(), |i: int| list[i]@)
}

/// The node is a chapter that takes a number.
pub open spec fn takes_number(node: NodeView) -> bool {
    match node {
        NodeView::Chapter(c) => !c.numbering_exempt,
        _ => false,
    }
}

/// How many of the first `upto` siblings take a number.
pub open spec fn numbered_before(siblings: Seq<NodeView>, upto: int) -> nat
    decreases upto,
{
    if upto <= 0 || upto > siblings.len() {
        0
    } else {
        numbered_before(siblings, upto - 1) + if takes_number(siblings[upto - 1]) {
            1nat
        } else {
            0nat
        }
    }
}

/// The position of sibling `k` in the count of its level: as many as take a number up to
/// and including it.
pub open spec fn position(siblings: Seq<NodeView>, k: int) -> nat {
    numbered_before(siblings, k + 1)
}

/// A node with its numbers assigned, under the number `prefix` and at `position` among its
/// siblings. A chapter that takes a number gets `prefix` and its position, and its children
/// are numbered under that. An exempt chapter gets none, and its children are numbered
/// under `prefix` as a level of their own.
pub open spec fn numbered_node(node: NodeView, prefix: Seq<nat>, position: nat) -> NodeView
    decreases node,
{
    match node {
        NodeView::Chapter(c) => if c.numbering_exempt {
            NodeView::Chapter(
                ChapterView { number: None, children: numbered_forest(c.children, prefix), ..c },
            )
        } else {
            NodeView::Chapter(
                ChapterView {
                    number: Some(prefix.push(position)),
                    children: numbered_forest(c.children, prefix.push(position)),
                    ..c
                },
            )
        },
        _ => node,
    }
}

/// A level of the outline with its numbers assigned under `prefix`.
pub open spec fn numbered_forest(siblings: Seq<NodeView>, prefix: Seq<nat>) -> Seq<NodeView>
    decreases siblings,
{
    Seq::new(
        siblings.len(),
        |k: int|
            if 0 <= k < siblings.len() {
                numbered_node(siblings[k], prefix, position(siblings, k))
            } else {
                NodeView::Separator
            },
    )
}

/// What the numbering reports of the first `upto` nodes below an exempt chapter for
/// standing there: each chapter among them that takes a number.
pub open spec fn numbered_reports(children: Seq<NodeView>, upto: int) -> Seq<DiagnosticView>
    decreases upto,
{
    if upto <= 0 || upto > children.len() {
        seq![]
    } else {
        numbered_reports(children, upto - 1) + match children[upto - 1] {
            NodeView::Chapter(c) => if c.numbering_exempt {
                seq![]
            } else {
                seq![
                    DiagnosticView::NumberedUnderUnnumbered {
                        title: c.title,
                        source_path: c.source_path,
                    },
                ]
            },
            _ => seq![],
        }
    }
}

/// What the numbering reports of one node and of the nodes below it; `nested` says that
/// the node stands below the top level. There a part title, a separator and an exempt
/// chapter are reported. Of an exempt chapter the numbered chapters right below it are
/// reported next, and then whatever there is to report of the nodes below it. The nodes
/// below a chapter are nested, whether the chapter takes a number or not.
pub open spec fn node_warnings(
    node: NodeView,
    prefix: Seq<nat>,
    position: nat,
    nested: bool,
) -> Seq<DiagnosticView>
    decreases node, 0nat,
{
    match node {
        NodeView::PartTitle(title) => if nested {
            seq![DiagnosticView::NestedPartTitle { title }]
        } else {
            seq![]
        },
        NodeView::Separator => if nested {
            seq![DiagnosticView::NestedSeparator]
        } else {
            seq![]
        },
        NodeView::Chapter(c) => if c.numbering_exempt {
            let own = if nested {
                seq![
                    DiagnosticView::NestedUnnumberedChapter {
                        title: c.title,
                        source_path: c.source_path,
                    },
                ]
            } else {
                seq![]
            };
            own + numbered_reports(c.children, c.children.len() as int) + warnings_upto(
                c.children,
                prefix,
                c.children.len() as int,
                true,
            )
        } else {
            warnings_upto(c.children, prefix.push(position), c.children.len() as int, true)
        },
    }
}

/// What the numbering reports of the first `upto` siblings, in their order; `nested`
/// says that they stand below the top level.
pub open spec fn warnings_upto(
    siblings: Seq<NodeView>,
    prefix: Seq<nat>,
    upto: int,
    nested: bool,
) -> Seq<DiagnosticView>
    decreases siblings, upto,
{
    if upto <= 0 || upto > siblings.len() {
        seq![]
    } else {
        warnings_upto(siblings, prefix, upto - 1, nested) + node_warnings(
            siblings[upto - 1],
            prefix,
            position(siblings, upto - 1),
            nested,
        )
    }
}

/// What the numbering reports of a level and of all below it. The level is the top level
/// where it is numbered under no number, and nested where `prefix` is not empty.
pub open spec fn forest_warnings(siblings: Seq<NodeView>, prefix: Seq<nat>) -> Seq<
    DiagnosticView,
> {
    warnings_upto(siblings, prefix, siblings.len() as int, prefix.len() > 0)
}

/// The number that a node holds.
pub open spec fn number_of(node: NodeView) -> Option<Seq<nat>> {
    match node {
        NodeView::Chapter(c) => c.number,
        _ => None,
    }
}

/// The nodes below a node.
pub open spec fn children_of(node: NodeView) -> Seq<NodeView> {
    match node {
        NodeView::Chapter(c) => c.children,
        _ => seq![],
    }
}

/// No exempt chapter of the forest holds a number, at any depth.
pub open spec fn exempt_hold_no_number(forest: Seq<NodeView>) -> bool
    decreases forest,
{
    forall|k: int|
        0 <= k < forest.len() ==> match #[trigger] forest[k] {
            NodeView::Chapter(c) => (c.numbering_exempt ==> c.number is None)
                && exempt_hold_no_number(c.children),
            _ => true,
        }
}

/// Some numbered sibling of the level holds position `p`.
pub open spec fn position_held(siblings: Seq<NodeView>, p: nat) -> bool {
    exists|k: int|
        0 <= k < siblings.len() && takes_number(siblings[k]) && #[trigger] position(siblings, k)
            == p
}

/// The count of numbered siblings never falls, and rises by one at most with each sibling.
pub proof fn lemma_numbered_before_grows(siblings: Seq<NodeView>, a: int, b: int)
    requires
        0 <= a <= b <= siblings.len(),
    ensures
        numbered_before(siblings, a) <= numbered_before(siblings, b) <= numbered_before(
            siblings,
            a,
        ) + (b - a),
    decreases b - a,
{
    if a < b {
        lemma_numbered_before_grows(siblings, a, b - 1);
    }
}

/// Every position up to the count is the position of a numbered sibling.
proof fn lemma_position_is_taken(siblings: Seq<NodeView>, upto: int, p: nat)
    requires
        0 <= upto <= siblings.len(),
        1 <= p <= numbered_before(siblings, upto),
    ensures
        exists|k: int|
            0 <= k < upto && takes_number(siblings[k]) && #[trigger] position(siblings, k) == p,
    decreases upto,
{
    if takes_number(siblings[upto - 1]) && position(siblings, upto - 1) == p {
    } else {
        lemma_position_is_taken(siblings, upto - 1, p);
    }
}

/// Among the siblings of a level the numbers run from one without a gap, whatever stands
/// between the numbered chapters. With `total` numbered chapters on the level: each of them
/// holds the number of the level above and then its position, which lies between 1 and
/// `total`; a later one holds a greater position than an earlier one; and every position
/// from 1 to `total` is held.
pub proof fn lemma_numbers_run_from_one(siblings: Seq<NodeView>, prefix: Seq<nat>)
    ensures
        forall|k: int|
            0 <= k < siblings.len() && takes_number(siblings[k]) ==> {
                &&& number_of(#[trigger] numbered_forest(siblings, prefix)[k]) == Some(
                    prefix.push(position(siblings, k)),
                )
                &&& 1 <= position(siblings, k) <= numbered_before(siblings, siblings.len() as int)
            },
        forall|j: int, k: int|
            0 <= j < k < siblings.len() && takes_number(siblings[j]) && takes_number(siblings[k])
                ==> #[trigger] position(siblings, j) < #[trigger] position(siblings, k),
        forall|p: nat|
            1 <= p <= numbered_before(siblings, siblings.len() as int) ==> #[trigger] position_held(
                siblings,
                p,
            ),
{
    assert forall|k: int| 0 <= k < siblings.len() && takes_number(siblings[k]) implies 1
        <= position(siblings, k) <= numbered_before(siblings, siblings.len() as int) by {
        lemma_numbered_before_grows(siblings, k + 1, siblings.len() as int);
    }
    assert forall|j: int, k: int|
        0 <= j < k < siblings.len() && takes_number(siblings[j]) && takes_number(
            siblings[k],
        ) implies position(siblings, j) < position(siblings, k) by {
        lemma_numbered_before_grows(siblings, j + 1, k);
    }
    assert forall|p: nat|
        1 <= p <= numbered_before(siblings, siblings.len() as int) implies #[trigger] position_held(
        siblings,
        p,
    ) by {
        lemma_position_is_taken(siblings, siblings.len() as int, p);
    }
}

/// A chapter that is exempt never holds a number once numbers are assigned, at any depth
/// of the outline and whatever it held before.
pub proof fn lemma_exempt_chapters_hold_no_number(siblings: Seq<NodeView>, prefix: Seq<nat>)
    ensures
        exempt_hold_no_number(numbered_forest(siblings, prefix)),
    decreases siblings,
{
    let numbered = numbered_forest(siblings, prefix);
    assert forall|k: int| 0 <= k < numbered.len() implies match #[trigger] numbered[k] {
        NodeView::Chapter(c) => (c.numbering_exempt ==> c.number is None)
            && exempt_hold_no_number(c.children),
        _ => true,
    } by {
        match siblings[k] {
            NodeView::Chapter(c) => {
                if c.numbering_exempt {
                    lemma_exempt_chapters_hold_no_number(c.children, prefix);
                } else {
                    lemma_exempt_chapters_hold_no_number(
                        c.children,
                        prefix.push(position(siblings, k)),
                    );
                }
            },
            _ => {},
        }
    }
}

/// An exempt chapter opens no level of its own: it holds no number, and the nodes below
/// it are numbered as a level under the number of the chapter above it, exactly as that
/// chapter's own children are.
pub proof fn lemma_exempt_chapter_passes_prefix(
    siblings: Seq<NodeView>,
    prefix: Seq<nat>,
    k: int,
)
    requires
        0 <= k < siblings.len(),
        siblings[k] is Chapter,
        !takes_number(siblings[k]),
    ensures
        number_of(numbered_forest(siblings, prefix)[k]) is None,
        children_of(numbered_forest(siblings, prefix)[k]) == numbered_forest(
            children_of(siblings[k]),
            prefix,
        ),
{
}

/// A sibling that takes no number takes no place in the count: with it taken out of the
/// level, every other sibling is numbered as before.
pub proof fn lemma_unnumbered_sibling_takes_no_place(
    siblings: Seq<NodeView>,
    prefix: Seq<nat>,
    k: int,
)
    requires
        0 <= k < siblings.len(),
        !takes_number(siblings[k]),
    ensures
        numbered_forest(siblings.remove(k), prefix) == numbered_forest(siblings, prefix).remove(k),
{
    let without = siblings.remove(k);
    assert forall|j: int| 0 <= j < without.len() implies numbered_forest(without, prefix)[j]
        == numbered_forest(siblings, prefix).remove(k)[j] by {
        lemma_count_without(siblings, k, j + 1);
    }
    assert(numbered_forest(without, prefix) =~= numbered_forest(siblings, prefix).remove(k));
}

/// Taking out a sibling that takes no number leaves the count of the others as it was.
proof fn lemma_count_without(siblings: Seq<NodeView>, k: int, upto: int)
    requires
        0 <= k < siblings.len(),
        !takes_number(siblings[k]),
        0 <= upto < siblings.len(),
    ensures
        numbered_before(siblings.remove(k), upto) == numbered_before(
            siblings,
            if upto <= k {
                upto
            } else {
                upto + 1
            },
        ),
    decreases upto,
{
    if upto > 0 {
        lemma_count_without(siblings, k, upto - 1);
        if upto - 1 == k {
            assert(numbered_before(siblings, k + 1) == numbered_before(siblings, k));
        }
    }
}

/// A node with every number taken from it and from the nodes below it.
pub open spec fn node_without_numbers(node: NodeView) -> NodeView
    decreases node,
{
    match node {
        NodeView::Chapter(c) => NodeView::Chapter(
            ChapterView { number: None, children: without_numbers(c.children), ..c },
        ),
        _ => node,
    }
}

/// A forest with every number taken from it.
pub open spec fn without_numbers(forest: Seq<NodeView>) -> Seq<NodeView>
    decreases forest,
{
    Seq::new(
        forest.len(),
        |k: int|
            if 0 <= k < forest.len() {
                node_without_numbers(forest[k])
            } else {
                NodeView::Separator
            },
    )
}

/// Assigning numbers changes numbers and nothing else: with the numbers taken away
/// again, the outline is what it was without them.
pub proof fn lemma_numbering_changes_numbers_only(siblings: Seq<NodeView>, prefix: Seq<nat>)
    ensures
        without_numbers(numbered_forest(siblings, prefix)) == without_numbers(siblings),
    decreases siblings,
{
    let numbered = numbered_forest(siblings, prefix);
    assert forall|k: int| 0 <= k < siblings.len() implies node_without_numbers(numbered[k])
        == node_without_numbers(siblings[k]) by {
        match siblings[k] {
            NodeView::Chapter(c) => {
                let below = if c.numbering_exempt {
                    prefix
                } else {
                    prefix.push(position(siblings, k))
                };
                lemma_numbering_changes_numbers_only(c.children, below);
            },
            _ => {},
        }
    }
    assert(without_numbers(numbered) =~= without_numbers(siblings));
}

/// The numbers that are assigned do not depend on numbers that were there before: an
/// outline with and without its old numbers is numbered alike.
pub proof fn lemma_old_numbers_do_not_matter(siblings: Seq<NodeView>, prefix: Seq<nat>)
    ensures
        numbered_forest(without_numbers(siblings), prefix) == numbered_forest(siblings, prefix),
    decreases siblings,
{
    let bare = without_numbers(siblings);
    assert forall|k: int| 0 <= k <= siblings.len() implies numbered_before(bare, k)
        == numbered_before(siblings, k) by {
        lemma_count_without_numbers(siblings, k);
    }
    assert forall|k: int| 0 <= k < siblings.len() implies numbered_forest(bare, prefix)[k]
        == numbered_forest(siblings, prefix)[k] by {
        match siblings[k] {
            NodeView::Chapter(c) => {
                let below = if c.numbering_exempt {
                    prefix
                } else {
                    prefix.push(position(siblings, k))
                };
                lemma_old_numbers_do_not_matter(c.children, below);
            },
            _ => {},
        }
    }
    assert(numbered_forest(bare, prefix) =~= numbered_forest(siblings, prefix));
}

/// Taking the numbers away leaves the count of the chapters that take a number.
proof fn lemma_count_without_numbers(siblings: Seq<NodeView>, upto: int)
    requires
        0 <= upto <= siblings.len(),
    ensures
        numbered_before(without_numbers(siblings), upto) == numbered_before(siblings, upto),
    decreases upto,
{
    if upto > 0 {
        lemma_count_without_numbers(siblings, upto - 1);
    }
}

/// Assigning numbers leaves a well-formed outline well formed.
pub proof fn lemma_numbered_outline(
    siblings: Seq<NodeView>,
    prefix: Seq<nat>,
    crumbs: Seq<Seq<char>>,
)
    requires
        is_outline(siblings, crumbs),
    ensures
        is_outline(numbered_forest(siblings, prefix), crumbs),
    decreases siblings,
{
    let numbered = numbered_forest(siblings, prefix);
    assert forall|k: int| 0 <= k < numbered.len() implies is_outline_node(
        #[trigger] numbered[k],
        crumbs,
    ) by {
        assert(is_outline_node(siblings[k], crumbs));
        match siblings[k] {
            NodeView::Chapter(c) => {
                let below = if c.numbering_exempt {
                    prefix
                } else {
                    prefix.push(position(siblings, k))
                };
                lemma_numbered_outline(c.children, below, crumbs.push(c.title));
            },
            _ => {},
        }
    }
}

/// Reports the chapters of `children` that take a number, for standing right below an
/// exempt chapter.
fn report_numbered(children: &Vec<TreeNode>) -> (reports: Vec<Diagnostic>)
    ensures
        diagnostics_view(reports@) == numbered_reports(
            forest_view(children@),
            children@.len() as int,
        ),
{
    let mut reports: Vec<Diagnostic> = Vec::new();
    let mut i: usize = 0;
    assert(diagnostics_view(reports@) =~= numbered_reports(forest_view(children@), 0));
    while i < children.len()
        invariant
            i <= children.len(),
            diagnostics_view(reports@) == numbered_reports(forest_view(children@), i as int),
        decreases children.len() - i,
    {
        assert(forest_view(children@)[i as int] == children@[i as int]@);
        match &children[i] {
            TreeNode::Chapter(chap) => {
                if !chap.numbering_exempt {
                    reports.push(
                        Diagnostic::NumberedUnderUnnumbered {
                            title: chap.title.clone(),
                            source_path: chap.source_path.clone(),
                        },
                    );
                }
            },
            _ => {},
        }
        assert(diagnostics_view(reports@) =~= numbered_reports(forest_view(children@), i + 1));
        i = i + 1;
    }
    reports
}

/// Assigns section numbers to the chapters of a level and of all below it, under the
/// number `parent_num`, and returns what there is to report, in the order of the outline.
/// The level is the top level where `parent_num` is empty.
pub fn apply_section_numbers(chapters: &mut Vec<TreeNode>, parent_num: &Vec<u64>) -> (warnings:
    Vec<Diagnostic>)
    ensures
        forest_view(final(chapters)@) == numbered_forest(
            forest_view(old(chapters)@),
            number_view(parent_num@),
        ),
        diagnostics_view(warnings@) == forest_warnings(
            forest_view(old(chapters)@),
            number_view(parent_num@),
        ),
{
    number_level(chapters, parent_num, parent_num.len() > 0)
}

/// Assigns section numbers to the chapters of a level and of all below it, under the
/// number `parent_num`; `nested` says that the level stands below the top level.
fn number_level(chapters: &mut Vec<TreeNode>, parent_num: &Vec<u64>, nested: bool) -> (warnings:
    Vec<Diagnostic>)
    ensures
        forest_view(final(chapters)@) == numbered_forest(
            forest_view(old(chapters)@),
            number_view(parent_num@),
        ),
        diagnostics_view(warnings@) == warnings_upto(
            forest_view(old(chapters)@),
            number_view(parent_num@),
            old(chapters)@.len() as int,
            nested,
        ),
    decreases *old(chapters),
{
    let mut warnings: Vec<Diagnostic> = Vec::new();
    let mut i: usize = 0;
    let mut count: u64 = 0;
    let n = chapters.len();
    let ghost before = forest_view(old(chapters)@);
    let ghost prefix = number_view(parent_num@);
    assert(diagnostics_view(warnings@) =~= warnings_upto(before, prefix, 0, nested));
    while i < n
        invariant
            i <= n,
            n == chapters.len(),
            chapters.len() == old(chapters).len(),
            before == forest_view(old(chapters)@),
            prefix == number_view(parent_num@),
            count == numbered_before(before, i as int),
            count <= i,
            forall|j: int| i <= j < n ==> chapters@[j] == old(chapters)@[j],
            forall|j: int|
                0 <= j < i ==> (#[trigger] chapters@[j]).view() == numbered_node(
                    before[j],
                    prefix,
                    position(before, j),
                ),
            diagnostics_view(warnings@) == warnings_upto(before, prefix, i as int, nested),
        decreases n - i,
    {
        let ghost reported = diagnostics_view(warnings@);
        assert(before[i as int] == old(chapters)@[i as int].view());
        match &mut chapters[i] {
            TreeNode::Chapter(chap) => {
                if chap.numbering_exempt {
                    if nested {
                        warnings.push(
                            Diagnostic::NestedUnnumberedChapter {
                                title: chap.title.clone(),
                                source_path: chap.source_path.clone(),
                            },
                        );
                    }
                    chap.number = None;
                    let mut misplaced = report_numbered(&chap.children);
                    warnings.append(&mut misplaced);
                    let mut below = number_level(&mut chap.children, parent_num, true);
                    warnings.append(&mut below);
                } else {
                    count = count + 1;
                    let mut num = parent_num.clone();
                    num.push(count);
                    assert(number_view(num@) =~= prefix.push(count as nat));
                    let mut below = number_level(&mut chap.children, &num, true);
                    warnings.append(&mut below);
                    chap.number = Some(num);
                }
            },
            TreeNode::PartTitle(title) => {
                if nested {
                    warnings.push(Diagnostic::NestedPartTitle { title: title.clone() });
                }
            },
            TreeNode::Separator => {
                if nested {
                    warnings.push(Diagnostic::NestedSeparator);
                }
            },
        }
        assert(chapters@[i as int].view() == numbered_node(
            before[i as int],
            prefix,
            position(before, i as int),
        ));
        assert(diagnostics_view(warnings@) =~= reported + node_warnings(
            before[i as int],
            prefix,
            position(before, i as int),
            nested,
        ));
        i = i + 1;
    }
    warnings
}

} // verus!
