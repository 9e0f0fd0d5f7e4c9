//! The outline: a forest of chapters, part titles and separators, and its mathematical view.

use vstd::prelude::*;

verus! {

/// One node of the outline.
#[derive(Debug, PartialEq, Eq)]
pub enum TreeNode {
    /// A document, or a place held for one, with the nodes below it.
    Chapter(Chapter),
    /// An unnumbered heading between chapters; it holds its title.
    PartTitle(String),
    /// A visual divider.
    Separator,
}

/// A chapter of the outline.
#[derive(Debug, PartialEq, Eq)]
pub struct Chapter {
    /// The title that the document declares.
    pub title: String,
    /// The text of the document; empty for a draft.
    pub body: String,
    /// The nodes below this chapter, in the order of their names on disk.
    pub children: Vec<TreeNode>,
    /// The section number, once numbers are assigned: one position for each level.
    pub number: Option<Vec<u64>>,
    /// The document's path from the root of the book; none for a draft.
    pub source_path: Option<String>,
    /// The path under which the chapter is shown; none for a draft.
    pub display_path: Option<String>,
    /// The titles of the chapters around this one, the outermost first.
    pub ancestor_titles: Vec<String>,
    /// Front or back matter: the chapter takes no number and no place in the count.
    pub numbering_exempt: bool,
}

/// The view of a `TreeNode`.
pub enum NodeView {
    Chapter(ChapterView),
    PartTitle(Seq<char>),
    Separator,
}

/// The view of a `Chapter`: text as characters, positions as natural numbers.
pub struct ChapterView {
    pub title: Seq<char>,
    pub body: Seq<char>,
    pub children: Seq<NodeView>,
    pub number: Option<Seq<nat>>,
    pub source_path: Option<Seq<char>>,
    pub display_path: Option<Seq<char>>,
    pub ancestor_titles: Seq<Seq<char>>,
    pub numbering_exempt: bool,
}

/// A section number as natural numbers.
pub open spec fn number_view(number: Seq<u64>) -> Seq<nat> {
    Seq::new(number.len(), |i: int| number[i] as nat)
}

/// The characters of an optional text.
pub open spec fn text_view(text: Option<String>) -> Option<Seq<char>> {
    match text {
        Some(t) => Some(t@),
        None => None,
    }
}

/// The characters of each text of a list.
pub open spec fn texts_view(texts: Seq<String>) -> Seq<Seq<char>> {
    Seq::new(texts.len(), |i: int| texts[i]@)
}

/// The views of the nodes of a forest, in order.
pub open spec fn forest_view(nodes: Seq<TreeNode>) -> Seq<NodeView>
    decreases nodes,
{
    Seq::new(
        nodes.len(),
        |i: int|
            if 0 <= i < nodes.len() {
                nodes[i].view()
            } else {
                NodeView::Separator
            },
    )
}

impl View for TreeNode {
    type V = NodeView;

    open spec fn view(&self) -> NodeView
        decreases self,
    {
        match self {
            TreeNode::Chapter(c) => NodeView::Chapter(c.view()),
            TreeNode::PartTitle(t) => NodeView::PartTitle(t@),
            TreeNode::Separator => NodeView::Separator,
        }
    }
}

impl View for Chapter {
    type V = ChapterView;

    open spec fn view(&self) -> ChapterView
        decreases self,
    {
        ChapterView {
            title: self.title@,
            body: self.body@,
            children: forest_view(self.children@),
            number: match self.number {
                Some(n) => Some(number_view(n@)),
                None => None,
            },
            source_path: text_view(self.source_path),
            display_path: text_view(self.display_path),
            ancestor_titles: texts_view(self.ancestor_titles@),
            numbering_exempt: self.numbering_exempt,
        }
    }
}

/// The node is well formed below the chapters titled `crumbs`. A chapter names those
/// chapters as its ancestors; it has a source path and a display path, or it is a draft
/// with neither and without a body; and the nodes below it are well formed below its own
/// title after theirs.
pub open spec fn is_outline_node(node: NodeView, crumbs: Seq<Seq<char>>) -> bool
    decreases node,
{
    match node {
        NodeView::Chapter(c) => {
            &&& c.ancestor_titles == crumbs
            &&& c.source_path is Some <==> c.display_path is Some
            &&& c.source_path is None ==> c.body.len() == 0
            &&& is_outline(c.children, crumbs.push(c.title))
        },
        _ => true,
    }
}

/// Every node of the forest is well formed below the chapters titled `crumbs`.
pub open spec fn is_outline(forest: Seq<NodeView>, crumbs: Seq<Seq<char>>) -> bool
    decreases forest,
{
    forall|k: int| 0 <= k < forest.len() ==> is_outline_node(#[trigger] forest[k], crumbs)
}

/// The view of a forest grows with the forest.
pub proof fn lemma_forest_view_push(nodes: Seq<TreeNode>, node: TreeNode)
    ensures
        forest_view(nodes.push(node)) == forest_view(nodes).push(node@),
{
    assert(forest_view(nodes.push(node)) =~= forest_view(nodes).push(node@));
}

/// A copy of a list of texts.
pub fn copy_texts(texts: &Vec<String>) -> (copy: Vec<String>)
    ensures
        texts_view(copy@) == texts_view(texts@),
{
    let mut copy: Vec<String> = Vec::new();
    let mut i: usize = 0;
    while i < texts.len()
        invariant
            i <= texts.len(),
            copy@.len() == i,
            forall|j: int| 0 <= j < i ==> copy@[j]@ == texts@[j]@,
        decreases texts.len() - i,
    {
        copy.push(texts[i].clone());
        i = i + 1;
    }
    assert(texts_view(copy@) =~= texts_view(texts@));
    copy
}

} // verus!
