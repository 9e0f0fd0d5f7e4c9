//! The outline of a book, assembled from a directory as it was found on disk.

use vstd::prelude::*;
use crate::config::{cleaned_path, display_path_of, Config};
use crate::names::{
    classify_file, file_class, has_draft_marker, is_draft_name, same_name, FileClass, INDEX_FILE,
    SUMMARY_FILE,
};
use crate::numbering::{
    apply_section_numbers, diagnostics_view, forest_warnings, numbered_forest, Diagnostic,
    DiagnosticView,
};
use crate::order::{chars_view, indices_view, name_order, sort_by_name};
use crate::paths::{join, join_path};
use crate::snapshot::{listing_view, names_of, Entry, EntryKind, EntryKindView, EntryView};
use crate::text::chars_of;
use crate::title::{chapter_title, load_chapter_title};
use crate::tree::{
    copy_texts, forest_view, lemma_forest_view_push, number_view, texts_view, Chapter,
    ChapterView, NodeView, TreeNode,
};

verus! {

/// The name under which a directory's chapter is shown.
pub const INDEX_DISPLAY_FILE: &'static str = "index.md";

/// Begins the message of `BuildError::Io`.
pub const IO_MESSAGE: &'static str = "could not read: ";

/// Begins the message of `BuildError::MissingIndex`.
pub const MISSING_INDEX_MESSAGE: &'static str = "missing folder index file: ";

/// Begins the message of `BuildError::MissingTitle`.
pub const MISSING_TITLE_MESSAGE: &'static str = "could not find H1 title from: ";

/// Why no outline could be made. Each error names the path, from the root of the book, of
/// what it is about.
#[derive(Clone, Debug, PartialEq, Eq)]
pub enum BuildError {
    /// A directory could not be listed, or a document could not be read.
    Io { path: String },
    /// A directory holds documents and no index document; `path` is where that is missed.
    MissingIndex { path: String },
    /// A document has no top-level heading line.
    MissingTitle { path: String },
}

/// The view of a `BuildError`.
pub enum BuildErrorView {
    Io { path: Seq<char> },
    MissingIndex { path: Seq<char> },
    MissingTitle { path: Seq<char> },
}

impl View for BuildError {
    type V = BuildErrorView;

    open spec fn view(&self) -> BuildErrorView {
        match self {
            BuildError::Io { path } => BuildErrorView::Io { path: path@ },
            BuildError::MissingIndex { path } => BuildErrorView::MissingIndex { path: path@ },
            BuildError::MissingTitle { path } => BuildErrorView::MissingTitle { path: path@ },
        }
    }
}

impl BuildError {
    /// The path that the error is about.
    pub open spec fn path(&self) -> Seq<char> {
        match self {
            BuildError::Io { path } => path@,
            BuildError::MissingIndex { path } => path@,
            BuildError::MissingTitle { path } => path@,
        }
    }

    /// How the message of the error begins.
    pub open spec fn headline(&self) -> Seq<char> {
        match self {
            BuildError::Io { .. } => IO_MESSAGE@,
            BuildError::MissingIndex { .. } => MISSING_INDEX_MESSAGE@,
            BuildError::MissingTitle { .. } => MISSING_TITLE_MESSAGE@,
        }
    }

    /// The error in words: what went wrong, and the path.
    pub fn message(&self) -> (text: String)
        ensures
            text@ == self.headline() + self.path(),
    {
        match self {
            BuildError::Io { path } => IO_MESSAGE.to_owned().concat(path.as_str()),
            BuildError::MissingIndex { path } => MISSING_INDEX_MESSAGE.to_owned().concat(
                path.as_str(),
            ),
            BuildError::MissingTitle { path } => MISSING_TITLE_MESSAGE.to_owned().concat(
                path.as_str(),
            ),
        }
    }
}

/// What one entry comes to: a node, nothing, or the end of the build.
pub type Outcome = Result<Option<NodeView>, BuildErrorView>;

/// The first entry at or after `from` that is named `name`.
pub open spec fn first_named(entries: Seq<EntryView>, name: Seq<char>, from: int) -> Option<int>
    decreases entries.len() - from,
{
    if from < 0 || from >= entries.len() {
        None
    } else if entries[from].name == name {
        Some(from)
    } else {
        first_named(entries, name, from + 1)
    }
}

/// The title of the document under `entry`, whose path is `path`.
pub open spec fn document_title(entry: EntryView, path: Seq<char>) -> Result<
    Seq<char>,
    BuildErrorView,
> {
    match entry.kind {
        EntryKindView::File(Some(text)) => match chapter_title(text) {
            Some(title) => Ok(title),
            None => Err(BuildErrorView::MissingTitle { path }),
        },
        _ => Err(BuildErrorView::Io { path }),
    }
}

/// The text of the document under `entry`; empty where it has none.
pub open spec fn document_text(entry: EntryView) -> Seq<char> {
    match entry.kind {
        EntryKindView::File(Some(text)) => text,
        _ => seq![],
    }
}

/// A chapter with a document behind it, before numbers are assigned.
pub open spec fn document_chapter(
    title: Seq<char>,
    body: Seq<char>,
    children: Seq<NodeView>,
    source_path: Seq<char>,
    display_path: Seq<char>,
    crumbs: Seq<Seq<char>>,
    exempt: bool,
) -> NodeView {
    NodeView::Chapter(
        ChapterView {
            title,
            body,
            children,
            number: None,
            source_path: Some(source_path),
            display_path: Some(display_path),
            ancestor_titles: crumbs,
            numbering_exempt: exempt,
        },
    )
}

/// A chapter that only holds a place: no body and no paths.
pub open spec fn draft_chapter(
    title: Seq<char>,
    children: Seq<NodeView>,
    crumbs: Seq<Seq<char>>,
    exempt: bool,
) -> NodeView {
    NodeView::Chapter(
        ChapterView {
            title,
            body: seq![],
            children,
            number: None,
            source_path: None,
            display_path: None,
            ancestor_titles: crumbs,
            numbering_exempt: exempt,
        },
    )
}

/// What a file named `entry.name` in the directory `dir` comes to, below the chapters
/// titled `crumbs`.
pub open spec fn built_file(entry: EntryView, dir: Seq<char>, crumbs: Seq<Seq<char>>, clean: bool)
    -> Outcome {
    let path = join_path(dir, entry.name);
    match file_class(entry.name) {
        FileClass::Separator => Ok(Some(NodeView::Separator)),
        FileClass::PartTitle => match document_title(entry, path) {
            Ok(title) => Ok(Some(NodeView::PartTitle(title))),
            Err(e) => Err(e),
        },
        FileClass::Partial => Ok(None),
        FileClass::Ignored => Ok(None),
        FileClass::IndexFile => Ok(None),
        FileClass::DraftChapter { exempt } => match document_title(entry, path) {
            Ok(title) => Ok(Some(draft_chapter(title, seq![], crumbs, exempt))),
            Err(e) => Err(e),
        },
        FileClass::RegularChapter { exempt } => match document_title(entry, path) {
            Ok(title) => Ok(
                Some(
                    document_chapter(
                        title,
                        document_text(entry),
                        seq![],
                        path,
                        display_path_of(clean, path),
                        crumbs,
                        exempt,
                    ),
                ),
            ),
            Err(e) => Err(e),
        },
    }
}

/// The title of the index document of the directory `entry` of `dir`; an error where
/// the directory holds none that can be read and has a title.
pub open spec fn index_title(entry: EntryView, dir: Seq<char>) -> Result<
    Seq<char>,
    BuildErrorView,
> {
    let index_path = join_path(join_path(dir, entry.name), INDEX_FILE@);
    match entry.kind {
        EntryKindView::Directory(Some(entries)) => match first_named(entries, INDEX_FILE@, 0) {
            Some(i) => document_title(entries[i], index_path),
            None => Err(BuildErrorView::MissingIndex { path: index_path }),
        },
        _ => Err(BuildErrorView::Io { path: index_path }),
    }
}

/// The text of the index document of the directory `entry`; empty where it has none.
pub open spec fn index_text(entry: EntryView) -> Seq<char> {
    match entry.kind {
        EntryKindView::Directory(Some(entries)) => match first_named(entries, INDEX_FILE@, 0) {
            Some(i) => document_text(entries[i]),
            None => seq![],
        },
        _ => seq![],
    }
}

/// The titles below which the contents of the directory `entry` stand: those of the
/// chapters around the directory and its own. Where the directory has no titled index
/// document its contents are made below no title, only to see what they come to.
pub open spec fn contents_crumbs(entry: EntryView, dir: Seq<char>, crumbs: Seq<Seq<char>>) -> Seq<
    Seq<char>,
> {
    match index_title(entry, dir) {
        Ok(title) => crumbs.push(title),
        Err(_) => seq![],
    }
}

/// The path under which the chapter of the directory at `path` is shown: with cleaning
/// on `index.md` under the directory's cleaned path, with cleaning off the path of its
/// index document.
pub open spec fn directory_display_path(clean: bool, path: Seq<char>) -> Seq<char> {
    if clean {
        join_path(cleaned_path(path), INDEX_DISPLAY_FILE@)
    } else {
        join_path(path, INDEX_FILE@)
    }
}

/// What a directory named `name` in `dir` comes to, given whether it holds an index
/// document, the title and text of that document, and what its contents come to.
///
/// With an index document it is a chapter: titled by that document, with the nodes of
/// its contents below it; a draft where its name says so. With cleaning on it is shown as
/// `index.md` under the directory's display path, with cleaning off under the path of the
/// index document as it is. An index document without a title, and contents that end the
/// build, end it for the directory too. Without an index document the directory comes to
/// nothing where its contents come to no node, and ends the build where they come to one.
pub open spec fn directory_outcome(
    name: Seq<char>,
    indexed: bool,
    title: Result<Seq<char>, BuildErrorView>,
    text: Seq<char>,
    contents: Result<Seq<NodeView>, BuildErrorView>,
    dir: Seq<char>,
    crumbs: Seq<Seq<char>>,
    clean: bool,
) -> Outcome {
    let path = join_path(dir, name);
    let index_path = join_path(path, INDEX_FILE@);
    if !indexed {
        match contents {
            Err(e) => Err(e),
            Ok(nodes) => if nodes.len() == 0 {
                Ok(None)
            } else {
                Err(BuildErrorView::MissingIndex { path: index_path })
            },
        }
    } else {
        match title {
            Err(e) => Err(e),
            Ok(title) => match contents {
                Err(e) => Err(e),
                Ok(children) => if is_draft_name(name) {
                    Ok(Some(draft_chapter(title, children, crumbs, false)))
                } else {
                    Ok(
                        Some(
                            document_chapter(
                                title,
                                text,
                                children,
                                index_path,
                                directory_display_path(clean, path),
                                crumbs,
                                false,
                            ),
                        ),
                    )
                },
            },
        }
    }
}

/// What one entry of the directory `dir` comes to, below the chapters titled `crumbs`.
///
/// The summary file, whatever it is, and what is neither file nor directory come to
/// nothing. An entry of unknown kind and a directory that cannot be listed end the build.
/// A file comes to what `built_file` says, a directory to what `directory_outcome` says
/// of its index document and its contents.
pub open spec fn built_item(entry: EntryView, dir: Seq<char>, crumbs: Seq<Seq<char>>, clean: bool)
    -> Outcome
    decreases entry, 0nat,
{
    let path = join_path(dir, entry.name);
    if entry.name == SUMMARY_FILE@ {
        Ok(None)
    } else {
        match entry.kind {
            EntryKindView::Unknown => Err(BuildErrorView::Io { path }),
            EntryKindView::Other => Ok(None),
            EntryKindView::File(_) => built_file(entry, dir, crumbs, clean),
            EntryKindView::Directory(None) => Err(BuildErrorView::Io { path }),
            EntryKindView::Directory(Some(entries)) => directory_outcome(
                entry.name,
                first_named(entries, INDEX_FILE@, 0) is Some,
                index_title(entry, dir),
                index_text(entry),
                built_items(entries, path, contents_crumbs(entry, dir, crumbs), clean),
                dir,
                crumbs,
                clean,
            ),
        }
    }
}

/// What each entry of a listing comes to, in the order of the listing.
pub open spec fn outcomes(
    entries: Seq<EntryView>,
    dir: Seq<char>,
    crumbs: Seq<Seq<char>>,
    clean: bool,
) -> Seq<Outcome>
    decreases entries, 1nat,
{
    Seq::new(
        entries.len(),
        |i: int|
            if 0 <= i < entries.len() {
                built_item(entries[i], dir, crumbs, clean)
            } else {
                Ok(None)
            },
    )
}

/// The nodes of the first `upto` entries in `order`, or the first error among them.
pub open spec fn gathered(results: Seq<Outcome>, order: Seq<int>, upto: int) -> Result<
    Seq<NodeView>,
    BuildErrorView,
>
    decreases upto,
{
    if upto <= 0 || upto > order.len() {
        Ok(seq![])
    } else {
        match gathered(results, order, upto - 1) {
            Err(e) => Err(e),
            Ok(nodes) => match results[order[upto - 1]] {
                Err(e) => Err(e),
                Ok(None) => Ok(nodes),
                Ok(Some(node)) => Ok(nodes.push(node)),
            },
        }
    }
}

/// The nodes that the entries of the directory `dir` come to, in the order of their names,
/// or the error of the first entry in that order that ends the build.
pub open spec fn built_items(
    entries: Seq<EntryView>,
    dir: Seq<char>,
    crumbs: Seq<Seq<char>>,
    clean: bool,
) -> Result<Seq<NodeView>, BuildErrorView>
    decreases entries, 2nat,
{
    gathered(
        outcomes(entries, dir, crumbs, clean),
        name_order(names_of(entries)),
        entries.len() as int,
    )
}

/// The view of what `load_book_item` returns.
pub open spec fn outcome_view(result: Result<Option<TreeNode>, BuildError>) -> Outcome {
    match result {
        Ok(Some(node)) => Ok(Some(node@)),
        Ok(None) => Ok(None),
        Err(e) => Err(e@),
    }
}

/// The view of what `load_book_items` returns.
pub open spec fn forest_result_view(result: Result<Vec<TreeNode>, BuildError>) -> Result<
    Seq<NodeView>,
    BuildErrorView,
> {
    match result {
        Ok(nodes) => Ok(forest_view(nodes@)),
        Err(e) => Err(e@),
    }
}

/// Once an entry has ended the build, the entries after it change nothing.
proof fn lemma_gathered_error_stays(results: Seq<Outcome>, order: Seq<int>, at: int, upto: int)
    requires
        0 <= at <= upto <= order.len(),
        gathered(results, order, at) is Err,
    ensures
        gathered(results, order, upto) == gathered(results, order, at),
    decreases upto - at,
{
    if at < upto {
        lemma_gathered_error_stays(results, order, at, upto - 1);
    }
}

/// Finds the index document among the entries of a directory.
fn find_index(entries: &Vec<Entry>) -> (found: Option<usize>)
    ensures
        match found {
            Some(i) => i < entries@.len() && first_named(listing_view(entries@), INDEX_FILE@, 0)
                == Some(i as int),
            None => first_named(listing_view(entries@), INDEX_FILE@, 0) is None,
        },
{
    let mut i: usize = 0;
    while i < entries.len()
        invariant
            i <= entries.len(),
            first_named(listing_view(entries@), INDEX_FILE@, 0) == first_named(
                listing_view(entries@),
                INDEX_FILE@,
                i as int,
            ),
        decreases entries.len() - i,
    {
        if same_name(entries[i].name.as_str(), INDEX_FILE) {
            return Some(i);
        }
        i = i + 1;
    }
    None
}

/// Reads the title of the document under `entry`, whose path is `path`.
fn title_of(entry: &Entry, path: &str) -> (title: Result<String, BuildError>)
    ensures
        match title {
            Ok(t) => document_title(entry@, path@) == Ok::<Seq<char>, BuildErrorView>(t@),
            Err(e) => document_title(entry@, path@) == Err::<Seq<char>, BuildErrorView>(e@),
        },
{
    match &entry.kind {
        EntryKind::File(Some(text)) => match load_chapter_title(text.as_str()) {
            Some(title) => Ok(title),
            None => Err(BuildError::MissingTitle { path: path.to_owned() }),
        },
        _ => Err(BuildError::Io { path: path.to_owned() }),
    }
}

/// A copy of the text of the document under `entry`.
fn text_of(entry: &Entry) -> (text: String)
    ensures
        text@ == document_text(entry@),
{
    match &entry.kind {
        EntryKind::File(Some(text)) => text.clone(),
        _ => String::new(),
    }
}

/// Makes a chapter with a document behind it.
fn new_chapter(
    title: String,
    body: String,
    children: Vec<TreeNode>,
    source_path: String,
    display_path: String,
    crumbs: &Vec<String>,
    exempt: bool,
) -> (node: TreeNode)
    ensures
        node@ == document_chapter(
            title@,
            body@,
            forest_view(children@),
            source_path@,
            display_path@,
            texts_view(crumbs@),
            exempt,
        ),
{
    TreeNode::Chapter(
        Chapter {
            title,
            body,
            children,
            number: None,
            source_path: Some(source_path),
            display_path: Some(display_path),
            ancestor_titles: copy_texts(crumbs),
            numbering_exempt: exempt,
        },
    )
}

/// Makes a chapter that only holds a place.
fn new_draft(title: String, children: Vec<TreeNode>, crumbs: &Vec<String>, exempt: bool) -> (node:
    TreeNode)
    ensures
        node@ == draft_chapter(title@, forest_view(children@), texts_view(crumbs@), exempt),
{
    TreeNode::Chapter(
        Chapter {
            title,
            body: String::new(),
            children,
            number: None,
            source_path: None,
            display_path: None,
            ancestor_titles: copy_texts(crumbs),
            numbering_exempt: exempt,
        },
    )
}

/// No nodes.
fn no_children() -> (children: Vec<TreeNode>)
    ensures
        forest_view(children@) == Seq::<NodeView>::empty(),
{
    let children: Vec<TreeNode> = Vec::new();
    assert(forest_view(children@) =~= seq![]);
    children
}

/// Makes the node of a file, if it has one.
fn load_file(entry: &Entry, dir: &str, crumbs: &Vec<String>, conf: &Config) -> (result: Result<
    Option<TreeNode>,
    BuildError,
>)
    ensures
        outcome_view(result) == built_file(
            entry@,
            dir@,
            texts_view(crumbs@),
            conf.cleans_paths(),
        ),
{
    let path = join(dir, entry.name.as_str());
    match classify_file(entry.name.as_str()) {
        FileClass::Separator => Ok(Some(TreeNode::Separator)),
        FileClass::PartTitle => match title_of(entry, path.as_str()) {
            Ok(title) => Ok(Some(TreeNode::PartTitle(title))),
            Err(e) => Err(e),
        },
        FileClass::Partial => Ok(None),
        FileClass::Ignored => Ok(None),
        FileClass::IndexFile => Ok(None),
        FileClass::DraftChapter { exempt } => match title_of(entry, path.as_str()) {
            Ok(title) => Ok(Some(new_draft(title, no_children(), crumbs, exempt))),
            Err(e) => Err(e),
        },
        FileClass::RegularChapter { exempt } => match title_of(entry, path.as_str()) {
            Ok(title) => {
                let display_path = conf.clean_path(path.as_str());
                Ok(
                    Some(
                        new_chapter(
                            title,
                            text_of(entry),
                            no_children(),
                            path,
                            display_path,
                            crumbs,
                            exempt,
                        ),
                    ),
                )
            },
            Err(e) => Err(e),
        },
    }
}

/// Makes the node of one entry of the directory `dir`, if it has one, below the chapters
/// titled `crumbs`.
pub fn load_book_item(entry: &Entry, dir: &str, crumbs: &Vec<String>, conf: &Config) -> (result:
    Result<Option<TreeNode>, BuildError>)
    ensures
        outcome_view(result) == built_item(
            entry@,
            dir@,
            texts_view(crumbs@),
            conf.cleans_paths(),
        ),
    decreases entry, 0nat,
{
    if same_name(entry.name.as_str(), SUMMARY_FILE) {
        return Ok(None);
    }
    let path = join(dir, entry.name.as_str());
    let entries = match &entry.kind {
        EntryKind::Unknown => {
            return Err(BuildError::Io { path });
        },
        EntryKind::Other => {
            return Ok(None);
        },
        EntryKind::File(_) => {
            return load_file(entry, dir, crumbs, conf);
        },
        EntryKind::Directory(None) => {
            return Err(BuildError::Io { path });
        },
        EntryKind::Directory(Some(entries)) => entries,
    };
    let index_path = join(path.as_str(), INDEX_FILE);
    let index = match find_index(entries) {
        Some(i) => &entries[i],
        None => {
            // Without an index document the directory may still hold nothing but assets.
            let no_crumbs: Vec<String> = Vec::new();
            assert(texts_view(no_crumbs@) =~= seq![]);
            return match load_book_items(entries, path.as_str(), &no_crumbs, conf) {
                Err(e) => Err(e),
                Ok(nodes) => if nodes.len() == 0 {
                    Ok(None)
                } else {
                    Err(BuildError::MissingIndex { path: index_path })
                },
            };
        },
    };
    let ghost listing = listing_view(entries@);
    assert(index@ == listing[first_named(listing, INDEX_FILE@, 0)->Some_0]);
    let title = match title_of(index, index_path.as_str()) {
        Ok(title) => title,
        Err(e) => {
            return Err(e);
        },
    };
    let mut below = copy_texts(crumbs);
    below.push(title.clone());
    assert(texts_view(below@) =~= texts_view(crumbs@).push(title@));
    let children = match load_book_items(entries, path.as_str(), &below, conf) {
        Ok(children) => children,
        Err(e) => {
            return Err(e);
        },
    };
    if has_draft_marker(entry.name.as_str()) {
        return Ok(Some(new_draft(title, children, crumbs, false)));
    }
    let display_path = if conf.clean_paths() {
        join(conf.clean_path(path.as_str()).as_str(), INDEX_DISPLAY_FILE)
    } else {
        index_path.clone()
    };
    Ok(
        Some(
            new_chapter(title, text_of(index), children, index_path, display_path, crumbs, false),
        ),
    )
}

/// Makes the nodes of the entries of the directory `dir`, in the order of their names,
/// below the chapters titled `crumbs`. The first entry in that order that cannot be made
/// into the outline ends the build with its error.
pub fn load_book_items(
    entries: &Vec<Entry>,
    dir: &str,
    crumbs: &Vec<String>,
    conf: &Config,
) -> (result: Result<Vec<TreeNode>, BuildError>)
    ensures
        forest_result_view(result) == built_items(
            listing_view(entries@),
            dir@,
            texts_view(crumbs@),
            conf.cleans_paths(),
        ),
    decreases entries, 2nat,
{
    let n = entries.len();
    let mut names: Vec<Vec<char>> = Vec::new();
    let mut i: usize = 0;
    while i < n
        invariant
            n == entries.len(),
            i <= n,
            names@.len() == i,
            forall|j: int| 0 <= j < i ==> names@[j]@ == entries@[j].name@,
        decreases n - i,
    {
        names.push(chars_of(entries[i].name.as_str()));
        i = i + 1;
    }
    let ghost listing = listing_view(entries@);
    let ghost results = outcomes(listing, dir@, texts_view(crumbs@), conf.cleans_paths());
    let ghost sorted = name_order(names_of(listing));
    assert(chars_view(names@) =~= names_of(listing));
    let order = sort_by_name(&names);
    let mut nodes: Vec<TreeNode> = Vec::new();
    let mut at: usize = 0;
    assert(forest_view(nodes@) =~= seq![]);
    while at < n
        invariant
            n == entries.len(),
            at <= n,
            order@.len() == n,
            forall|p: int| 0 <= p < order@.len() ==> #[trigger] order@[p] < n,
            listing == listing_view(entries@),
            results == outcomes(listing, dir@, texts_view(crumbs@), conf.cleans_paths()),
            sorted == name_order(names_of(listing)),
            indices_view(order@) == sorted,
            gathered(results, sorted, at as int) == Ok::<Seq<NodeView>, BuildErrorView>(
                forest_view(nodes@),
            ),
        decreases n - at,
    {
        let which = order[at];
        assert(sorted[at as int] == which);
        assert(listing[which as int] == entries@[which as int]@);
        let ghost so_far = nodes@;
        match load_book_item(&entries[which], dir, crumbs, conf) {
            Err(e) => {
                proof {
                    assert(gathered(results, sorted, at + 1) == Err::<
                        Seq<NodeView>,
                        BuildErrorView,
                    >(e@));
                    lemma_gathered_error_stays(results, sorted, at + 1, n as int);
                }
                return Err(e);
            },
            Ok(None) => {},
            Ok(Some(node)) => {
                proof {
                    lemma_forest_view_push(so_far, node);
                }
                nodes.push(node);
            },
        }
        at = at + 1;
    }
    Ok(nodes)
}

/// An outline with its numbers assigned, and what the numbering had to report.
#[derive(Debug, PartialEq, Eq)]
pub struct Book {
    /// The top level of the outline.
    pub sections: Vec<TreeNode>,
    /// What the numbering reported, in the order of the outline.
    pub warnings: Vec<Diagnostic>,
}

/// The outline that the listing of the root comes to, before numbers are assigned. A root
/// that could not be listed ends the build.
pub open spec fn built_forest(root: Option<Seq<EntryView>>, clean: bool) -> Result<
    Seq<NodeView>,
    BuildErrorView,
> {
    match root {
        Some(entries) => built_items(entries, seq![], seq![], clean),
        None => Err(BuildErrorView::Io { path: seq![] }),
    }
}

/// The view of a `Book`.
pub struct BookView {
    pub sections: Seq<NodeView>,
    pub warnings: Seq<DiagnosticView>,
}

impl View for Book {
    type V = BookView;

    open spec fn view(&self) -> BookView {
        BookView {
            sections: forest_view(self.sections@),
            warnings: diagnostics_view(self.warnings@),
        }
    }
}

/// The book that the listing of the root comes to: its outline with the numbers assigned
/// from the top level down, and what the numbering reports of it.
pub open spec fn built_book(root: Option<Seq<EntryView>>, clean: bool) -> Result<
    BookView,
    BuildErrorView,
> {
    match built_forest(root, clean) {
        Ok(forest) => Ok(
            BookView {
                sections: numbered_forest(forest, seq![]),
                warnings: forest_warnings(forest, seq![]),
            },
        ),
        Err(e) => Err(e),
    }
}

/// The view of the listing of the root.
pub open spec fn root_view(root: Option<Vec<Entry>>) -> Option<Seq<EntryView>> {
    match root {
        Some(entries) => Some(listing_view(entries@)),
        None => None,
    }
}

/// The view of what `load_book` returns.
pub open spec fn book_result_view(result: Result<Book, BuildError>) -> Result<
    BookView,
    BuildErrorView,
> {
    match result {
        Ok(book) => Ok(book@),
        Err(e) => Err(e@),
    }
}

/// Makes the outline of the book whose root directory was listed as `root`, `None` where
/// it could not be listed, and assigns the section numbers from the top level down.
pub fn load_book(root: &Option<Vec<Entry>>, conf: &Config) -> (result: Result<Book, BuildError>)
    ensures
        book_result_view(result) == built_book(root_view(*root), conf.cleans_paths()),
{
    match root {
        None => Err(BuildError::Io { path: String::new() }),
        Some(entries) => {
            let top: Vec<String> = Vec::new();
            let no_number: Vec<u64> = Vec::new();
            assert(texts_view(top@) =~= seq![]);
            assert(number_view(no_number@) =~= seq![]);
            proof {
                reveal_strlit("");
                assert(""@ =~= seq![]);
            }
            match load_book_items(entries, "", &top, conf) {
                Err(e) => Err(e),
                Ok(sections) => {
                    let mut sections = sections;
                    let warnings = apply_section_numbers(&mut sections, &no_number);
                    Ok(Book { sections, warnings })
                },
            }
        },
    }
}

} // verus!
