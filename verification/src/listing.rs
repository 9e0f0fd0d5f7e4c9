//! What holds of every listing: which directories are left out, which end the build, and
//! that the order of a listing does not matter.

use vstd::prelude::*;
use crate::book::{
    built_book, built_item, built_items, contents_crumbs, directory_outcome, document_text,
    document_title, first_named, gathered, index_text, index_title, outcomes, BookView,
    BuildErrorView, Outcome,
};
use crate::names::{file_class, FileClass, INDEX_FILE, SUMMARY_FILE};
use crate::numbering::lemma_numbered_outline;
use crate::order::{
    comes_before, lemma_order_of_first, lemma_precedes_is_total_order, name_order,
};
use crate::paths::join_path;
use crate::snapshot::{names_of, EntryKindView, EntryView};
use crate::text::precedes;
use crate::tree::{is_outline, is_outline_node, NodeView};

verus! {

/// An entry that comes to no node and no error.
pub open spec fn nothing() -> Outcome {
    Ok(None)
}

/// Nothing of `entry` can come into the outline, and nothing of it can end the build: it
/// is the summary file, or a file that is a fragment or no markdown document, or neither
/// file nor directory, or a directory that holds nothing else, at any depth. It is not
/// named like the index document.
pub open spec fn is_asset(entry: EntryView) -> bool
    decreases entry,
{
    entry.name != INDEX_FILE@ && (entry.name == SUMMARY_FILE@ || match entry.kind {
        EntryKindView::File(_) => file_class(entry.name) == FileClass::Ignored || file_class(
            entry.name,
        ) == FileClass::Partial,
        EntryKindView::Other => true,
        EntryKindView::Directory(Some(entries)) => holds_only_assets(entries),
        _ => false,
    })
}

/// Every entry of the listing is an asset.
pub open spec fn holds_only_assets(entries: Seq<EntryView>) -> bool
    decreases entries,
{
    forall|i: int| 0 <= i < entries.len() ==> is_asset(#[trigger] entries[i])
}

/// Where no entry is named `name`, none is found.
proof fn lemma_none_named(entries: Seq<EntryView>, name: Seq<char>, from: int)
    requires
        0 <= from,
        forall|i: int| 0 <= i < entries.len() ==> (#[trigger] entries[i]).name != name,
    ensures
        first_named(entries, name, from) is None,
    decreases entries.len() - from,
{
    if from < entries.len() {
        lemma_none_named(entries, name, from + 1);
    }
}

/// Entries that come to nothing leave what was gathered as it was.
proof fn lemma_gathered_nothing(results: Seq<Outcome>, order: Seq<int>, upto: int)
    requires
        0 <= upto <= order.len(),
        forall|p: int| 0 <= p < upto ==> results[#[trigger] order[p]] == nothing(),
    ensures
        gathered(results, order, upto) == Ok::<Seq<NodeView>, BuildErrorView>(seq![]),
    decreases upto,
{
    if upto > 0 {
        lemma_gathered_nothing(results, order, upto - 1);
    }
}

/// What was gathered without an error holds a node for every entry that came to one.
proof fn lemma_gathered_holds(results: Seq<Outcome>, order: Seq<int>, upto: int, p: int)
    requires
        0 <= p < upto <= order.len(),
        results[order[p]] is Ok,
        results[order[p]]->Ok_0 is Some,
        gathered(results, order, upto) is Ok,
    ensures
        gathered(results, order, upto)->Ok_0.contains(results[order[p]]->Ok_0->Some_0),
    decreases upto,
{
    let before = gathered(results, order, upto - 1);
    let last = results[order[upto - 1]];
    assert(before is Ok);
    if p == upto - 1 {
        let nodes = before->Ok_0.push(last->Ok_0->Some_0);
        assert(nodes[nodes.len() - 1] == last->Ok_0->Some_0);
    } else {
        lemma_gathered_holds(results, order, upto - 1, p);
        let node = results[order[p]]->Ok_0->Some_0;
        let at = choose|at: int| 0 <= at < before->Ok_0.len() && before->Ok_0[at] == node;
        match last {
            Ok(Some(other)) => {
                assert(before->Ok_0.push(other)[at] == node);
            },
            _ => {},
        }
    }
}

/// A listing that holds only assets comes to no node and no error, in whatever directory
/// and below whatever chapters it stands.
pub proof fn lemma_assets_come_to_nothing(
    entries: Seq<EntryView>,
    dir: Seq<char>,
    crumbs: Seq<Seq<char>>,
    clean: bool,
)
    requires
        holds_only_assets(entries),
    ensures
        built_items(entries, dir, crumbs, clean) == Ok::<Seq<NodeView>, BuildErrorView>(seq![]),
    decreases entries, 1nat,
{
    let results = outcomes(entries, dir, crumbs, clean);
    let order = name_order(names_of(entries));
    lemma_order_of_first(names_of(entries), entries.len() as int);
    assert forall|p: int| 0 <= p < entries.len() implies results[#[trigger] order[p]]
        == nothing() by {
        lemma_asset_comes_to_nothing(entries[order[p]], dir, crumbs, clean);
    }
    lemma_gathered_nothing(results, order, entries.len() as int);
}

/// An asset comes to no node and no error. So a directory without a document in it, at
/// any depth, is left out of the outline and does not end the build.
pub proof fn lemma_asset_comes_to_nothing(
    entry: EntryView,
    dir: Seq<char>,
    crumbs: Seq<Seq<char>>,
    clean: bool,
)
    requires
        is_asset(entry),
    ensures
        built_item(entry, dir, crumbs, clean) == nothing(),
    decreases entry, 0nat,
{
    if entry.name != SUMMARY_FILE@ {
        match entry.kind {
            EntryKindView::Directory(Some(entries)) => {
                assert forall|i: int| 0 <= i < entries.len() implies (#[trigger] entries[i]).name
                    != INDEX_FILE@ by {
                    assert(is_asset(entries[i]));
                }
                lemma_none_named(entries, INDEX_FILE@, 0);
                lemma_assets_come_to_nothing(entries, join_path(dir, entry.name), seq![], clean);
            },
            _ => {},
        }
    }
}

/// A directory that holds documents and no index document ends the build. Where entry `i`
/// of a directory without an entry named like the index document comes to a node, the
/// directory comes to an error: the one that its contents come to, or, where they come to
/// none, the missing index document under the directory's path.
pub proof fn lemma_documents_need_an_index(
    entry: EntryView,
    dir: Seq<char>,
    crumbs: Seq<Seq<char>>,
    clean: bool,
    i: int,
)
    requires
        entry.name != SUMMARY_FILE@,
        entry.kind is Directory,
        entry.kind->Directory_0 is Some,
        forall|j: int|
            0 <= j < entry.kind->Directory_0->Some_0.len() ==> (
            #[trigger] entry.kind->Directory_0->Some_0[j]).name != INDEX_FILE@,
        0 <= i < entry.kind->Directory_0->Some_0.len(),
        built_item(
            entry.kind->Directory_0->Some_0[i],
            join_path(dir, entry.name),
            seq![],
            clean,
        ) matches Ok(Some(_)),
    ensures
        built_item(entry, dir, crumbs, clean) == (match built_items(
            entry.kind->Directory_0->Some_0,
            join_path(dir, entry.name),
            seq![],
            clean,
        ) {
            Err(e) => Err::<Option<NodeView>, BuildErrorView>(e),
            Ok(_) => Err(
                BuildErrorView::MissingIndex {
                    path: join_path(join_path(dir, entry.name), INDEX_FILE@),
                },
            ),
        }),
{
    let entries = entry.kind->Directory_0->Some_0;
    let path = join_path(dir, entry.name);
    let names = names_of(entries);
    let order = name_order(names);
    let results = outcomes(entries, path, seq![], clean);
    lemma_none_named(entries, INDEX_FILE@, 0);
    lemma_order_of_first(names, entries.len() as int);
    if built_items(entries, path, seq![], clean) is Ok {
        assert(order.contains(i));
        let p = choose|p: int| 0 <= p < order.len() && order[p] == i;
        lemma_gathered_holds(results, order, entries.len() as int, p);
    }
}

/// Every node that was gathered is the node that some entry came to.
proof fn lemma_gathered_from(results: Seq<Outcome>, order: Seq<int>, upto: int, k: int) -> (p:
    int)
    requires
        0 <= upto <= order.len(),
        gathered(results, order, upto) is Ok,
        0 <= k < gathered(results, order, upto)->Ok_0.len(),
    ensures
        0 <= p < upto,
        results[order[p]] == Ok::<Option<NodeView>, BuildErrorView>(
            Some(gathered(results, order, upto)->Ok_0[k]),
        ),
    decreases upto,
{
    let before = gathered(results, order, upto - 1);
    assert(before is Ok);
    if k < before->Ok_0.len() {
        lemma_gathered_from(results, order, upto - 1, k)
    } else {
        upto - 1
    }
}

/// What is built is a well-formed outline: every chapter names the chapters around it as
/// its ancestors, the outermost first, and has a source path and a display path unless it
/// is a draft, which has neither and no body.
pub proof fn lemma_built_items_are_outline(
    entries: Seq<EntryView>,
    dir: Seq<char>,
    crumbs: Seq<Seq<char>>,
    clean: bool,
)
    requires
        built_items(entries, dir, crumbs, clean) is Ok,
    ensures
        is_outline(built_items(entries, dir, crumbs, clean)->Ok_0, crumbs),
    decreases entries, 1nat,
{
    let nodes = built_items(entries, dir, crumbs, clean)->Ok_0;
    let results = outcomes(entries, dir, crumbs, clean);
    let order = name_order(names_of(entries));
    lemma_order_of_first(names_of(entries), entries.len() as int);
    assert forall|k: int| 0 <= k < nodes.len() implies is_outline_node(
        #[trigger] nodes[k],
        crumbs,
    ) by {
        let p = lemma_gathered_from(results, order, entries.len() as int, k);
        lemma_built_item_is_outline(entries[order[p]], dir, crumbs, clean);
    }
}

/// The node that an entry comes to is well formed below the chapters it stands below.
pub proof fn lemma_built_item_is_outline(
    entry: EntryView,
    dir: Seq<char>,
    crumbs: Seq<Seq<char>>,
    clean: bool,
)
    requires
        built_item(entry, dir, crumbs, clean) matches Ok(Some(_)),
    ensures
        is_outline_node(built_item(entry, dir, crumbs, clean)->Ok_0->Some_0, crumbs),
    decreases entry, 0nat,
{
    match entry.kind {
        EntryKindView::Directory(Some(entries)) => {
            if first_named(entries, INDEX_FILE@, 0) is Some {
                lemma_built_items_are_outline(
                    entries,
                    join_path(dir, entry.name),
                    contents_crumbs(entry, dir, crumbs),
                    clean,
                );
            }
        },
        _ => {},
    }
}

/// The outline of a book is well formed from the top level down, with its numbers
/// assigned as without.
pub proof fn lemma_built_book_is_outline(root: Option<Seq<EntryView>>, clean: bool)
    requires
        built_book(root, clean) is Ok,
    ensures
        is_outline(built_book(root, clean)->Ok_0.sections, seq![]),
{
    let entries = root->Some_0;
    lemma_built_items_are_outline(entries, seq![], seq![], clean);
    lemma_numbered_outline(built_items(entries, seq![], seq![], clean)->Ok_0, seq![], seq![]);
}

/// The entries of a listing in the order of their names.
pub open spec fn arranged(entries: Seq<EntryView>) -> Seq<EntryView> {
    let order = name_order(names_of(entries));
    Seq::new(entries.len(), |p: int| entries[order[p]])
}

/// No two entries of the listing have the same name.
pub open spec fn names_differ(entries: Seq<EntryView>) -> bool {
    forall|i: int, j: int|
        0 <= i < j < entries.len() ==> (#[trigger] entries[i]).name != (#[trigger] entries[j]).name
}

/// The names of the listing rise from each entry to the next.
pub open spec fn names_rise(entries: Seq<EntryView>) -> bool {
    forall|i: int, j: int|
        0 <= i < j < entries.len() ==> precedes(
            (#[trigger] entries[i]).name,
            (#[trigger] entries[j]).name,
        )
}

/// Each listing holds every entry of the other.
pub open spec fn same_entries(a: Seq<EntryView>, b: Seq<EntryView>) -> bool {
    forall|e: EntryView| a.contains(e) <==> b.contains(e)
}

/// A listing without a name twice, arranged: the same entries, with rising names.
proof fn lemma_arranged(entries: Seq<EntryView>)
    requires
        names_differ(entries),
    ensures
        arranged(entries).len() == entries.len(),
        names_rise(arranged(entries)),
        same_entries(arranged(entries), entries),
{
    let names = names_of(entries);
    let order = name_order(names);
    let sorted = arranged(entries);
    lemma_order_of_first(names, entries.len() as int);
    assert forall|p: int, q: int| 0 <= p < q < sorted.len() implies precedes(
        (#[trigger] sorted[p]).name,
        (#[trigger] sorted[q]).name,
    ) by {
        assert(comes_before(names, order[p], order[q]));
    }
    assert forall|e: EntryView| sorted.contains(e) <==> entries.contains(e) by {
        if sorted.contains(e) {
            let p = choose|p: int| 0 <= p < sorted.len() && sorted[p] == e;
            assert(entries[order[p]] == e);
        }
        if entries.contains(e) {
            let i = choose|i: int| 0 <= i < entries.len() && entries[i] == e;
            assert(order.contains(i));
            let p = choose|p: int| 0 <= p < order.len() && order[p] == i;
            assert(sorted[p] == e);
        }
    }
}

/// What is gathered depends on what the entries come to, in the order they are taken in.
proof fn lemma_gathered_alike(
    first: Seq<Outcome>,
    first_order: Seq<int>,
    second: Seq<Outcome>,
    second_order: Seq<int>,
    upto: int,
)
    requires
        0 <= upto <= first_order.len(),
        upto <= second_order.len(),
        forall|p: int|
            0 <= p < upto ==> first[#[trigger] first_order[p]] == second[
            #[trigger] second_order[p]],
    ensures
        gathered(first, first_order, upto) == gathered(second, second_order, upto),
    decreases upto,
{
    if upto > 0 {
        lemma_gathered_alike(first, first_order, second, second_order, upto - 1);
        assert(first[first_order[upto - 1]] == second[second_order[upto - 1]]);
    }
}

/// `a` and `b` show the same entry, but for the order in which the directories below it
/// were listed.
pub open spec fn same_entry(a: EntryView, b: EntryView) -> bool
    decreases a, 0nat,
{
    a.name == b.name && match a.kind {
        EntryKindView::Directory(Some(below)) => match b.kind {
            EntryKindView::Directory(Some(other)) => same_listing(below, other),
            _ => false,
        },
        _ => a.kind == b.kind,
    }
}

/// Some entry of `listing` shows the entry `a`.
pub open spec fn shown_in(a: EntryView, listing: Seq<EntryView>) -> bool
    decreases a, 1nat,
{
    exists|j: int| 0 <= j < listing.len() && same_entry(a, #[trigger] listing[j])
}

/// The entry `b` shows some entry of `listing`.
pub open spec fn shows_one_of(listing: Seq<EntryView>, b: EntryView) -> bool
    decreases listing, 0nat,
{
    exists|i: int| 0 <= i < listing.len() && same_entry(#[trigger] listing[i], b)
}

/// Each entry of `a` is shown by one of `b`, and each of `b` shows one of `a`.
pub open spec fn show_each_other(a: Seq<EntryView>, b: Seq<EntryView>) -> bool
    decreases a, 1nat,
{
    &&& forall|i: int| 0 <= i < a.len() ==> shown_in(#[trigger] a[i], b)
    &&& forall|j: int| 0 <= j < b.len() ==> shows_one_of(a, #[trigger] b[j])
}

/// `a` and `b` list the same directory, but for the order of the listing, here and at any
/// depth: no name stands twice in either, and each entry of the one is shown by an entry
/// of the other.
pub open spec fn same_listing(a: Seq<EntryView>, b: Seq<EntryView>) -> bool
    decreases a, 2nat,
{
    names_differ(a) && names_differ(b) && show_each_other(a, b)
}

/// Two listings with rising names that show each other's entries show the same entry at
/// each place.
proof fn lemma_risen_alike(s: Seq<EntryView>, t: Seq<EntryView>, upto: int)
    requires
        names_rise(s),
        names_rise(t),
        show_each_other(s, t),
        0 <= upto <= s.len(),
        upto <= t.len(),
    ensures
        forall|k: int| 0 <= k < upto ==> same_entry(s[k], t[k]),
    decreases upto,
{
    if upto > 0 {
        lemma_risen_alike(s, t, upto - 1);
        let p = upto - 1;
        assert(shown_in(s[p], t));
        assert(shows_one_of(s, t[p]));
        let j = choose|j: int| 0 <= j < t.len() && same_entry(s[p], #[trigger] t[j]);
        let i = choose|i: int| 0 <= i < s.len() && same_entry(#[trigger] s[i], t[p]);
        lemma_precedes_is_total_order(s[p].name, t[p].name, s[p].name);
        lemma_precedes_is_total_order(t[p].name, s[p].name, t[p].name);
        if j < p {
            assert(same_entry(s[j], t[j]));
            assert(precedes(s[j].name, s[p].name));
            assert(false);
        } else if i < p {
            assert(same_entry(s[i], t[i]));
            assert(precedes(t[i].name, t[p].name));
            assert(false);
        } else if j > p && i > p {
            assert(precedes(t[p].name, t[j].name));
            assert(precedes(s[p].name, s[i].name));
            assert(false);
        }
        assert(same_entry(s[p], t[p]));
    }
}

/// Two listings with rising names that show each other's entries are of one length.
proof fn lemma_risen_same_length(s: Seq<EntryView>, t: Seq<EntryView>)
    requires
        names_rise(s),
        names_rise(t),
        show_each_other(s, t),
    ensures
        s.len() == t.len(),
{
    if s.len() < t.len() {
        let n = s.len() as int;
        lemma_risen_alike(s, t, n);
        assert(shows_one_of(s, t[n]));
        let i = choose|i: int| 0 <= i < s.len() && same_entry(#[trigger] s[i], t[n]);
        assert(same_entry(s[i], t[i]));
        assert(precedes(t[i].name, t[n].name));
        lemma_precedes_is_total_order(t[n].name, t[n].name, t[n].name);
        assert(false);
    }
    if t.len() < s.len() {
        let n = t.len() as int;
        lemma_risen_alike(s, t, n);
        assert(shown_in(s[n], t));
        let j = choose|j: int| 0 <= j < t.len() && same_entry(s[n], #[trigger] t[j]);
        assert(same_entry(s[j], t[j]));
        assert(precedes(s[j].name, s[n].name));
        lemma_precedes_is_total_order(s[n].name, s[n].name, s[n].name);
        assert(false);
    }
}

/// Arranging two listings that show each other's entries leaves them doing so.
proof fn lemma_arranged_show_each_other(a: Seq<EntryView>, b: Seq<EntryView>)
    requires
        same_listing(a, b),
    ensures
        show_each_other(arranged(a), arranged(b)),
{
    let s = arranged(a);
    let t = arranged(b);
    lemma_arranged(a);
    lemma_arranged(b);
    assert forall|p: int| 0 <= p < s.len() implies shown_in(#[trigger] s[p], t) by {
        assert(s.contains(s[p]));
        assert(a.contains(s[p]));
        let i = choose|i: int| 0 <= i < a.len() && a[i] == s[p];
        assert(shown_in(a[i], b));
        let j = choose|j: int| 0 <= j < b.len() && same_entry(a[i], #[trigger] b[j]);
        assert(b.contains(b[j]));
        assert(t.contains(b[j]));
        let q = choose|q: int| 0 <= q < t.len() && t[q] == b[j];
        assert(same_entry(s[p], t[q]));
    }
    assert forall|q: int| 0 <= q < t.len() implies shows_one_of(s, #[trigger] t[q]) by {
        assert(t.contains(t[q]));
        assert(b.contains(t[q]));
        let j = choose|j: int| 0 <= j < b.len() && b[j] == t[q];
        assert(shows_one_of(a, b[j]));
        let i = choose|i: int| 0 <= i < a.len() && same_entry(#[trigger] a[i], b[j]);
        assert(a.contains(a[i]));
        assert(s.contains(a[i]));
        let p = choose|p: int| 0 <= p < s.len() && s[p] == a[i];
        assert(same_entry(s[p], t[q]));
    }
}

/// What `first_named` finds is an entry of that name, and it finds none only where no
/// entry has it.
proof fn lemma_first_named(entries: Seq<EntryView>, name: Seq<char>, from: int)
    requires
        0 <= from,
    ensures
        match first_named(entries, name, from) {
            Some(i) => from <= i < entries.len() && entries[i].name == name,
            None => forall|k: int|
                from <= k < entries.len() ==> (#[trigger] entries[k]).name != name,
        },
    decreases entries.len() - from,
{
    if from < entries.len() && entries[from].name != name {
        lemma_first_named(entries, name, from + 1);
    }
}

/// Two listings of the same directory hold the index document both or neither, and where
/// they hold it, the two entries show the same entry.
proof fn lemma_same_index(a: Seq<EntryView>, b: Seq<EntryView>)
    requires
        same_listing(a, b),
    ensures
        first_named(a, INDEX_FILE@, 0) is Some <==> first_named(b, INDEX_FILE@, 0) is Some,
        first_named(a, INDEX_FILE@, 0) is Some ==> same_entry(
            a[first_named(a, INDEX_FILE@, 0)->Some_0],
            b[first_named(b, INDEX_FILE@, 0)->Some_0],
        ),
{
    lemma_first_named(a, INDEX_FILE@, 0);
    lemma_first_named(b, INDEX_FILE@, 0);
    match first_named(a, INDEX_FILE@, 0) {
        Some(i) => {
            assert(shown_in(a[i], b));
            let j = choose|j: int| 0 <= j < b.len() && same_entry(a[i], #[trigger] b[j]);
            assert(b[j].name == INDEX_FILE@);
            let found = first_named(b, INDEX_FILE@, 0)->Some_0;
            if found != j {
                assert(b[found].name == b[j].name);
                assert(false);
            }
        },
        None => {
            if first_named(b, INDEX_FILE@, 0) is Some {
                let j = first_named(b, INDEX_FILE@, 0)->Some_0;
                assert(shows_one_of(a, b[j]));
                let i = choose|i: int| 0 <= i < a.len() && same_entry(#[trigger] a[i], b[j]);
                assert(a[i].name == INDEX_FILE@);
                assert(false);
            }
        },
    }
}

/// Two entries that show the same entry are the same document.
proof fn lemma_same_document(a: EntryView, b: EntryView, path: Seq<char>)
    requires
        same_entry(a, b),
    ensures
        document_title(a, path) == document_title(b, path),
        document_text(a) == document_text(b),
{
}

/// Arranged, two listings of the same directory are of one length and show the same
/// entry at each place.
proof fn lemma_same_places(a: Seq<EntryView>, b: Seq<EntryView>)
    requires
        same_listing(a, b),
    ensures
        a.len() == b.len(),
        forall|p: int| 0 <= p < a.len() ==> same_entry(#[trigger] arranged(a)[p], arranged(b)[p]),
{
    lemma_arranged(a);
    lemma_arranged(b);
    lemma_arranged_show_each_other(a, b);
    lemma_risen_same_length(arranged(a), arranged(b));
    lemma_risen_alike(arranged(a), arranged(b), a.len() as int);
}

/// What a directory with an index document comes to, given what its contents come to.
proof fn lemma_indexed_directory(
    entry: EntryView,
    dir: Seq<char>,
    crumbs: Seq<Seq<char>>,
    clean: bool,
)
    requires
        entry.name != SUMMARY_FILE@,
        entry.kind is Directory,
        entry.kind->Directory_0 is Some,
    ensures
        built_item(entry, dir, crumbs, clean) == directory_outcome(
            entry.name,
            first_named(entry.kind->Directory_0->Some_0, INDEX_FILE@, 0) is Some,
            index_title(entry, dir),
            index_text(entry),
            built_items(
                entry.kind->Directory_0->Some_0,
                join_path(dir, entry.name),
                contents_crumbs(entry, dir, crumbs),
                clean,
            ),
            dir,
            crumbs,
            clean,
        ),
{
}

/// Two listings of the same directory come to the same nodes in the same order, or to
/// the same error: the order in which a directory was listed does not matter to the
/// outline, at any depth.
pub proof fn lemma_same_listing_same_items(
    a: Seq<EntryView>,
    b: Seq<EntryView>,
    dir: Seq<char>,
    crumbs: Seq<Seq<char>>,
    clean: bool,
)
    requires
        same_listing(a, b),
    ensures
        built_items(a, dir, crumbs, clean) == built_items(b, dir, crumbs, clean),
    decreases a, 1nat,
{
    lemma_same_places(a, b);
    let first_order = name_order(names_of(a));
    let second_order = name_order(names_of(b));
    lemma_order_of_first(names_of(a), a.len() as int);
    lemma_order_of_first(names_of(b), b.len() as int);
    let first = outcomes(a, dir, crumbs, clean);
    let second = outcomes(b, dir, crumbs, clean);
    assert forall|p: int| 0 <= p < a.len() implies first[#[trigger] first_order[p]]
        == second[#[trigger] second_order[p]] by {
        let i = first_order[p];
        let j = second_order[p];
        assert(arranged(a)[p] == a[i]);
        assert(arranged(b)[p] == b[j]);
        lemma_same_entry_same_item(a[i], b[j], dir, crumbs, clean);
    }
    lemma_gathered_alike(first, first_order, second, second_order, a.len() as int);
}

/// Two entries that show the same entry and are no listed directories are equal.
proof fn lemma_same_plain_entry(a: EntryView, b: EntryView)
    requires
        same_entry(a, b),
        !(a.kind is Directory && a.kind->Directory_0 is Some),
    ensures
        a == b,
{
}

/// Two entries that show the same entry come to the same node, to nothing both, or to
/// the same error.
pub proof fn lemma_same_entry_same_item(
    a: EntryView,
    b: EntryView,
    dir: Seq<char>,
    crumbs: Seq<Seq<char>>,
    clean: bool,
)
    requires
        same_entry(a, b),
    ensures
        built_item(a, dir, crumbs, clean) == built_item(b, dir, crumbs, clean),
    decreases a, 0nat,
{
    if a.kind is Directory && a.kind->Directory_0 is Some {
        if a.name != SUMMARY_FILE@ {
            let below = a.kind->Directory_0->Some_0;
            let other = b.kind->Directory_0->Some_0;
            let path = join_path(dir, a.name);
            lemma_same_index(below, other);
            if first_named(below, INDEX_FILE@, 0) is Some {
                let i = first_named(below, INDEX_FILE@, 0)->Some_0;
                let j = first_named(other, INDEX_FILE@, 0)->Some_0;
                lemma_same_document(below[i], other[j], join_path(path, INDEX_FILE@));
            }
            assert(index_title(a, dir) == index_title(b, dir));
            assert(index_text(a) == index_text(b));
            lemma_same_listing_same_items(
                below,
                other,
                path,
                contents_crumbs(a, dir, crumbs),
                clean,
            );
            lemma_indexed_directory(a, dir, crumbs, clean);
            lemma_indexed_directory(b, dir, crumbs, clean);
        }
    } else {
        lemma_same_plain_entry(a, b);
    }
}

/// Making a book again from the same directory gives the same book: the same nodes in the
/// same order with the same numbers, or the same error, whatever order the directory and
/// those below it were listed in.
pub proof fn lemma_same_directory_same_book(a: Seq<EntryView>, b: Seq<EntryView>, clean: bool)
    requires
        same_listing(a, b),
    ensures
        built_book(Some(a), clean) == built_book(Some(b), clean),
{
    lemma_same_listing_same_items(a, b, seq![], seq![], clean);
}

/// Making a book twice from one listing gives one book: whatever two results come of the
/// same listing under the same configuration, they are the same nodes in the same order
/// with the same numbers, or the same error.
pub proof fn lemma_rebuilt_book_is_the_same(
    root: Option<Seq<EntryView>>,
    clean: bool,
    first: Result<BookView, BuildErrorView>,
    second: Result<BookView, BuildErrorView>,
)
    requires
        first == built_book(root, clean),
        second == built_book(root, clean),
    ensures
        first == second,
{
}

} // verus!
