//! The display path of a document: its path without the markup that orders and marks entries.

use regex::Regex;
use vstd::prelude::*;
use crate::names::DRAFT_MARKER;
use crate::paths::{
    component_end, join, join_path, lemma_component_end, lemma_join_path_associative, SEPARATOR,
};
use crate::text::{chars_of, ends_with, has_suffix, slice_of};

verus! {

/// The name under which the host program configures this preprocessor.
pub const PREPROCESSOR_NAME: &'static str = "fs-summary";

/// Matches the prefix that orders a name among its siblings.
pub const ORDERING_PATTERN: &'static str = "^[0-9A-Za-z]{2,3}_";

/// A digit or a letter of ASCII.
pub open spec fn is_ordering_char(c: char) -> bool {
    ('0' <= c && c <= '9') || ('A' <= c && c <= 'Z') || ('a' <= c && c <= 'z')
}

/// The length of the ordering prefix of `name`: two or three ordering characters and the
/// underscore after them. Zero where `name` has no such prefix.
pub open spec fn ordering_prefix_len(name: Seq<char>) -> int {
    if name.len() >= 3 && is_ordering_char(name[0]) && is_ordering_char(name[1]) && name[2]
        == '_' {
        3
    } else if name.len() >= 4 && is_ordering_char(name[0]) && is_ordering_char(name[1])
        && is_ordering_char(name[2]) && name[3] == '_' {
        4
    } else {
        0
    }
}

/// `name` without its ordering prefix.
pub open spec fn without_ordering_prefix(name: Seq<char>) -> Seq<char> {
    name.skip(ordering_prefix_len(name))
}

/// `name` without the draft marker at its end.
pub open spec fn without_draft_marker(name: Seq<char>) -> Seq<char> {
    if ends_with(name, DRAFT_MARKER@) {
        name.take(name.len() - DRAFT_MARKER@.len())
    } else {
        name
    }
}

/// One component of a display path: first the draft marker goes, then the ordering prefix.
pub open spec fn clean_name(name: Seq<char>) -> Seq<char> {
    without_ordering_prefix(without_draft_marker(name))
}

/// The display path of `path`: its components cleaned, and those of which something is
/// left joined again.
pub open spec fn cleaned_path(path: Seq<char>) -> Seq<char>
    decreases path.len(),
{
    let end = component_end(path, 0);
    if end < 0 || end >= path.len() {
        clean_name(path)
    } else {
        join_path(clean_name(path.take(end)), cleaned_path(path.skip(end + 1)))
    }
}

/// The display path of `path`: cleaned where `clean` says so, else the path itself.
pub open spec fn display_path_of(clean: bool, path: Seq<char>) -> Seq<char> {
    if clean {
        cleaned_path(path)
    } else {
        path
    }
}

/// Compiles `pattern` with `regex::Regex::new` and has `Regex::replace` put `replacement` in
/// place of the first match in `text`. The contract speaks of the ordering pattern and the
/// empty replacement alone: that pattern compiles, it matches only at the start of the
/// text, there two or three characters of `0-9A-Za-z` and an underscore, and with the match
/// replaced by nothing the rest of the text comes back.
#[verifier::external_body]
fn replace_first(pattern: &str, text: &str, replacement: &str) -> (replaced: Option<String>)
    requires
        pattern@ == ORDERING_PATTERN@,
        replacement@.len() == 0,
    ensures
        replaced is Some,
        replaced.unwrap()@ == without_ordering_prefix(text@),
{
    match Regex::new(pattern) {
        Ok(re) => Some(re.replace(text, replacement).into_owned()),
        Err(_) => None,
    }
}

/// Takes the draft marker from the end of `s`, where it has one.
pub fn strip_draft_indicator(s: &mut String)
    ensures
        final(s)@ == without_draft_marker(old(s)@),
{
    let chars = chars_of(s.as_str());
    let marker = chars_of(DRAFT_MARKER);
    if has_suffix(&chars, &marker) {
        let stripped = slice_of(s.as_str(), 0, chars.len() - marker.len());
        *s = stripped;
    }
}

/// Takes the ordering prefix from the start of `s`, where it has one.
pub fn strip_numbering_prefix(s: &mut String)
    ensures
        final(s)@ == without_ordering_prefix(old(s)@),
{
    proof {
        reveal_strlit("");
    }
    let replaced = replace_first(ORDERING_PATTERN, s.as_str(), "");
    match replaced {
        Some(r) => {
            *s = r;
        },
        None => {},
    }
}

/// How display paths are made.
#[derive(Clone, Debug, PartialEq, Eq)]
pub struct Config {
    clean_paths: bool,
}

impl Config {
    /// Whether display paths are cleaned.
    pub closed spec fn cleans_paths(&self) -> bool {
        self.clean_paths
    }

    /// The display path that this configuration gives `path`.
    pub open spec fn display_path(&self, path: Seq<char>) -> Seq<char> {
        display_path_of(self.cleans_paths(), path)
    }

    /// The configuration for the value of the `clean-paths` option, `None` where the option
    /// is not set or not a boolean: paths are cleaned unless it is `false`.
    pub fn new(clean_paths: Option<bool>) -> (conf: Config)
        ensures
            conf.cleans_paths() == (clean_paths != Some(false)),
    {
        match clean_paths {
            Some(value) => Config { clean_paths: value },
            None => Config { clean_paths: true },
        }
    }

    /// Whether display paths are cleaned.
    pub fn clean_paths(&self) -> (r: bool)
        ensures
            r == self.cleans_paths(),
    {
        self.clean_paths
    }

    /// Removes the markup from the path: the draft marker and the ordering prefix of each
    /// component. With cleaning switched off the path comes back as it is.
    pub fn clean_path(&self, path: &str) -> (cleaned: String)
        ensures
            cleaned@ == self.display_path(path@),
    {
        if !self.clean_paths {
            return path.to_owned();
        }
        let chars = chars_of(path);
        let n = chars.len();
        let mut out = String::new();
        let mut start: usize = 0;
        assert(path@.skip(0) == path@);
        loop
            invariant
                self.cleans_paths(),
                chars@ == path@,
                n == chars@.len(),
                start <= n,
                join_path(out@, cleaned_path(path@.skip(start as int))) == cleaned_path(path@),
            decreases n - start,
        {
            let mut end: usize = start;
            while end < n && chars[end] != SEPARATOR
                invariant
                    chars@ == path@,
                    n == chars@.len(),
                    start <= end <= n,
                    component_end(path@.skip(start as int), 0) == component_end(
                        path@.skip(start as int),
                        end - start,
                    ),
                decreases n - end,
            {
                end = end + 1;
            }
            let ghost rest = path@.skip(start as int);
            assert(component_end(rest, 0) == end - start);
            let ghost before = out@;
            let mut part = slice_of(path, start, end);
            assert(part@ == rest.take(end - start));
            strip_draft_indicator(&mut part);
            strip_numbering_prefix(&mut part);
            out = join(out.as_str(), part.as_str());
            if end >= n {
                assert(rest.take(end - start) == rest);
                return out;
            }
            proof {
                assert(rest.skip(end - start + 1) == path@.skip(end + 1));
                lemma_join_path_associative(before, part@, cleaned_path(path@.skip(end + 1)));
            }
            start = end + 1;
        }
    }
}

/// Nothing is left to take from `name`: no draft marker at its end, no ordering prefix.
pub open spec fn is_clean_name(name: Seq<char>) -> bool {
    !ends_with(name, DRAFT_MARKER@) && ordering_prefix_len(name) == 0
}

/// `name` carries one layer of markup at most: with one draft marker taken from its end no
/// second one ends it, and with one ordering prefix taken too no second one begins it.
pub open spec fn marked_once(name: Seq<char>) -> bool {
    let unmarked = without_draft_marker(name);
    !ends_with(unmarked, DRAFT_MARKER@) && ordering_prefix_len(without_ordering_prefix(unmarked))
        == 0
}

/// Every component of `path` carries one layer of markup at most.
pub open spec fn marked_once_throughout(path: Seq<char>) -> bool
    decreases path.len(),
{
    let end = component_end(path, 0);
    if end < 0 || end >= path.len() {
        marked_once(path)
    } else {
        marked_once(path.take(end)) && marked_once_throughout(path.skip(end + 1))
    }
}

/// No separator stands in `text`.
pub open spec fn is_component(text: Seq<char>) -> bool {
    forall|j: int| 0 <= j < text.len() ==> text[j] != SEPARATOR
}

/// The draft marker is `(` and `)`, and an ordering prefix holds neither.
proof fn lemma_markup_shapes(name: Seq<char>)
    ensures
        DRAFT_MARKER@ == seq!['(', ')'],
        ends_with(name, DRAFT_MARKER@) <==> name.len() >= 2 && name[name.len() - 2] == '('
            && name[name.len() - 1] == ')',
        forall|j: int|
            0 <= j < ordering_prefix_len(name) ==> name[j] != '(' && name[j] != ')',
        0 <= ordering_prefix_len(name) <= name.len(),
{
    reveal_strlit("()");
    assert(DRAFT_MARKER@ =~= seq!['(', ')']);
    if name.len() >= 2 {
        let tail = name.skip(name.len() - 2);
        assert(tail.len() == 2);
        assert(tail[0] == name[name.len() - 2]);
        assert(tail[1] == name[name.len() - 1]);
        if tail[0] == '(' && tail[1] == ')' {
            assert(tail =~= seq!['(', ')']);
        }
    }
}

/// Cleaning a name takes characters from its two ends and none from within: what is left
/// is no longer than the name, the name itself where it was clean and shorter where it was
/// not, and holds no separator where the name held none.
pub proof fn lemma_clean_name_shrinks(name: Seq<char>)
    ensures
        clean_name(name).len() <= name.len(),
        clean_name(name) == name <==> is_clean_name(name),
        clean_name(name).len() == name.len() <==> is_clean_name(name),
        is_component(name) ==> is_component(clean_name(name)),
{
    lemma_markup_shapes(name);
    lemma_markup_shapes(without_draft_marker(name));
    if is_clean_name(name) {
        assert(name.skip(0) =~= name);
    }
}

/// Cleaning a name a second time changes nothing more exactly where the name carried one
/// layer of markup at most.
pub proof fn lemma_clean_name_idempotent(name: Seq<char>)
    ensures
        clean_name(clean_name(name)) == clean_name(name) <==> marked_once(name),
{
    let unmarked = without_draft_marker(name);
    let cleaned = clean_name(name);
    lemma_markup_shapes(name);
    lemma_markup_shapes(unmarked);
    lemma_markup_shapes(cleaned);
    lemma_clean_name_shrinks(cleaned);
    let taken = ordering_prefix_len(unmarked);
    if ends_with(unmarked, DRAFT_MARKER@) {
        assert(unmarked.len() - 2 >= taken);
        assert(cleaned[cleaned.len() - 2] == unmarked[unmarked.len() - 2]);
        assert(cleaned[cleaned.len() - 1] == unmarked[unmarked.len() - 1]);
    }
    if ends_with(cleaned, DRAFT_MARKER@) {
        assert(cleaned[cleaned.len() - 2] == unmarked[unmarked.len() - 2]);
        assert(cleaned[cleaned.len() - 1] == unmarked[unmarked.len() - 1]);
    }
}

/// A component that ends at `end` is found to end there.
proof fn lemma_component_ends_at(path: Seq<char>, from: int, end: int)
    requires
        0 <= from <= end <= path.len(),
        forall|j: int| from <= j < end ==> path[j] != SEPARATOR,
        end < path.len() ==> path[end] == SEPARATOR,
    ensures
        component_end(path, from) == end,
    decreases end - from,
{
    if from < end {
        lemma_component_ends_at(path, from + 1, end);
    }
}

/// Cleaning a display path again never makes it longer. It gives the path again where
/// every component of the path it was made from carried one layer of markup at most, and
/// a shorter path where some component carried more.
proof fn lemma_cleaning_again(path: Seq<char>)
    ensures
        cleaned_path(cleaned_path(path)).len() <= cleaned_path(path).len(),
        marked_once_throughout(path) ==> cleaned_path(cleaned_path(path)) == cleaned_path(path),
        !marked_once_throughout(path) ==> cleaned_path(cleaned_path(path)).len() < cleaned_path(
            path,
        ).len(),
    decreases path.len(),
{
    lemma_component_end(path, 0);
    let end = component_end(path, 0);
    if end >= path.len() {
        let name = clean_name(path);
        assert(path.take(end) =~= path);
        lemma_clean_name_shrinks(path);
        lemma_clean_name_shrinks(name);
        lemma_clean_name_idempotent(path);
        lemma_component_ends_at(name, 0, name.len() as int);
    } else {
        let head = path.take(end);
        let tail = path.skip(end + 1);
        let name = clean_name(head);
        let rest = cleaned_path(tail);
        lemma_clean_name_shrinks(head);
        lemma_clean_name_shrinks(name);
        lemma_clean_name_idempotent(head);
        lemma_cleaning_again(tail);
        let joined = join_path(name, rest);
        if name.len() == 0 {
        } else if rest.len() == 0 {
            lemma_component_ends_at(name, 0, name.len() as int);
        } else {
            lemma_component_ends_at(joined, 0, name.len() as int);
            assert(joined.take(name.len() as int) =~= name);
            assert(joined.skip(name.len() as int + 1) =~= rest);
        }
    }
}

/// The display path of a display path is that path again, where every component of the
/// path it was made from carried one layer of markup at most. (A name such as `01_02_x`
/// carries two: it is cleaned to `02_x`, and that to `x`.)
pub proof fn lemma_cleaned_path_idempotent(path: Seq<char>)
    requires
        marked_once_throughout(path),
    ensures
        cleaned_path(cleaned_path(path)) == cleaned_path(path),
{
    lemma_cleaning_again(path);
}

/// The paths on which cleaning is idempotent are exactly those of which every component
/// carries one layer of markup at most.
pub proof fn lemma_cleaned_path_idempotent_exactly(path: Seq<char>)
    ensures
        cleaned_path(cleaned_path(path)) == cleaned_path(path) <==> marked_once_throughout(path),
{
    lemma_cleaning_again(path);
}

/// Cleaning is idempotent: the display path of a display path is that path again. With
/// cleaning switched on this holds where every component of the path carried one layer
/// of markup at most; with cleaning switched off it holds of every path.
pub proof fn lemma_clean_path_idempotent(conf: Config, path: Seq<char>)
    requires
        conf.cleans_paths() ==> marked_once_throughout(path),
    ensures
        conf.display_path(conf.display_path(path)) == conf.display_path(path),
{
    if conf.cleans_paths() {
        lemma_cleaned_path_idempotent(path);
    }
}

} // verus!
