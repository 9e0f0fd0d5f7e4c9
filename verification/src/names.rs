//! What the name of a directory entry says about it.

use vstd::prelude::*;
use crate::text::{chars_of, ends_with, has_prefix, matches_at, same_text, starts_with};

verus! {

/// The file that gives a directory its title and body.
pub const INDEX_FILE: &'static str = "00.md";

/// The table-of-contents file of the host program, which is never part of the outline.
pub const SUMMARY_FILE: &'static str = "SUMMARY.md";

/// The only extension that documents have.
pub const MARKDOWN_EXTENSION: &'static str = "md";

/// Ends the base name of a draft.
pub const DRAFT_MARKER: &'static str = "()";

/// Ends the base name of a separator.
pub const SEPARATOR_MARKER: &'static str = "__";

/// Ends the base name of a part title.
pub const PART_TITLE_MARKER: &'static str = "#";

/// Begins the name of a fragment that other documents pull in.
pub const PARTIAL_MARKER: &'static str = "_";

/// Begins the name of a front-matter chapter, which takes no number.
pub const FRONT_MATTER_MARKER: &'static str = "00";

/// Begins the name of a back-matter chapter, which takes no number.
pub const BACK_MATTER_MARKER: &'static str = "ZZ";

/// What a file is to the outline, by its name alone.
#[derive(Clone, Copy, Debug, PartialEq, Eq, Structural)]
pub enum FileClass {
    /// A visual divider.
    Separator,
    /// An unnumbered heading, titled by the file's own heading.
    PartTitle,
    /// A fragment, left out.
    Partial,
    /// Not a markdown document, left out.
    Ignored,
    /// The index document, which its directory has already taken.
    IndexFile,
    /// A chapter with a body; `exempt` where it is front or back matter.
    RegularChapter { exempt: bool },
    /// A chapter that only holds a place; `exempt` where it is front or back matter.
    DraftChapter { exempt: bool },
}

/// The position of the last `.` of `name` before `upto`, or -1 where there is none.
pub open spec fn last_dot(name: Seq<char>, upto: int) -> int
    decreases upto,
{
    if upto <= 0 || upto > name.len() {
        -1
    } else if name[upto - 1] == '.' {
        upto - 1
    } else {
        last_dot(name, upto - 1)
    }
}

/// Where the base name ends: at the last `.`, unless that is the first character.
pub open spec fn stem_len(name: Seq<char>) -> int {
    let dot = last_dot(name, name.len() as int);
    if dot <= 0 {
        name.len() as int
    } else {
        dot
    }
}

/// The name without its extension.
pub open spec fn file_stem(name: Seq<char>) -> Seq<char> {
    name.take(stem_len(name))
}

/// What follows the last `.`, where the name has one that is not its first character.
pub open spec fn file_extension(name: Seq<char>) -> Option<Seq<char>> {
    let dot = last_dot(name, name.len() as int);
    if dot <= 0 {
        None
    } else {
        Some(name.skip(dot + 1))
    }
}

/// Front and back matter: the name begins with one of the two reserved markers.
pub open spec fn is_exempt_name(name: Seq<char>) -> bool {
    starts_with(name, FRONT_MATTER_MARKER@) || starts_with(name, BACK_MATTER_MARKER@)
}

/// The class of a file named `name`; the first rule that applies decides.
pub open spec fn file_class(name: Seq<char>) -> FileClass {
    let stem = file_stem(name);
    if ends_with(stem, SEPARATOR_MARKER@) {
        FileClass::Separator
    } else if ends_with(stem, PART_TITLE_MARKER@) {
        FileClass::PartTitle
    } else if starts_with(name, PARTIAL_MARKER@) {
        FileClass::Partial
    } else if file_extension(name) != Some(MARKDOWN_EXTENSION@) {
        FileClass::Ignored
    } else if name == INDEX_FILE@ {
        FileClass::IndexFile
    } else if ends_with(stem, DRAFT_MARKER@) {
        FileClass::DraftChapter { exempt: is_exempt_name(name) }
    } else {
        FileClass::RegularChapter { exempt: is_exempt_name(name) }
    }
}

/// Whether the outline reads the text of a file of this class: for its title, and for
/// the body of a chapter. The index document is read for its directory.
pub open spec fn reads_text(class: FileClass) -> bool {
    match class {
        FileClass::PartTitle => true,
        FileClass::IndexFile => true,
        FileClass::RegularChapter { .. } => true,
        FileClass::DraftChapter { .. } => true,
        _ => false,
    }
}

/// A directory or chapter that only holds a place: its name ends with the draft marker.
pub open spec fn is_draft_name(name: Seq<char>) -> bool {
    ends_with(name, DRAFT_MARKER@)
}

/// Finds the last `.` of `name`.
fn find_last_dot(name: &Vec<char>) -> (dot: Option<usize>)
    ensures
        match dot {
            Some(d) => d < name@.len() && d == last_dot(name@, name@.len() as int),
            None => last_dot(name@, name@.len() as int) == -1,
        },
{
    let mut upto: usize = name.len();
    while upto > 0
        invariant
            upto <= name.len(),
            last_dot(name@, name@.len() as int) == last_dot(name@, upto as int),
        decreases upto,
    {
        if name[upto - 1] == '.' {
            return Some(upto - 1);
        }
        upto = upto - 1;
    }
    None
}

/// Whether the first `end` characters of `s` end with `suffix`.
fn stem_has_suffix(s: &Vec<char>, end: usize, suffix: &Vec<char>) -> (r: bool)
    requires
        end <= s@.len(),
    ensures
        r == ends_with(s@.take(end as int), suffix@),
{
    if suffix.len() > end {
        return false;
    }
    assert(s@.take(end as int).skip(end - suffix@.len()) == s@.subrange(
        end - suffix@.len(),
        end as int,
    ));
    matches_at(s, end - suffix.len(), suffix)
}

/// Classifies a file by its name.
pub fn classify_file(name: &str) -> (class: FileClass)
    ensures
        class == file_class(name@),
{
    let chars = chars_of(name);
    let dot = find_last_dot(&chars);
    let split = match dot {
        Some(d) => d > 0,
        None => false,
    };
    let stem_end = match dot {
        Some(d) => if d > 0 {
            d
        } else {
            chars.len()
        },
        None => chars.len(),
    };
    assert(stem_end == stem_len(name@));
    if stem_has_suffix(&chars, stem_end, &chars_of(SEPARATOR_MARKER)) {
        return FileClass::Separator;
    }
    if stem_has_suffix(&chars, stem_end, &chars_of(PART_TITLE_MARKER)) {
        return FileClass::PartTitle;
    }
    if has_prefix(&chars, &chars_of(PARTIAL_MARKER)) {
        return FileClass::Partial;
    }
    let extension = chars_of(MARKDOWN_EXTENSION);
    let markdown = split && chars.len() - (stem_end + 1) == extension.len() && matches_at(
        &chars,
        stem_end + 1,
        &extension,
    );
    assert(markdown == (file_extension(name@) == Some(MARKDOWN_EXTENSION@))) by {
        if split {
            assert(name@.skip(stem_end + 1) == name@.subrange(
                stem_end + 1,
                name@.len() as int,
            ));
        }
    }
    if !markdown {
        return FileClass::Ignored;
    }
    if same_text(&chars, &chars_of(INDEX_FILE)) {
        return FileClass::IndexFile;
    }
    let exempt = has_prefix(&chars, &chars_of(FRONT_MATTER_MARKER)) || has_prefix(
        &chars,
        &chars_of(BACK_MATTER_MARKER),
    );
    if stem_has_suffix(&chars, stem_end, &chars_of(DRAFT_MARKER)) {
        FileClass::DraftChapter { exempt }
    } else {
        FileClass::RegularChapter { exempt }
    }
}

/// Whether the outline reads the text of a file named `name`.
pub fn needs_text(name: &str) -> (r: bool)
    ensures
        r == reads_text(file_class(name@)),
{
    match classify_file(name) {
        FileClass::PartTitle => true,
        FileClass::IndexFile => true,
        FileClass::RegularChapter { .. } => true,
        FileClass::DraftChapter { .. } => true,
        _ => false,
    }
}

/// Whether a name carries the draft marker.
pub fn has_draft_marker(name: &str) -> (r: bool)
    ensures
        r == is_draft_name(name@),
{
    let chars = chars_of(name);
    let n = chars.len();
    assert(chars@.take(n as int) == chars@);
    stem_has_suffix(&chars, n, &chars_of(DRAFT_MARKER))
}

/// Whether two names are the same text.
pub fn same_name(a: &str, b: &str) -> (r: bool)
    ensures
        r == (a@ == b@),
{
    same_text(&chars_of(a), &chars_of(b))
}

} // verus!
