//! The title of a document: the text of its first top-level heading line.

use vstd::prelude::*;
use crate::text::{chars_of, slice_of};

verus! {

/// A line begins at `i`: at the start of the text or right after a line feed.
pub open spec fn line_starts_at(text: Seq<char>, i: int) -> bool {
    0 <= i < text.len() && (i == 0 || text[i - 1] == '\n')
}

/// The line that begins at `i` is a top-level heading: `#`, then one space.
pub open spec fn heading_at(text: Seq<char>, i: int) -> bool {
    line_starts_at(text, i) && i + 1 < text.len() && text[i] == '#' && text[i + 1] == ' '
}

/// The first line feed at or after `from`, or the end of the text.
pub open spec fn line_end(text: Seq<char>, from: int) -> int
    decreases text.len() - from,
{
    if from < 0 || from >= text.len() {
        text.len() as int
    } else if text[from] == '\n' {
        from
    } else {
        line_end(text, from + 1)
    }
}

/// The text from `from` to the end of its line. The line feed is not part of it, nor is
/// a carriage return right before the line feed.
pub open spec fn rest_of_line(text: Seq<char>, from: int) -> Seq<char> {
    let end = line_end(text, from);
    if from < end < text.len() && text[end - 1] == '\r' {
        text.subrange(from, end - 1)
    } else {
        text.subrange(from, end)
    }
}

/// The start of the first heading line at or after `from`.
pub open spec fn first_heading(text: Seq<char>, from: int) -> Option<int>
    decreases text.len() - from,
{
    if from < 0 || from >= text.len() {
        None
    } else if heading_at(text, from) {
        Some(from)
    } else {
        first_heading(text, from + 1)
    }
}

/// The title that a document declares: what follows `# ` on its first heading line.
pub open spec fn chapter_title(text: Seq<char>) -> Option<Seq<char>> {
    match first_heading(text, 0) {
        Some(i) => Some(rest_of_line(text, i + 2)),
        None => None,
    }
}

/// `first_heading` finds the earliest heading line, and finds none only where there is none.
pub proof fn lemma_first_heading_is_earliest(text: Seq<char>, from: int)
    requires
        0 <= from,
    ensures
        match first_heading(text, from) {
            Some(i) => from <= i && heading_at(text, i) && forall|j: int|
                from <= j < i ==> !heading_at(text, j),
            None => forall|j: int| from <= j ==> !heading_at(text, j),
        },
    decreases text.len() - from,
{
    if from < text.len() && !heading_at(text, from) {
        lemma_first_heading_is_earliest(text, from + 1);
    }
}

/// A stretch without a heading line does not change what `first_heading` finds.
proof fn lemma_skip_to(text: Seq<char>, from: int, to: int)
    requires
        0 <= from <= to <= text.len(),
        forall|j: int| from <= j < to ==> !heading_at(text, j),
    ensures
        first_heading(text, from) == first_heading(text, to),
    decreases to - from,
{
    if from < to {
        lemma_skip_to(text, from + 1, to);
    }
}

/// Finds the end of the line that holds position `from`.
fn find_line_end(text: &Vec<char>, from: usize) -> (end: usize)
    requires
        from <= text@.len(),
    ensures
        from <= end <= text@.len(),
        end == line_end(text@, from as int),
        end < text@.len() ==> text@[end as int] == '\n',
        forall|j: int| from <= j < end ==> text@[j] != '\n',
{
    let mut end: usize = from;
    while end < text.len() && text[end] != '\n'
        invariant
            from <= end <= text.len(),
            line_end(text@, from as int) == line_end(text@, end as int),
            forall|j: int| from <= j < end ==> text@[j] != '\n',
        decreases text.len() - end,
    {
        end = end + 1;
    }
    end
}

/// Reads the title of a chapter from the text of its document: the rest of the first line
/// that begins with `# `. `None` where no line does.
pub fn load_chapter_title(contents: &str) -> (title: Option<String>)
    ensures
        match title {
            Some(t) => chapter_title(contents@) == Some(t@),
            None => chapter_title(contents@) is None,
        },
{
    let text = chars_of(contents);
    let n = text.len();
    let mut start: usize = 0;
    while start < n
        invariant
            n == text@.len(),
            text@ == contents@,
            start <= n,
            start < n ==> line_starts_at(text@, start as int),
            first_heading(text@, 0) == first_heading(text@, start as int),
        decreases n - start,
    {
        if start + 1 < n && text[start] == '#' && text[start + 1] == ' ' {
            let end = find_line_end(&text, start + 2);
            let stop = if start + 2 < end && end < n && text[end - 1] == '\r' {
                end - 1
            } else {
                end
            };
            return Some(slice_of(contents, start + 2, stop));
        }
        let end = find_line_end(&text, start);
        let next = if end < n {
            end + 1
        } else {
            n
        };
        proof {
            assert forall|j: int| start <= j < next implies !heading_at(text@, j) by {
                if j > start {
                    assert(text@[j - 1] != '\n');
                }
            }
            lemma_skip_to(text@, start as int, next as int);
        }
        start = next;
    }
    None
}

} // verus!
