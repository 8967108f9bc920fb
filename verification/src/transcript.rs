//! The rendered shape of a transcript and the resolver that maps a screen row
//! back to the translation drawn on it.
//!
//! Every entry is drawn as a rule line, a blank line, the lines of its body and
//! a closing blank line. Entries at even positions hold what the user wrote,
//! entries at odd positions the translation of the entry before them.
//!
//! Lines are counted as the entries hold them, one for every line of a body,
//! whatever the width of the screen: a body line that is too long for the
//! screen and is wrapped onto several rows still counts as one line here.

use crate::text::{count_lines, line_count, texts};
use vstd::prelude::*;

verus! {

/// Lines drawn above the body of every entry: the rule and a blank line.
pub const HEADER_LINES: u32 = 2;

/// The scrollable region of the screen that shows the transcript.
#[derive(Clone, Copy, Debug, PartialEq, Eq, Structural)]
pub struct Viewport {
    /// The screen row of the region's first line.
    pub top: u16,
    /// The number of rows of the region.
    pub height: u16,
}

impl Viewport {
    /// Whether a screen row lies inside the region.
    pub open spec fn contains(self, row: u16) -> bool {
        self.top <= row < self.top + self.height
    }

    /// Whether a screen row lies inside the region.
    pub fn holds(&self, row: u16) -> (inside: bool)
        ensures
            inside == self.contains(row),
    {
        row >= self.top && row - self.top < self.height
    }
}

/// Whether the entry at a position is a translation.
pub open spec fn is_translation(index: int) -> bool {
    index % 2 == 1
}

/// The number of lines that one entry takes when drawn.
pub open spec fn entry_height(message: Seq<char>) -> nat {
    HEADER_LINES as nat + line_count(message) + 1
}

/// The number of lines that a whole transcript takes when drawn.
pub open spec fn rendered_height(messages: Seq<Seq<char>>) -> nat
    decreases messages.len(),
{
    if messages.len() == 0 {
        0
    } else {
        rendered_height(messages.drop_last()) + entry_height(messages.last())
    }
}

/// The line, counted from the top of the drawn transcript, on which the body of
/// the entry at `index` begins.
pub open spec fn body_start(messages: Seq<Seq<char>>, index: int) -> nat {
    rendered_height(messages.take(index)) + HEADER_LINES as nat
}

/// Whether `line` of the drawn transcript is a body line of the entry at `index`.
pub open spec fn body_contains(messages: Seq<Seq<char>>, index: int, line: int) -> bool {
    &&& 0 <= index < messages.len()
    &&& body_start(messages, index) <= line < body_start(messages, index) + line_count(
        messages[index],
    )
}

/// Whether `line` of the drawn transcript shows the translation at `index`.
pub open spec fn shows_translation(messages: Seq<Seq<char>>, index: int, line: int) -> bool {
    body_contains(messages, index, line) && is_translation(index)
}

/// The line of the drawn transcript that a screen row shows.
pub open spec fn target_line(viewport: Viewport, scroll: u16, row: u16) -> int {
    (row - viewport.top) + scroll
}

/// A longer prefix of a transcript is drawn on at least as many lines.
pub proof fn lemma_height_monotone(messages: Seq<Seq<char>>, i: int, j: int)
    requires
        0 <= i <= j <= messages.len(),
    ensures
        rendered_height(messages.take(i)) <= rendered_height(messages.take(j)),
    decreases j - i,
{
    if i < j {
        assert(messages.take(j).drop_last() == messages.take(j - 1));
        lemma_height_monotone(messages, i, j - 1);
    }
}

/// The body of an entry lies inside the lines of that entry: after the lines of
/// all entries before it, and before those of the entries after it.
pub proof fn lemma_body_within_entry(messages: Seq<Seq<char>>, index: int, line: int)
    requires
        body_contains(messages, index, line),
    ensures
        rendered_height(messages.take(index)) + HEADER_LINES <= line,
        line + 1 < rendered_height(messages.take(index + 1)),
{
    assert(messages.take(index + 1).drop_last() == messages.take(index));
    assert(messages.take(index + 1).last() == messages[index]);
}

/// No line belongs to the bodies of two entries.
pub proof fn lemma_body_unique(messages: Seq<Seq<char>>, i: int, j: int, line: int)
    requires
        body_contains(messages, i, line),
        body_contains(messages, j, line),
    ensures
        i == j,
{
    lemma_body_within_entry(messages, i, line);
    lemma_body_within_entry(messages, j, line);
    if i < j {
        lemma_height_monotone(messages, i + 1, j);
    } else if j < i {
        lemma_height_monotone(messages, j + 1, i);
    }
}

/// Finds the translation drawn on a screen row.
///
/// A row outside the viewport shows nothing. Inside it, the row shows line
/// `target_line` of the drawn transcript, and the answer is the position and
/// text of the translation whose body holds that line. Rule lines, blank lines,
/// the bodies of user entries and lines past the end give `None`.
pub fn resolve_row(messages: &Vec<String>, viewport: Viewport, scroll: u16, row: u16) -> (found:
    Option<(usize, String)>)
    ensures
        !viewport.contains(row) ==> found is None,
        viewport.contains(row) ==> match found {
            Some((index, text)) => {
                &&& shows_translation(
                    texts(messages@),
                    index as int,
                    target_line(viewport, scroll, row),
                )
                &&& text@ == messages@[index as int]@
            },
            None => forall|i: int|
                !shows_translation(texts(messages@), i, target_line(viewport, scroll, row)),
        },
{
    if !viewport.holds(row) {
        return None;
    }
    let ghost all = texts(messages@);
    let ghost target = target_line(viewport, scroll, row);
    let offset: u16 = row - viewport.top;
    let mut remaining: u32 = offset as u32 + scroll as u32;
    let mut i: usize = 0;
    assert(all.take(0) == Seq::<Seq<char>>::empty());
    while i < messages.len()
        invariant
            i <= messages.len(),
            all == texts(messages@),
            viewport.contains(row),
            target == target_line(viewport, scroll, row),
            target == rendered_height(all.take(i as int)) + remaining,
        decreases messages.len() - i,
    {
        proof {
            assert(all.take(i + 1).drop_last() == all.take(i as int));
            assert(all.take(i + 1).last() == all[i as int]);
            assert(all[i as int] == messages@[i as int]@);
        }
        if remaining < HEADER_LINES {
            proof {
                lemma_no_body_before(all, i as int, target);
                lemma_no_body_after(all, i as int, target);
            }
            return None;
        }
        remaining = remaining - HEADER_LINES;
        let lines = count_lines(messages[i].as_str());
        if (remaining as usize) < lines {
            assert(body_contains(all, i as int, target));
            if i % 2 == 1 {
                return Some((i, messages[i].clone()));
            }
            proof {
                assert forall|k: int| !shows_translation(all, k, target) by {
                    if body_contains(all, k, target) {
                        lemma_body_unique(all, k, i as int, target);
                    }
                }
            }
            return None;
        }
        remaining = remaining - lines as u32;
        if remaining == 0 {
            proof {
                lemma_no_body_before(all, i + 1, target);
                lemma_no_body_after(all, i as int, target);
                assert(!body_contains(all, i as int, target));
            }
            return None;
        }
        remaining = remaining - 1;
        i = i + 1;
    }
    proof {
        lemma_no_body_after(all, i as int, target);
    }
    None
}

/// The scroll offset that puts the last line of a drawn transcript of `total`
/// lines on the last row of a viewport of `height` rows: zero while everything
/// fits, and never more than the largest offset there is.
pub open spec fn bottom_offset(total: nat, height: u16) -> u16 {
    if total <= height {
        0
    } else if total - height >= u16::MAX {
        u16::MAX
    } else {
        (total - height) as u16
    }
}

/// Computes the scroll offset that shows the newest content of a transcript.
pub fn bottom_scroll(messages: &Vec<String>, height: u16) -> (offset: u16)
    ensures
        offset == bottom_offset(rendered_height(texts(messages@)), height),
{
    // Beyond this many lines the answer no longer changes.
    let limit: u32 = 2 * 65535;
    let ghost all = texts(messages@);
    let mut total: u32 = 0;
    let mut i: usize = 0;
    assert(all.take(0) == Seq::<Seq<char>>::empty());
    while i < messages.len()
        invariant
            i <= messages.len(),
            all == texts(messages@),
            limit == 2 * 65535,
            total <= limit,
            total < limit ==> total == rendered_height(all.take(i as int)),
            total == limit ==> rendered_height(all.take(i as int)) >= limit,
        decreases messages.len() - i,
    {
        proof {
            assert(all.take(i + 1).drop_last() == all.take(i as int));
            assert(all.take(i + 1).last() == all[i as int]);
            assert(all[i as int] == messages@[i as int]@);
        }
        let lines = count_lines(messages[i].as_str());
        let room: u32 = limit - total;
        if room < HEADER_LINES + 1 || lines > (room - HEADER_LINES - 1) as usize {
            total = limit;
        } else {
            total = total + HEADER_LINES + 1 + lines as u32;
        }
        i = i + 1;
    }
    assert(all.take(i as int) == all);
    if total <= height as u32 {
        0
    } else if total - height as u32 >= 65535 {
        65535
    } else {
        (total - height as u32) as u16
    }
}

/// A line that lies before the body of the entry at `index` belongs to the body
/// of no entry from `index` on.
proof fn lemma_no_body_before(messages: Seq<Seq<char>>, index: int, line: int)
    requires
        0 <= index <= messages.len(),
        line < rendered_height(messages.take(index)) + HEADER_LINES,
    ensures
        forall|k: int| index <= k ==> !body_contains(messages, k, line),
{
    assert forall|k: int| index <= k implies !body_contains(messages, k, line) by {
        if body_contains(messages, k, line) {
            lemma_body_within_entry(messages, k, line);
            lemma_height_monotone(messages, index, k);
        }
    }
}

/// A line that lies after the lines of all entries before `index` belongs to
/// the body of none of them.
proof fn lemma_no_body_after(messages: Seq<Seq<char>>, index: int, line: int)
    requires
        0 <= index <= messages.len(),
        rendered_height(messages.take(index)) <= line,
    ensures
        forall|k: int| k < index ==> !body_contains(messages, k, line),
{
    assert forall|k: int| k < index implies !body_contains(messages, k, line) by {
        if body_contains(messages, k, line) {
            lemma_body_within_entry(messages, k, line);
            lemma_height_monotone(messages, k + 1, index);
        }
    }
}

} // verus!
