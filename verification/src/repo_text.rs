//! Reading what a repository prints: the short status of its working tree
//! and the version line of its manifest.
//!
//! Texts are read as the bytes of their UTF-8 encoding, line by line. A line
//! ends at a line feed; a carriage return before that line feed does not
//! belong to the line.

use vstd::prelude::*;
use vstd::string::*;
use vstd::utf8::*;
use crate::publish_status::GitStatus;

verus! {

/// The offset of the first line feed at or after `start`, or the length of
/// the text where there is none.
pub open spec fn segment_end(bytes: Seq<u8>, start: int) -> int
    decreases bytes.len() - start,
{
    if start < 0 || start >= bytes.len() {
        bytes.len() as int
    } else if bytes[start] == 0x0A {
        start
    } else {
        segment_end(bytes, start + 1)
    }
}

/// Where the content of the line from `start` ends, given that its segment
/// ends at `stop`: before the carriage return that precedes the line feed,
/// if there is one.
pub open spec fn content_end(bytes: Seq<u8>, start: int, stop: int) -> int {
    if stop < bytes.len() && start < stop && bytes[stop - 1] == 0x0D {
        stop - 1
    } else {
        stop
    }
}

/// The line feed that ends a segment lies at or after its start and within
/// the text.
pub proof fn lemma_segment_end(bytes: Seq<u8>, start: int)
    requires
        0 <= start <= bytes.len(),
    ensures
        start <= segment_end(bytes, start) <= bytes.len(),
        segment_end(bytes, start) < bytes.len() ==> bytes[segment_end(bytes, start)] == 0x0A,
        forall|i: int| start <= i < segment_end(bytes, start) ==> bytes[i] != 0x0A,
    decreases bytes.len() - start,
{
    if start < bytes.len() && bytes[start] != 0x0A {
        lemma_segment_end(bytes, start + 1);
    }
}

/// What one line of a short status says.
#[derive(Debug, Clone, Copy, PartialEq, Eq, Structural)]
pub enum EntryKind {
    /// An untracked file: both columns hold a question mark.
    Untracked,
    /// A staged change: the first column holds a letter.
    Staged,
    /// A change in the working tree: only the second column holds a letter.
    Modified,
    /// Nothing that counts.
    Ignored,
}

/// The number of bytes of the character that the byte `b0` starts.
pub open spec fn first_width(b0: u8) -> int {
    if b0 < 0x80 {
        1
    } else if b0 < 0xE0 {
        2
    } else if b0 < 0xF0 {
        3
    } else {
        4
    }
}

/// What a line of a short status says. The first two characters are its
/// columns; a line of fewer than two bytes says nothing, and a missing
/// second character counts as a space.
pub open spec fn entry_kind(line: Seq<u8>) -> EntryKind {
    if line.len() < 2 {
        EntryKind::Ignored
    } else {
        let index = line[0];
        let at = first_width(index);
        let worktree = if at < line.len() {
            line[at]
        } else {
            0x20u8
        };
        if index == 0x3F && worktree == 0x3F {
            EntryKind::Untracked
        } else if index != 0x20 && index != 0x3F {
            EntryKind::Staged
        } else if worktree != 0x20 && worktree != 0x3F {
            EntryKind::Modified
        } else {
            EntryKind::Ignored
        }
    }
}

/// The number of lines from offset `start` on that say `kind`.
pub open spec fn count_entries(bytes: Seq<u8>, start: int, kind: EntryKind) -> nat
    decreases bytes.len() - start,
{
    if start < 0 || start >= bytes.len() {
        0
    } else {
        let stop = segment_end(bytes, start);
        let line = bytes.subrange(start, content_end(bytes, start, stop));
        let here = if entry_kind(line) == kind {
            1nat
        } else {
            0nat
        };
        if start <= stop < bytes.len() {
            here + count_entries(bytes, stop + 1, kind)
        } else {
            here
        }
    }
}

/// No more lines than bytes are left.
pub proof fn lemma_count_entries_bound(bytes: Seq<u8>, start: int)
    requires
        0 <= start <= bytes.len(),
    ensures
        count_entries(bytes, start, EntryKind::Untracked) + count_entries(bytes, start, EntryKind::Staged)
            + count_entries(bytes, start, EntryKind::Modified) <= bytes.len() - start,
    decreases bytes.len() - start,
{
    if start < bytes.len() {
        lemma_segment_end(bytes, start);
        let stop = segment_end(bytes, start);
        if stop < bytes.len() {
            lemma_count_entries_bound(bytes, stop + 1);
        }
    }
}

/// Finds the end of the segment that starts at `start`.
pub fn find_segment_end(bytes: &[u8], start: usize) -> (stop: usize)
    requires
        start <= bytes@.len(),
    ensures
        stop == segment_end(bytes@, start as int),
        start <= stop <= bytes@.len(),
{
    let mut stop: usize = start;
    while stop < bytes.len() && bytes[stop] != 0x0A
        invariant
            start <= stop <= bytes@.len(),
            segment_end(bytes@, stop as int) == segment_end(bytes@, start as int),
        decreases bytes@.len() - stop,
    {
        stop += 1;
    }
    stop
}

/// Classifies the line `bytes[start..end]` of a short status.
pub fn classify_entry(bytes: &[u8], start: usize, end: usize) -> (kind: EntryKind)
    requires
        start <= end <= bytes@.len(),
    ensures
        kind == entry_kind(bytes@.subrange(start as int, end as int)),
{
    let ghost line = bytes@.subrange(start as int, end as int);
    if end - start < 2 {
        return EntryKind::Ignored;
    }
    let index: u8 = bytes[start];
    assert(line[0] == index);
    let at: usize = if index < 0x80 {
        1
    } else if index < 0xE0 {
        2
    } else if index < 0xF0 {
        3
    } else {
        4
    };
    let worktree: u8 = if at < end - start {
        assert(line[at as int] == bytes@[start + at]);
        bytes[start + at]
    } else {
        0x20
    };
    if index == 0x3F && worktree == 0x3F {
        EntryKind::Untracked
    } else if index != 0x20 && index != 0x3F {
        EntryKind::Staged
    } else if worktree != 0x20 && worktree != 0x3F {
        EntryKind::Modified
    } else {
        EntryKind::Ignored
    }
}

/// Reads the short status of a working tree: counts the untracked, staged
/// and modified files, and calls the tree clean when it counts none. The
/// commit is left empty.
pub fn parse_git_status(stdout: &str) -> (status: GitStatus)
    ensures
        status.untracked == count_entries(stdout.spec_bytes(), 0, EntryKind::Untracked),
        status.staged == count_entries(stdout.spec_bytes(), 0, EntryKind::Staged),
        status.modified == count_entries(stdout.spec_bytes(), 0, EntryKind::Modified),
        status.is_clean == (status.untracked + status.staged + status.modified == 0),
        status.head_sha@.len() == 0,
{
    let bytes = stdout.as_bytes();
    let len: usize = bytes.len();
    let mut untracked: usize = 0;
    let mut staged: usize = 0;
    let mut modified: usize = 0;
    let mut start: usize = 0;
    proof {
        lemma_count_entries_bound(bytes@, 0);
    }
    while start < len
        invariant
            start <= len,
            len == bytes@.len(),
            untracked + count_entries(bytes@, start as int, EntryKind::Untracked) == count_entries(
                bytes@,
                0,
                EntryKind::Untracked,
            ),
            staged + count_entries(bytes@, start as int, EntryKind::Staged) == count_entries(
                bytes@,
                0,
                EntryKind::Staged,
            ),
            modified + count_entries(bytes@, start as int, EntryKind::Modified) == count_entries(
                bytes@,
                0,
                EntryKind::Modified,
            ),
            count_entries(bytes@, 0, EntryKind::Untracked) + count_entries(bytes@, 0, EntryKind::Staged)
                + count_entries(bytes@, 0, EntryKind::Modified) <= len,
        decreases len - start,
    {
        let stop: usize = find_segment_end(bytes, start);
        let end: usize = if stop < len && start < stop && bytes[stop - 1] == 0x0D {
            stop - 1
        } else {
            stop
        };
        match classify_entry(bytes, start, end) {
            EntryKind::Untracked => {
                untracked += 1;
            },
            EntryKind::Staged => {
                staged += 1;
            },
            EntryKind::Modified => {
                modified += 1;
            },
            EntryKind::Ignored => {},
        }
        if stop < len {
            start = stop + 1;
        } else {
            start = len;
        }
    }
    GitStatus {
        modified,
        untracked,
        staged,
        head_sha: String::new(),
        is_clean: untracked + staged + modified == 0,
    }
}

/// The word with which a version line starts.
pub open spec fn version_word() -> Seq<u8> {
    seq![0x76u8, 0x65, 0x72, 0x73, 0x69, 0x6F, 0x6E]
}

/// Whether the line `bytes[start..end]` starts with the word `version`.
pub open spec fn is_version_line(bytes: Seq<u8>, start: int, end: int) -> bool {
    start + 7 <= end && bytes.subrange(start, start + 7) == version_word()
}

/// The offset of the first double quote in `bytes[start..end]`, or `end`.
pub open spec fn quote_at(bytes: Seq<u8>, start: int, end: int) -> int
    decreases end - start,
{
    if start >= end || start < 0 || start >= bytes.len() {
        end
    } else if bytes[start] == 0x22 {
        start
    } else {
        quote_at(bytes, start + 1, end)
    }
}

/// The quoted value of the line `bytes[start..end]`: what stands between
/// its first double quote and the next one, or the end of the line. `None`
/// for a line without a double quote.
pub open spec fn quoted_value(bytes: Seq<u8>, start: int, end: int) -> Option<(int, int)> {
    let open = quote_at(bytes, start, end);
    if open >= end {
        None
    } else {
        Some((open + 1, quote_at(bytes, open + 1, end)))
    }
}

/// What [`quote_at`] finds is a double quote between `start` and `end`, or
/// `end` itself.
pub proof fn lemma_quote_at(bytes: Seq<u8>, start: int, end: int)
    requires
        0 <= start <= end <= bytes.len(),
    ensures
        start <= quote_at(bytes, start, end) <= end,
        quote_at(bytes, start, end) < end ==> bytes[quote_at(bytes, start, end)] == 0x22,
    decreases end - start,
{
    if start < end && bytes[start] != 0x22 {
        lemma_quote_at(bytes, start + 1, end);
    }
}

/// A byte below 128 is a character of its own: the offsets before and after
/// it lie between characters.
pub proof fn lemma_ascii_byte_stands_alone(bytes: Seq<u8>, i: int)
    requires
        valid_utf8(bytes),
        0 <= i < bytes.len(),
        bytes[i] < 0x80,
    ensures
        is_char_boundary(bytes, i),
        is_char_boundary(bytes, i + 1),
{
    is_char_boundary_iff_not_is_continuation_byte(bytes, i);
    valid_utf8_split(bytes, i);
    let rest = bytes.subrange(i, bytes.len() as int);
    assert(rest[0] == bytes[i]);
    assert(length_of_first_scalar(rest) == 1);
    reveal_with_fuel(is_char_boundary, 2);
    assert(is_char_boundary(rest, 1));
    crate::chunker::lemma_boundary_after_boundary(bytes, i, 1);
}

/// Where the version stands in a manifest: the quoted value of the first
/// line, from offset `start` on, that starts with `version` and has one.
pub open spec fn version_span(bytes: Seq<u8>, start: int) -> Option<(int, int)>
    decreases bytes.len() - start,
{
    if start < 0 || start >= bytes.len() {
        None
    } else {
        let stop = segment_end(bytes, start);
        let end = content_end(bytes, start, stop);
        let here = if is_version_line(bytes, start, end) {
            quoted_value(bytes, start, end)
        } else {
            None
        };
        if here is Some {
            here
        } else if start <= stop < bytes.len() {
            version_span(bytes, stop + 1)
        } else {
            None
        }
    }
}

/// Finds the first double quote in `bytes[start..end]`.
pub fn find_quote(bytes: &[u8], start: usize, end: usize) -> (at: usize)
    requires
        start <= end <= bytes@.len(),
    ensures
        at == quote_at(bytes@, start as int, end as int),
        start <= at <= end,
{
    let mut at: usize = start;
    while at < end && bytes[at] != 0x22
        invariant
            start <= at <= end,
            end <= bytes@.len(),
            quote_at(bytes@, at as int, end as int) == quote_at(bytes@, start as int, end as int),
        decreases end - at,
    {
        at += 1;
    }
    at
}

/// Whether the line `bytes[start..end]` starts with `version`.
pub fn starts_with_version(bytes: &[u8], start: usize, end: usize) -> (found: bool)
    requires
        start <= end <= bytes@.len(),
    ensures
        found == is_version_line(bytes@, start as int, end as int),
{
    if end - start < 7 {
        return false;
    }
    let found = bytes[start] == 0x76 && bytes[start + 1] == 0x65 && bytes[start + 2] == 0x72 && bytes[start + 3]
        == 0x73 && bytes[start + 4] == 0x69 && bytes[start + 5] == 0x6F && bytes[start + 6] == 0x6E;
    proof {
        let word = bytes@.subrange(start as int, start + 7);
        assert(word[0] == bytes@[start as int]);
        assert(word[1] == bytes@[start + 1]);
        assert(word[2] == bytes@[start + 2]);
        assert(word[3] == bytes@[start + 3]);
        assert(word[4] == bytes@[start + 4]);
        assert(word[5] == bytes@[start + 5]);
        assert(word[6] == bytes@[start + 6]);
        if found {
            assert(word =~= version_word());
        }
    }
    found
}

/// Reads the version from the text of a manifest: the quoted value of the
/// first line that starts with `version` and has one.
pub fn parse_local_version(content: &str) -> (version: Option<String>)
    ensures
        match version {
            Some(v) => match version_span(content.spec_bytes(), 0) {
                Some(span) => encode_utf8(v@) == content.spec_bytes().subrange(span.0, span.1),
                None => false,
            },
            None => version_span(content.spec_bytes(), 0) is None,
        },
{
    let bytes = content.as_bytes();
    let len: usize = bytes.len();
    let mut start: usize = 0;
    proof {
        encode_utf8_valid_utf8(content@);
    }
    while start < len
        invariant
            start <= len,
            len == bytes@.len(),
            bytes@ == content.spec_bytes(),
            valid_utf8(bytes@),
            version_span(bytes@, start as int) == version_span(bytes@, 0),
        decreases len - start,
    {
        let stop: usize = find_segment_end(bytes, start);
        let end: usize = if stop < len && start < stop && bytes[stop - 1] == 0x0D {
            stop - 1
        } else {
            stop
        };
        if starts_with_version(bytes, start, end) {
            let open: usize = find_quote(bytes, start, end);
            if open < end {
                let close: usize = find_quote(bytes, open + 1, end);
                proof {
                    lemma_quote_at(bytes@, start as int, end as int);
                    lemma_quote_at(bytes@, open + 1, end as int);
                    lemma_segment_end(bytes@, start as int);
                    is_char_boundary_start_end_of_seq(bytes@);
                    lemma_ascii_byte_stands_alone(bytes@, open as int);
                    if close < len {
                        lemma_ascii_byte_stands_alone(bytes@, close as int);
                    }
                    crate::chunker::lemma_boundary_in_prefix(bytes@, open + 1, close as int);
                }
                let (front, _) = content.split_at(close);
                let (_, value) = front.split_at(open + 1);
                proof {
                    assert(value.spec_bytes() =~= bytes@.subrange(open + 1, close as int));
                }
                return Some(String::from_str(value));
            }
        }
        if stop < len {
            start = stop + 1;
        } else {
            start = len;
        }
    }
    None
}

} // verus!
