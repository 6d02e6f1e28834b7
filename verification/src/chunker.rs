//! Splitting of text into overlapping chunks at code-aware separators.
//!
//! Positions are byte offsets into the UTF-8 encoding of the text. A chunk
//! always starts and ends between characters.

use vstd::prelude::*;
use vstd::string::*;
use vstd::utf8::*;
use crate::text::texts;

verus! {

/// Offset basis of the content hash.
pub const HASH_BASIS: u64 = 0xcbf2_9ce4_8422_2325;

/// Prime of the content hash.
pub const HASH_PRIME: u64 = 0x0100_0000_01b3;

/// Settings of a chunker.
#[derive(Debug, Clone)]
pub struct ChunkerConfig {
    /// Target size of a chunk in bytes.
    pub chunk_size: usize,
    /// Bytes that neighbouring chunks share.
    pub chunk_overlap: usize,
    /// Separators, the preferred ones first.
    pub separators: Vec<String>,
}

impl ChunkerConfig {
    /// Settings with the given sizes and separators.
    pub fn new(chunk_size: usize, chunk_overlap: usize, separators: Vec<String>) -> (config: Self)
        ensures
            config.chunk_size == chunk_size,
            config.chunk_overlap == chunk_overlap,
            config.separators == separators,
    {
        ChunkerConfig { chunk_size, chunk_overlap, separators }
    }
}

/// A chunk of a text with its position.
#[derive(Debug, Clone, PartialEq, Eq)]
pub struct Chunk {
    /// The text of the chunk.
    pub content: String,
    /// Offset of its first byte in the source.
    pub start_offset: usize,
    /// Offset after its last byte in the source.
    pub end_offset: usize,
    /// Line of its first byte, counted from 1.
    pub start_line: usize,
    /// Line of its end, counted from 1.
    pub end_line: usize,
}

/// One step of the hash: the state after `byte`.
pub open spec fn hash_step(state: u64, byte: u8) -> u64 {
    (((state ^ (byte as u64)) as int * HASH_PRIME as int) % 0x1_0000_0000_0000_0000) as u64
}

/// The state of the hash after `bytes`.
pub open spec fn hash_state(bytes: Seq<u8>) -> u64
    decreases bytes.len(),
{
    if bytes.len() == 0 {
        HASH_BASIS
    } else {
        hash_step(hash_state(bytes.drop_last()), bytes.last())
    }
}

/// Byte `j` of `word`, the lowest first.
pub open spec fn low_byte(word: u64, j: nat) -> u8 {
    ((word >> ((8 * j) as u64)) & 0xff) as u8
}

/// Byte `k` of the 32-byte hash of a state: four words, `state`, `state +
/// 1`, `state + 2` and `state + 3`, each modulo 2^64 and lowest byte first.
pub open spec fn hash_byte(state: u64, k: nat) -> u8 {
    low_byte(((state as int + (k / 8) as int) % 0x1_0000_0000_0000_0000) as u64, k % 8)
}

impl Chunk {
    /// Hash of the content, for deduplication. It depends on the content
    /// alone, not on where the chunk lies.
    pub fn content_hash(&self) -> (hash: [u8; 32])
        ensures
            forall|k: int|
                0 <= k < 32 ==> #[trigger] hash@[k] == hash_byte(
                    hash_state(encode_utf8(self.content@)),
                    k as nat,
                ),
    {
        let bytes = self.content.as_str().as_bytes();
        let mut state: u64 = HASH_BASIS;
        let mut i: usize = 0;
        assert(bytes@.take(0) =~= Seq::<u8>::empty());
        while i < bytes.len()
            invariant
                i <= bytes@.len(),
                state == hash_state(bytes@.take(i as int)),
            decreases bytes@.len() - i,
        {
            assert(bytes@.take(i + 1).drop_last() =~= bytes@.take(i as int));
            state = (state ^ (bytes[i] as u64)).wrapping_mul(HASH_PRIME);
            i += 1;
        }
        assert(bytes@.take(i as int) =~= bytes@);
        let mut hash: [u8; 32] = [0u8; 32];
        let mut w: usize = 0;
        while w < 4
            invariant
                w <= 4,
                forall|k: int| 0 <= k < 8 * w ==> #[trigger] hash@[k] == hash_byte(state, k as nat),
            decreases 4 - w,
        {
            let word: u64 = state.wrapping_add(w as u64);
            let mut j: usize = 0;
            while j < 8
                invariant
                    j <= 8,
                    w < 4,
                    word as int == (state as int + w as int) % 0x1_0000_0000_0000_0000,
                    forall|k: int| 0 <= k < 8 * w + j ==> #[trigger] hash@[k] == hash_byte(state, k as nat),
                decreases 8 - j,
            {
                let shift: u64 = (8 * j) as u64;
                let byte: u8 = ((word >> shift) & 0xff) as u8;
                hash.set(8 * w + j, byte);
                proof {
                    let k = (8 * w + j) as nat;
                    assert(k / 8 == w && k % 8 == j);
                }
                j += 1;
            }
            w += 1;
        }
        hash
    }
}

/// The greatest offset at or before `pos` that lies between characters; the
/// end of the text for a `pos` at or beyond it.
pub open spec fn floor_boundary(bytes: Seq<u8>, pos: int) -> int
    decreases pos,
{
    if pos >= bytes.len() {
        bytes.len() as int
    } else if pos <= 0 || is_char_boundary(bytes, pos) {
        pos
    } else {
        floor_boundary(bytes, pos - 1)
    }
}

/// The least offset at or after `pos` that lies between characters; the end
/// of the text for a `pos` at or beyond it.
pub open spec fn ceil_boundary(bytes: Seq<u8>, pos: int) -> int
    decreases bytes.len() - pos,
{
    if pos >= bytes.len() {
        bytes.len() as int
    } else if is_char_boundary(bytes, pos) {
        pos
    } else {
        ceil_boundary(bytes, pos + 1)
    }
}

/// Whether `needle` stands in `region` at offset `pos`.
pub open spec fn matches_at(region: Seq<u8>, needle: Seq<u8>, pos: int) -> bool {
    0 <= pos && pos + needle.len() <= region.len() && region.subrange(pos, pos + needle.len()) == needle
}

/// The greatest offset at or below `from` at which `needle` stands in
/// `region`.
pub open spec fn last_match_from(region: Seq<u8>, needle: Seq<u8>, from: int) -> Option<int>
    decreases from + 1,
{
    if from < 0 {
        None
    } else if matches_at(region, needle, from) {
        Some(from)
    } else {
        last_match_from(region, needle, from - 1)
    }
}

/// The greatest offset at which `needle` stands in `region`. The empty
/// needle stands at the end.
pub open spec fn last_match(region: Seq<u8>, needle: Seq<u8>) -> Option<int> {
    last_match_from(region, needle, region.len() - needle.len())
}

/// What [`last_match_from`] finds is a match at or below `from`, and no
/// match lies between it and `from`.
pub proof fn lemma_last_match(region: Seq<u8>, needle: Seq<u8>, from: int)
    ensures
        match last_match_from(region, needle, from) {
            Some(pos) => 0 <= pos <= from && matches_at(region, needle, pos) && forall|q: int|
                pos < q <= from ==> !matches_at(region, needle, q),
            None => forall|q: int| 0 <= q <= from ==> !matches_at(region, needle, q),
        },
    decreases from + 1,
{
    if from >= 0 && !matches_at(region, needle, from) {
        lemma_last_match(region, needle, from - 1);
    }
}

/// The offset nearest to `pos`, at or before it, that lies between
/// characters.
pub fn find_char_boundary(text: &str, pos: usize) -> (boundary: usize)
    ensures
        boundary == floor_boundary(text.spec_bytes(), pos as int),
        boundary <= text.spec_bytes().len(),
        boundary <= pos,
        is_char_boundary(text.spec_bytes(), boundary as int),
{
    proof {
        encode_utf8_valid_utf8(text@);
        is_char_boundary_start_end_of_seq(text.spec_bytes());
    }
    let len: usize = text.as_bytes().len();
    if pos >= len {
        return len;
    }
    let mut boundary: usize = pos;
    while boundary > 0 && !text.is_char_boundary(boundary)
        invariant
            boundary <= pos,
            pos < text.spec_bytes().len(),
            valid_utf8(text.spec_bytes()),
            floor_boundary(text.spec_bytes(), boundary as int) == floor_boundary(text.spec_bytes(), pos as int),
            is_char_boundary(text.spec_bytes(), 0),
        decreases boundary,
    {
        boundary -= 1;
    }
    boundary
}

/// The offset nearest to `pos`, at or after it, that lies between
/// characters.
pub fn find_next_char_boundary(text: &str, pos: usize) -> (boundary: usize)
    ensures
        boundary == ceil_boundary(text.spec_bytes(), pos as int),
        boundary <= text.spec_bytes().len(),
        pos <= text.spec_bytes().len() ==> pos <= boundary,
        is_char_boundary(text.spec_bytes(), boundary as int),
{
    proof {
        encode_utf8_valid_utf8(text@);
        is_char_boundary_start_end_of_seq(text.spec_bytes());
    }
    let len: usize = text.as_bytes().len();
    if pos >= len {
        return len;
    }
    let mut boundary: usize = pos;
    while boundary < len && !text.is_char_boundary(boundary)
        invariant
            pos <= boundary <= len,
            len == text.spec_bytes().len(),
            valid_utf8(text.spec_bytes()),
            ceil_boundary(text.spec_bytes(), boundary as int) == ceil_boundary(text.spec_bytes(), pos as int),
            is_char_boundary(text.spec_bytes(), len as int),
        decreases len - boundary,
    {
        boundary += 1;
    }
    boundary
}

/// Whether `needle` stands in `bytes[start..end]` at offset `pos` of that
/// region.
pub fn stands_at(bytes: &[u8], start: usize, end: usize, needle: &[u8], pos: usize) -> (found: bool)
    requires
        start <= end <= bytes@.len(),
        start + pos + needle@.len() <= end,
    ensures
        found == matches_at(bytes@.subrange(start as int, end as int), needle@, pos as int),
{
    let ghost region = bytes@.subrange(start as int, end as int);
    let mut k: usize = 0;
    while k < needle.len()
        invariant
            k <= needle@.len(),
            start <= end <= bytes@.len(),
            start + pos + needle@.len() <= end,
            region == bytes@.subrange(start as int, end as int),
            forall|j: int| 0 <= j < k ==> region[pos + j] == needle@[j],
        decreases needle@.len() - k,
    {
        if bytes[start + pos + k] != needle[k] {
            assert(region[pos + k] != needle@[k as int]);
            assert(region.subrange(pos as int, pos + needle@.len())[k as int] == region[pos + k]);
            return false;
        }
        k += 1;
    }
    assert(region.subrange(pos as int, pos + needle@.len()) =~= needle@);
    true
}

/// The last offset in `bytes[start..end]` at which `needle` stands.
pub fn find_last(bytes: &[u8], start: usize, end: usize, needle: &[u8]) -> (found: Option<usize>)
    requires
        start <= end <= bytes@.len(),
    ensures
        match found {
            Some(pos) => last_match(bytes@.subrange(start as int, end as int), needle@) == Some(pos as int)
                && start + pos + needle@.len() <= end,
            None => last_match(bytes@.subrange(start as int, end as int), needle@) is None,
        },
{
    let ghost region = bytes@.subrange(start as int, end as int);
    if needle.len() > end - start {
        return None;
    }
    let top: usize = end - start - needle.len();
    let mut pos: usize = top;
    loop
        invariant
            pos <= top,
            start <= end <= bytes@.len(),
            top == end - start - needle@.len(),
            region == bytes@.subrange(start as int, end as int),
            last_match_from(region, needle@, pos as int) == last_match(region, needle@),
        decreases pos,
    {
        if stands_at(bytes, start, end, needle, pos) {
            return Some(pos);
        }
        if pos == 0 {
            assert(last_match_from(region, needle@, -1) is None);
            return None;
        }
        pos -= 1;
    }
}

/// The length of the white-space character whose encoding starts at offset
/// `i` of `region`, or 0 where none starts there. White space is what
/// Unicode calls so: tab to carriage return, space, next line, no-break
/// space, the ogham space mark, the spaces from en quad to hair space, line
/// and paragraph separator, the narrow no-break and the medium mathematical
/// space, and the ideographic space.
pub open spec fn blank_width(region: Seq<u8>, i: int) -> nat {
    if i < 0 || i >= region.len() {
        0
    } else if (0x09 <= region[i] <= 0x0D) || region[i] == 0x20 {
        1
    } else if i + 1 < region.len() && region[i] == 0xC2 && (region[i + 1] == 0x85 || region[i + 1] == 0xA0) {
        2
    } else if i + 2 < region.len() && region[i] == 0xE1 && region[i + 1] == 0x9A && region[i + 2] == 0x80 {
        3
    } else if i + 2 < region.len() && region[i] == 0xE2 && region[i + 1] == 0x80 && ((0x80 <= region[i + 2]
        <= 0x8A) || region[i + 2] == 0xA8 || region[i + 2] == 0xA9 || region[i + 2] == 0xAF) {
        3
    } else if i + 2 < region.len() && region[i] == 0xE2 && region[i + 1] == 0x81 && region[i + 2] == 0x9F {
        3
    } else if i + 2 < region.len() && region[i] == 0xE3 && region[i + 1] == 0x80 && region[i + 2] == 0x80 {
        3
    } else {
        0
    }
}

/// Whether `region` holds nothing but white space from offset `i` on.
pub open spec fn blank_from(region: Seq<u8>, i: int) -> bool
    decreases region.len() - i,
{
    if i >= region.len() {
        true
    } else if blank_width(region, i) == 0 {
        false
    } else {
        blank_from(region, i + blank_width(region, i))
    }
}

/// Whether `region` holds nothing but white space.
pub open spec fn all_blank(region: Seq<u8>) -> bool {
    blank_from(region, 0)
}

/// The number of line feeds among the first `upto` bytes of `region`.
pub open spec fn line_feeds(region: Seq<u8>, upto: int) -> nat
    decreases upto,
{
    if upto <= 0 {
        0
    } else {
        line_feeds(region, upto - 1) + if upto <= region.len() && region[upto - 1] == 0x0A {
            1nat
        } else {
            0nat
        }
    }
}

/// No more line feeds than bytes.
pub proof fn lemma_line_feeds_bound(region: Seq<u8>, upto: int)
    requires
        0 <= upto,
    ensures
        line_feeds(region, upto) <= upto,
    decreases upto,
{
    if upto > 0 {
        lemma_line_feeds_bound(region, upto - 1);
    }
}

/// The line feeds of a text up to `end` are those up to `start` and those
/// of the bytes between the two.
pub proof fn lemma_line_feeds_split(bytes: Seq<u8>, start: int, end: int)
    requires
        0 <= start <= end <= bytes.len(),
    ensures
        line_feeds(bytes, end) == line_feeds(bytes, start) + line_feeds(bytes.subrange(start, end), end - start),
    decreases end - start,
{
    if start < end {
        lemma_line_feeds_split(bytes, start, end - 1);
        let short = bytes.subrange(start, end - 1);
        let long = bytes.subrange(start, end);
        lemma_line_feeds_same(short, long, end - 1 - start);
    }
}

/// Line feeds are counted byte by byte: two regions that agree on their
/// first `upto` bytes hold equally many there.
pub proof fn lemma_line_feeds_same(a: Seq<u8>, b: Seq<u8>, upto: int)
    requires
        0 <= upto <= a.len(),
        upto <= b.len(),
        forall|i: int| 0 <= i < upto ==> a[i] == b[i],
    ensures
        line_feeds(a, upto) == line_feeds(b, upto),
    decreases upto,
{
    if upto > 0 {
        lemma_line_feeds_same(a, b, upto - 1);
    }
}

/// Whether `bytes[start..end]` holds nothing but white space.
pub fn is_blank(bytes: &[u8], start: usize, end: usize) -> (blank: bool)
    requires
        start <= end <= bytes@.len(),
    ensures
        blank == all_blank(bytes@.subrange(start as int, end as int)),
{
    let ghost region = bytes@.subrange(start as int, end as int);
    let mut i: usize = start;
    while i < end
        invariant
            start <= i <= end,
            end <= bytes@.len(),
            region == bytes@.subrange(start as int, end as int),
            blank_from(region, i - start) == all_blank(region),
        decreases end - i,
    {
        let b0: u8 = bytes[i];
        assert(region[i - start] == b0);
        let width: usize = if (0x09 <= b0 && b0 <= 0x0D) || b0 == 0x20 {
            1
        } else if end - i >= 2 && b0 == 0xC2 {
            let b1: u8 = bytes[i + 1];
            assert(region[i - start + 1] == b1);
            if b1 == 0x85 || b1 == 0xA0 {
                2
            } else {
                0
            }
        } else if end - i >= 3 && (b0 == 0xE1 || b0 == 0xE2 || b0 == 0xE3) {
            let b1: u8 = bytes[i + 1];
            let b2: u8 = bytes[i + 2];
            assert(region[i - start + 1] == b1);
            assert(region[i - start + 2] == b2);
            if b0 == 0xE1 && b1 == 0x9A && b2 == 0x80 {
                3
            } else if b0 == 0xE2 && b1 == 0x80 && ((0x80 <= b2 && b2 <= 0x8A) || b2 == 0xA8 || b2 == 0xA9 || b2
                == 0xAF) {
                3
            } else if b0 == 0xE2 && b1 == 0x81 && b2 == 0x9F {
                3
            } else if b0 == 0xE3 && b1 == 0x80 && b2 == 0x80 {
                3
            } else {
                0
            }
        } else {
            0
        };
        assert(width == blank_width(region, i - start));
        if width == 0 {
            return false;
        }
        i += width;
    }
    true
}

/// Counts the line feeds of `bytes[start..end]`.
pub fn count_line_feeds(bytes: &[u8], start: usize, end: usize) -> (count: usize)
    requires
        start <= end <= bytes@.len(),
    ensures
        count == line_feeds(bytes@.subrange(start as int, end as int), end - start),
        count <= end - start,
{
    let ghost region = bytes@.subrange(start as int, end as int);
    let mut count: usize = 0;
    let mut i: usize = start;
    while i < end
        invariant
            start <= i <= end,
            end <= bytes@.len(),
            region == bytes@.subrange(start as int, end as int),
            count == line_feeds(region, i - start),
            count <= i - start,
        decreases end - i,
    {
        assert(region[i - start] == bytes@[i as int]);
        if bytes[i] == 0x0A {
            count += 1;
        }
        i += 1;
    }
    count
}

/// The encodings of the separators.
pub open spec fn needles(separators: Seq<String>) -> Seq<Seq<u8>> {
    Seq::new(separators.len(), |i: int| encode_utf8(separators[i]@))
}

/// Where a separator cuts the chunk that starts at `start` and may reach to
/// `limit`: after the last occurrence, in `bytes[start..limit]`, of the
/// first separator from number `from` on that occurs there beyond the very
/// start.
pub open spec fn separator_cut(bytes: Seq<u8>, start: int, limit: int, seps: Seq<Seq<u8>>, from: int) -> Option<
    int,
>
    decreases seps.len() - from,
{
    if from < 0 || from >= seps.len() {
        None
    } else {
        let found = last_match(bytes.subrange(start, limit), seps[from]);
        if found is Some && found->0 > 0 {
            Some(start + found->0 + seps[from].len())
        } else {
            separator_cut(bytes, start, limit, seps, from + 1)
        }
    }
}

/// How far a chunk from `start` may reach: `chunk_size` bytes on, pulled
/// back to the end of the text and then to the nearest offset between
/// characters.
pub open spec fn reach(bytes: Seq<u8>, start: int, chunk_size: int) -> int {
    floor_boundary(
        bytes,
        if start + chunk_size <= bytes.len() {
            start + chunk_size
        } else {
            bytes.len() as int
        },
    )
}

/// Where the chunk that starts at `start` ends: at the end of the text if
/// the chunk may reach it; else where a separator cuts it; else as far as
/// it may reach.
pub open spec fn chunk_end(bytes: Seq<u8>, start: int, chunk_size: int, seps: Seq<Seq<u8>>) -> int {
    let limit = reach(bytes, start, chunk_size);
    if bytes.len() <= limit {
        bytes.len() as int
    } else {
        match separator_cut(bytes, start, limit, seps, 0) {
            Some(end) => end,
            None => limit,
        }
    }
}

/// Where the chunk after the one from `start` to `end` starts: the length
/// of the chunk further, less the overlap if the chunk is longer than it,
/// at least one byte further, and moved on to the nearest offset between
/// characters.
pub open spec fn next_start(bytes: Seq<u8>, start: int, end: int, overlap: int) -> int {
    let length = end - start;
    let advance = if length > overlap {
        length - overlap
    } else {
        length
    };
    ceil_boundary(
        bytes,
        start + if advance >= 1 {
            advance
        } else {
            1
        },
    )
}

/// Start and end of every chunk from offset `start` on that is not blank.
pub open spec fn spans_from(bytes: Seq<u8>, start: int, chunk_size: int, overlap: int, seps: Seq<Seq<u8>>) -> Seq<
    (int, int),
>
    decreases bytes.len() - start,
{
    if start < 0 || start >= bytes.len() {
        Seq::empty()
    } else {
        let end = chunk_end(bytes, start, chunk_size, seps);
        let next = next_start(bytes, start, end, overlap);
        let rest = if start < next <= bytes.len() {
            spans_from(bytes, next, chunk_size, overlap, seps)
        } else {
            Seq::empty()
        };
        if start <= end <= bytes.len() && !all_blank(bytes.subrange(start, end)) {
            seq![(start, end)] + rest
        } else {
            rest
        }
    }
}

/// Whether `chunk` is the chunk of the text `bytes` from `start` to `end`:
/// it holds those bytes, its offsets are the two, its first line is one more
/// than the line feeds before it, and its last line as many further as it
/// holds line feeds.
pub open spec fn is_chunk_of(chunk: Chunk, bytes: Seq<u8>, start: int, end: int) -> bool {
    &&& chunk.start_offset == start
    &&& chunk.end_offset == end
    &&& encode_utf8(chunk.content@) == bytes.subrange(start, end)
    &&& chunk.start_line == line_feeds(bytes, start) + 1
    &&& chunk.end_line == line_feeds(bytes, end) + 1
}

/// An offset between characters at or before `pos` bounds the floor of
/// `pos` from below.
pub proof fn lemma_floor_at_least(bytes: Seq<u8>, pos: int, q: int)
    requires
        valid_utf8(bytes),
        0 <= q <= pos,
        q <= bytes.len(),
        is_char_boundary(bytes, q),
    ensures
        q <= floor_boundary(bytes, pos) <= bytes.len(),
        floor_boundary(bytes, pos) <= pos || pos >= bytes.len(),
    decreases pos,
{
    if pos < bytes.len() && pos > 0 && !is_char_boundary(bytes, pos) {
        lemma_floor_at_least(bytes, pos - 1, q);
    }
}

/// An offset between characters of a text is one of every prefix of the
/// text that ends between characters.
pub proof fn lemma_boundary_in_prefix(bytes: Seq<u8>, start: int, end: int)
    requires
        valid_utf8(bytes),
        0 <= start <= end <= bytes.len(),
        is_char_boundary(bytes, start),
        is_char_boundary(bytes, end),
    ensures
        valid_utf8(bytes.subrange(0, end)),
        is_char_boundary(bytes.subrange(0, end), start),
{
    valid_utf8_split(bytes, end);
    let prefix = bytes.subrange(0, end);
    is_char_boundary_start_end_of_seq(prefix);
    if start < end {
        is_char_boundary_iff_not_is_continuation_byte(bytes, start);
        is_char_boundary_iff_not_is_continuation_byte(prefix, start);
        assert(prefix[start] == bytes[start]);
    }
}

/// A text that starts with a whole text has an offset between characters
/// where that text ends.
pub proof fn lemma_prefix_ends_between_characters(text: Seq<u8>, piece: Seq<u8>)
    requires
        valid_utf8(text),
        valid_utf8(piece),
        piece.len() <= text.len(),
        text.subrange(0, piece.len() as int) == piece,
    ensures
        is_char_boundary(text, piece.len() as int),
    decreases piece.len(),
{
    if piece.len() > 0 {
        assert(text[0] == text.subrange(0, piece.len() as int)[0]);
        let width = length_of_first_scalar(piece);
        assert(width == length_of_first_scalar(text));
        assert(1 <= width <= piece.len());
        let text_rest = pop_first_scalar(text);
        let piece_rest = pop_first_scalar(piece);
        assert(text_rest.subrange(0, piece_rest.len() as int) =~= piece_rest) by {
            assert forall|i: int| 0 <= i < piece_rest.len() implies text_rest[i] == piece_rest[i] by {
                assert(text.subrange(0, piece.len() as int)[i + width] == piece[i + width]);
            }
        }
        lemma_prefix_ends_between_characters(text_rest, piece_rest);
        reveal_with_fuel(is_char_boundary, 2);
    }
}

/// An offset between characters of what follows an offset between
/// characters is one of the whole text.
pub proof fn lemma_boundary_after_boundary(bytes: Seq<u8>, p: int, k: int)
    requires
        valid_utf8(bytes),
        0 <= p,
        0 <= k,
        p + k <= bytes.len(),
        is_char_boundary(bytes, p),
        is_char_boundary(bytes.subrange(p, bytes.len() as int), k),
    ensures
        is_char_boundary(bytes, p + k),
{
    valid_utf8_split(bytes, p);
    let rest = bytes.subrange(p, bytes.len() as int);
    is_char_boundary_start_end_of_seq(bytes);
    if p + k < bytes.len() {
        is_char_boundary_iff_not_is_continuation_byte(rest, k);
        is_char_boundary_iff_not_is_continuation_byte(bytes, p + k);
        assert(rest[k] == bytes[p + k]);
    }
}

/// Where a text occurs in another text, it starts and ends between
/// characters.
pub proof fn lemma_match_lies_between_characters(bytes: Seq<u8>, needle: Seq<u8>, p: int)
    requires
        valid_utf8(bytes),
        valid_utf8(needle),
        needle.len() > 0,
        0 <= p,
        p + needle.len() <= bytes.len(),
        bytes.subrange(p, p + needle.len()) == needle,
    ensures
        is_char_boundary(bytes, p),
        is_char_boundary(bytes, p + needle.len()),
{
    is_char_boundary_start_end_of_seq(needle);
    is_char_boundary_iff_not_is_continuation_byte(needle, 0);
    is_char_boundary_iff_not_is_continuation_byte(bytes, p);
    assert(bytes.subrange(p, p + needle.len())[0] == bytes[p]);
    valid_utf8_split(bytes, p);
    let rest = bytes.subrange(p, bytes.len() as int);
    assert(rest.subrange(0, needle.len() as int) =~= needle) by {
        assert forall|i: int| 0 <= i < needle.len() implies rest[i] == needle[i] by {
            assert(bytes.subrange(p, p + needle.len())[i] == bytes[p + i]);
        }
    }
    lemma_prefix_ends_between_characters(rest, needle);
    lemma_boundary_after_boundary(bytes, p, needle.len() as int);
}

/// Semantic chunker with code-aware separators.
#[derive(Debug, Clone)]
pub struct SemanticChunker {
    chunk_size: usize,
    chunk_overlap: usize,
    separators: Vec<String>,
}

/// The default separators: markdown headings, Rust items, code fences,
/// paragraphs, lines and words, in that order.
pub open spec fn default_separator_texts() -> Seq<Seq<char>> {
    seq![
        "\n## "@,
        "\n### "@,
        "\n#### "@,
        "\nfn "@,
        "\npub fn "@,
        "\nimpl "@,
        "\nstruct "@,
        "\nenum "@,
        "\nmod "@,
        "\n```"@,
        "\n\n"@,
        "\n"@,
        " "@,
    ]
}

impl SemanticChunker {
    /// The target size of a chunk in bytes.
    pub closed spec fn spec_chunk_size(&self) -> usize {
        self.chunk_size
    }

    /// The bytes that neighbouring chunks share.
    pub closed spec fn spec_chunk_overlap(&self) -> usize {
        self.chunk_overlap
    }

    /// The separators, the preferred ones first.
    pub closed spec fn spec_separators(&self) -> Seq<String> {
        self.separators@
    }

    /// A chunker with the given sizes and separators.
    pub fn new(chunk_size: usize, chunk_overlap: usize, separators: Vec<String>) -> (chunker: Self)
        ensures
            chunker.spec_chunk_size() == chunk_size,
            chunker.spec_chunk_overlap() == chunk_overlap,
            chunker.spec_separators() == separators@,
    {
        SemanticChunker { chunk_size, chunk_overlap, separators }
    }

    /// A chunker with the sizes of `config` and the default separators.
    pub fn from_config(config: &ChunkerConfig) -> (chunker: Self)
        ensures
            chunker.spec_chunk_size() == config.chunk_size,
            chunker.spec_chunk_overlap() == config.chunk_overlap,
            texts(chunker.spec_separators()) == default_separator_texts(),
    {
        SemanticChunker {
            chunk_size: config.chunk_size,
            chunk_overlap: config.chunk_overlap,
            separators: Self::default_separators(),
        }
    }

    /// The default separators.
    pub fn default_separators() -> (separators: Vec<String>)
        ensures
            texts(separators@) == default_separator_texts(),
    {
        let mut separators: Vec<String> = Vec::new();
        separators.push(String::from_str("\n## "));
        separators.push(String::from_str("\n### "));
        separators.push(String::from_str("\n#### "));
        separators.push(String::from_str("\nfn "));
        separators.push(String::from_str("\npub fn "));
        separators.push(String::from_str("\nimpl "));
        separators.push(String::from_str("\nstruct "));
        separators.push(String::from_str("\nenum "));
        separators.push(String::from_str("\nmod "));
        separators.push(String::from_str("\n```"));
        separators.push(String::from_str("\n\n"));
        separators.push(String::from_str("\n"));
        separators.push(String::from_str(" "));
        assert(texts(separators@) =~= default_separator_texts());
        separators
    }

    /// The target size of a chunk in bytes.
    pub fn chunk_size(&self) -> (size: usize)
        ensures
            size == self.spec_chunk_size(),
    {
        self.chunk_size
    }

    /// The bytes that neighbouring chunks share.
    pub fn chunk_overlap(&self) -> (overlap: usize)
        ensures
            overlap == self.spec_chunk_overlap(),
    {
        self.chunk_overlap
    }

    /// The separators, the preferred ones first.
    pub fn separators(&self) -> (separators: &Vec<String>)
        ensures
            separators@ == self.spec_separators(),
    {
        &self.separators
    }

    /// The settings of the chunker.
    pub fn config(&self) -> (config: ChunkerConfig)
        ensures
            config.chunk_size == self.spec_chunk_size(),
            config.chunk_overlap == self.spec_chunk_overlap(),
            config.separators@.len() == self.spec_separators().len(),
            forall|i: int| 0 <= i < config.separators@.len() ==> #[trigger] config.separators@[i] == self.spec_separators()[i],
    {
        let mut separators: Vec<String> = Vec::new();
        let mut i: usize = 0;
        while i < self.separators.len()
            invariant
                i <= self.separators@.len(),
                separators@.len() == i,
                forall|j: int| 0 <= j < i ==> #[trigger] separators@[j] == self.separators@[j],
            decreases self.separators@.len() - i,
        {
            separators.push(self.separators[i].clone());
            i += 1;
        }
        ChunkerConfig::new(self.chunk_size, self.chunk_overlap, separators)
    }

    /// Where the chunk from `start` is cut by a separator, trying the
    /// separators in order.
    fn cut_at_separator(&self, text: &str, start: usize, limit: usize) -> (cut: Option<usize>)
        requires
            start <= limit <= text.spec_bytes().len(),
            is_char_boundary(text.spec_bytes(), limit as int),
        ensures
            match cut {
                Some(end) => separator_cut(
                    text.spec_bytes(),
                    start as int,
                    limit as int,
                    needles(self.spec_separators()),
                    0,
                ) == Some(end as int) && start < end <= limit && is_char_boundary(text.spec_bytes(), end as int),
                None => separator_cut(
                    text.spec_bytes(),
                    start as int,
                    limit as int,
                    needles(self.spec_separators()),
                    0,
                ) is None,
            },
    {
        let bytes = text.as_bytes();
        let ghost seps = needles(self.separators@);
        let ghost region = bytes@.subrange(start as int, limit as int);
        proof {
            encode_utf8_valid_utf8(text@);
        }
        let mut k: usize = 0;
        while k < self.separators.len()
            invariant
                k <= self.separators@.len(),
                start <= limit <= bytes@.len(),
                bytes@ == text.spec_bytes(),
                valid_utf8(bytes@),
                is_char_boundary(bytes@, limit as int),
                region == bytes@.subrange(start as int, limit as int),
                seps == needles(self.separators@),
                separator_cut(bytes@, start as int, limit as int, seps, k as int) == separator_cut(
                    bytes@,
                    start as int,
                    limit as int,
                    seps,
                    0,
                ),
            decreases self.separators@.len() - k,
        {
            let needle = self.separators[k].as_str().as_bytes();
            assert(needle@ == seps[k as int]);
            match find_last(bytes, start, limit, needle) {
                Some(pos) => {
                    if pos > 0 {
                        let end: usize = start + pos + needle.len();
                        proof {
                            lemma_last_match(region, needle@, region.len() - needle@.len());
                            if needle@.len() > 0 {
                                encode_utf8_valid_utf8(self.separators@[k as int]@);
                                assert(bytes@.subrange(start + pos, start + pos + needle@.len()) =~= region.subrange(
                                    pos as int,
                                    pos + needle@.len(),
                                ));
                                lemma_match_lies_between_characters(bytes@, needle@, start + pos);
                            } else {
                                assert(matches_at(region, needle@, region.len() as int)) by {
                                    assert(region.subrange(region.len() as int, region.len() as int) =~= needle@);
                                }
                                assert(pos == region.len());
                            }
                        }
                        return Some(end);
                    }
                },
                None => {},
            }
            k += 1;
        }
        None
    }

    /// Takes one chunk from the text: its content and the offset at which
    /// it ends.
    pub fn extract_chunk(&self, text: &str, start: usize) -> (chunk: (String, usize))
        requires
            start <= text.spec_bytes().len(),
            is_char_boundary(text.spec_bytes(), start as int),
        ensures
            chunk.1 == chunk_end(
                text.spec_bytes(),
                start as int,
                self.spec_chunk_size() as int,
                needles(self.spec_separators()),
            ),
            start <= chunk.1 <= text.spec_bytes().len(),
            is_char_boundary(text.spec_bytes(), chunk.1 as int),
            encode_utf8(chunk.0@) == text.spec_bytes().subrange(start as int, chunk.1 as int),
    {
        let bytes = text.as_bytes();
        let len: usize = bytes.len();
        proof {
            encode_utf8_valid_utf8(text@);
            is_char_boundary_start_end_of_seq(text.spec_bytes());
        }
        let wanted: usize = if self.chunk_size >= len - start {
            len
        } else {
            start + self.chunk_size
        };
        let limit: usize = find_char_boundary(text, wanted);
        proof {
            lemma_floor_at_least(text.spec_bytes(), wanted as int, start as int);
        }
        let end: usize = if len <= limit {
            len
        } else {
            match self.cut_at_separator(text, start, limit) {
                Some(cut) => cut,
                None => limit,
            }
        };
        proof {
            lemma_boundary_in_prefix(text.spec_bytes(), start as int, end as int);
        }
        let (front, _) = text.split_at(end);
        let (_, piece) = front.split_at(start);
        proof {
            assert(piece.spec_bytes() =~= text.spec_bytes().subrange(start as int, end as int));
        }
        (String::from_str(piece), end)
    }

    /// Splits a text into chunks. Each chunk runs as far as the chunk size
    /// allows and is cut after the last preferred separator before that;
    /// the next chunk starts the overlap before the end of the one before
    /// it, and at least one byte after its start. Chunks of nothing but
    /// white space are left out.
    pub fn split(&self, text: &str) -> (chunks: Vec<Chunk>)
        requires
            text.spec_bytes().len() < usize::MAX,
        ensures
            chunks@.len() == self.spans(text.spec_bytes()).len(),
            forall|i: int|
                0 <= i < chunks@.len() ==> is_chunk_of(
                    #[trigger] chunks@[i],
                    text.spec_bytes(),
                    self.spans(text.spec_bytes())[i].0,
                    self.spans(text.spec_bytes())[i].1,
                ),
    {
        let bytes = text.as_bytes();
        let len: usize = bytes.len();
        let ghost all = self.spans(bytes@);
        let ghost seps = needles(self.separators@);
        let mut chunks: Vec<Chunk> = Vec::new();
        let mut current: usize = 0;
        proof {
            encode_utf8_valid_utf8(text@);
            is_char_boundary_start_end_of_seq(text.spec_bytes());
        }
        while current < len
            invariant
                current <= len,
                len == bytes@.len(),
                len < usize::MAX,
                bytes@ == text.spec_bytes(),
                valid_utf8(bytes@),
                is_char_boundary(bytes@, current as int),
                seps == needles(self.separators@),
                all == self.spans(bytes@),
                chunks@.len() <= all.len(),
                all == all.take(chunks@.len() as int) + spans_from(
                    bytes@,
                    current as int,
                    self.chunk_size as int,
                    self.chunk_overlap as int,
                    seps,
                ),
                forall|i: int|
                    0 <= i < chunks@.len() ==> is_chunk_of(#[trigger] chunks@[i], bytes@, all[i].0, all[i].1),
            decreases len - current,
        {
            let (content, end) = self.extract_chunk(text, current);
            let ghost done = all.take(chunks@.len() as int);
            let ghost here = spans_from(
                bytes@,
                current as int,
                self.chunk_size as int,
                self.chunk_overlap as int,
                seps,
            );
            let length: usize = end - current;
            let advance: usize = if length > self.chunk_overlap {
                length - self.chunk_overlap
            } else {
                length
            };
            let step: usize = if advance >= 1 {
                advance
            } else {
                1
            };
            let next: usize = find_next_char_boundary(text, current + step);
            let ghost rest = spans_from(
                bytes@,
                next as int,
                self.chunk_size as int,
                self.chunk_overlap as int,
                seps,
            );
            if !is_blank(bytes, current, end) {
                let before: usize = count_line_feeds(bytes, 0, current);
                let within: usize = count_line_feeds(bytes, current, end);
                proof {
                    assert(bytes@.subrange(0, current as int).len() == current);
                    lemma_line_feeds_same(bytes@.subrange(0, current as int), bytes@, current as int);
                    lemma_line_feeds_split(bytes@, current as int, end as int);
                    lemma_line_feeds_bound(bytes@, end as int);
                    assert(here == seq![(current as int, end as int)] + rest);
                    assert(all =~= done.push((current as int, end as int)) + rest);
                    assert(all[chunks@.len() as int] == (current as int, end as int));
                    assert(all.take(chunks@.len() as int + 1) =~= done.push((current as int, end as int)));
                }
                let start_line: usize = before + 1;
                chunks.push(
                    Chunk {
                        content,
                        start_offset: current,
                        end_offset: end,
                        start_line,
                        end_line: start_line + within,
                    },
                );
            } else {
                proof {
                    assert(here == rest);
                }
            }
            current = next;
        }
        proof {
            assert(spans_from(bytes@, current as int, self.chunk_size as int, self.chunk_overlap as int, seps)
                =~= Seq::<(int, int)>::empty());
            assert(all =~= all.take(chunks@.len() as int));
        }
        chunks
    }

    /// Start and end of the chunks into which the chunker splits `bytes`.
    pub open spec fn spans(&self, bytes: Seq<u8>) -> Seq<(int, int)> {
        spans_from(
            bytes,
            0,
            self.spec_chunk_size() as int,
            self.spec_chunk_overlap() as int,
            needles(self.spec_separators()),
        )
    }
}

impl Default for SemanticChunker {
    /// Chunks of 512 bytes that overlap by 64, with the default separators.
    fn default() -> (chunker: Self)
        ensures
            chunker.spec_chunk_size() == 512,
            chunker.spec_chunk_overlap() == 64,
            texts(chunker.spec_separators()) == default_separator_texts(),
    {
        SemanticChunker { chunk_size: 512, chunk_overlap: 64, separators: Self::default_separators() }
    }
}

} // verus!
