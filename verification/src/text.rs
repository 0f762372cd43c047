//! Measuring and cutting text: display width, grapheme clusters, splitting.

use vstd::prelude::*;
use vstd::utf8::*;
use unicode_segmentation::UnicodeSegmentation;
use unicode_width::UnicodeWidthStr;

verus! {

/// The number of terminal columns a text occupies, as `unicode-width` counts
/// them.
pub uninterp spec fn display_width(text: Seq<char>) -> nat;

/// The byte offsets at which the extended grapheme clusters of a text begin,
/// in order, as `unicode-segmentation` finds them.
pub uninterp spec fn grapheme_starts(text: Seq<char>) -> Seq<int>;

/// The length of a text in bytes.
pub open spec fn byte_len(text: Seq<char>) -> nat {
    encode_utf8(text).len()
}

/// Whether a byte offset begins a grapheme cluster of the text or is its end.
pub open spec fn is_grapheme_boundary(text: Seq<char>, offset: int) -> bool {
    offset == byte_len(text) || grapheme_starts(text).contains(offset)
}

/// The byte offset before which `count` whole grapheme clusters lie: the start
/// of the cluster after them, or the end of a text that has no more.
pub open spec fn split_offset(text: Seq<char>, count: nat) -> int {
    if count < grapheme_starts(text).len() {
        grapheme_starts(text)[count as int]
    } else {
        byte_len(text) as int
    }
}

/// What the cluster that `count` clusters precede is known to start at: a
/// character boundary inside the text, with at least a byte for each of the
/// clusters before it, and the very beginning for the first.
pub open spec fn cluster_start(text: Seq<char>, count: nat, offset: int) -> bool {
    &&& count < grapheme_starts(text).len()
    &&& offset == grapheme_starts(text)[count as int]
    &&& count <= offset < byte_len(text)
    &&& is_char_boundary(encode_utf8(text), offset)
    &&& count == 0 ==> offset == 0
}

/// The byte offset at which a text is cut to keep `count` grapheme clusters
/// in front: the start of the cluster after them, which lies on a character
/// boundary behind the first byte; the end of the text where there is none.
pub open spec fn cut_offset(text: Seq<char>, count: nat) -> int {
    let offset = split_offset(text, count);
    if 0 < offset <= byte_len(text) && is_char_boundary(encode_utf8(text), offset) {
        offset
    } else {
        byte_len(text) as int
    }
}

/// The text before a byte offset.
pub open spec fn text_before(text: Seq<char>, offset: int) -> Seq<char> {
    decode_utf8(encode_utf8(text).subrange(0, offset))
}

/// The text from a byte offset on.
pub open spec fn text_from(text: Seq<char>, offset: int) -> Seq<char> {
    decode_utf8(encode_utf8(text).subrange(offset, byte_len(text) as int))
}

/// `String::push` appends one character.
pub assume_specification[ String::push ](s: &mut String, ch: char)
    ensures
        final(s)@ == old(s)@.push(ch),
;

/// `UnicodeWidthStr::width` of `unicode-width`: the display width of the
/// text, which is zero for the empty text.
#[verifier::external_body]
pub(crate) fn str_width(text: &str) -> (width: usize)
    ensures
        width == display_width(text@),
        text@.len() == 0 ==> width == 0,
{
    UnicodeWidthStr::width(text)
}

/// `UnicodeSegmentation::grapheme_indices` of `unicode-segmentation`, advanced
/// to the cluster that `count` clusters precede: the byte offset at which that
/// cluster starts, if the text has that many. Clusters are non-empty slices of
/// the text that follow one another from offset zero.
#[verifier::external_body]
pub(crate) fn nth_grapheme_start(text: &str, count: usize) -> (start: Option<usize>)
    ensures
        match start {
            Some(offset) => cluster_start(text@, count as nat, offset as int),
            None => count >= grapheme_starts(text@).len(),
        },
{
    UnicodeSegmentation::grapheme_indices(text, true).nth(count).map(|cluster| cluster.0)
}

/// The byte offset at which to cut a text so that `pos` whole grapheme
/// clusters stay in front: never inside a cluster, and the whole text where
/// it has no more clusters than that.
pub fn findsplit(s: &str, pos: usize) -> (offset: usize)
    ensures
        offset == split_offset(s@, pos as nat),
        is_grapheme_boundary(s@, offset as int),
        is_char_boundary(encode_utf8(s@), offset as int),
        offset <= byte_len(s@),
        offset < byte_len(s@) <==> pos < grapheme_starts(s@).len(),
        offset < byte_len(s@) ==> pos <= offset,
        pos > 0 && s@.len() > 0 ==> offset > 0 && offset == cut_offset(s@, pos as nat),
{
    broadcast use {encode_utf8_valid_utf8, is_char_boundary_start_end_of_seq};

    match nth_grapheme_start(s, pos) {
        Some(n) => n,
        None => {
            let len = s.as_bytes().len();
            assert(valid_utf8(encode_utf8(s@)));
            assert(is_char_boundary(encode_utf8(s@), len as int));
            assert(s@.len() > 0 ==> len > 0) by {
                lemma_bytes_of_nonempty(s@);
            }
            len
        },
    }
}

/// The display width of the text before a byte offset.
pub fn width_before(text: &str, offset: usize) -> (width: usize)
    requires
        is_char_boundary(encode_utf8(text@), offset as int),
    ensures
        width == display_width(text_before(text@, offset as int)),
{
    broadcast use encode_utf8_decode_utf8;

    let (front, _) = text.split_at(offset);
    assert(decode_utf8(encode_utf8(front@)) == front@);
    str_width(front)
}

/// Cuts a text in place at a byte offset: the text keeps what lies before the
/// offset and the rest is returned.
pub fn split_at_in_place(text: &mut String, mid: usize) -> (rest: String)
    requires
        is_char_boundary(encode_utf8(old(text)@), mid as int),
    ensures
        final(text)@ == text_before(old(text)@, mid as int),
        rest@ == text_from(old(text)@, mid as int),
        final(text)@ + rest@ == old(text)@,
        byte_len(final(text)@) == mid,
        byte_len(rest@) == byte_len(old(text)@) - mid,
{
    broadcast use {encode_utf8_valid_utf8, encode_utf8_decode_utf8, decode_utf8_split};

    proof {
        lemma_boundary_in_range(text@, mid as int);
    }
    let (front, back) = text.as_str().split_at(mid);
    let front = front.to_owned();
    let rest = back.to_owned();
    proof {
        let bytes = encode_utf8(text@);
        assert(valid_utf8(bytes));
        assert(decode_utf8(bytes) == text@);
        assert(decode_utf8(bytes) =~= decode_utf8(bytes.subrange(0, mid as int)) + decode_utf8(
            bytes.subrange(mid as int, bytes.len() as int),
        ));
        assert(decode_utf8(encode_utf8(front@)) == front@);
        assert(decode_utf8(encode_utf8(rest@)) == rest@);
    }
    *text = front;
    rest
}

/// A text with a character in it has a byte in it.
pub proof fn lemma_bytes_of_nonempty(text: Seq<char>)
    ensures
        text.len() > 0 ==> byte_len(text) > 0,
        text.len() == 0 ==> byte_len(text) == 0,
{
    broadcast use encode_utf8_decode_utf8;

    if text.len() > 0 && byte_len(text) == 0 {
        assert(decode_utf8(encode_utf8(text)) == text);
        assert(decode_utf8(encode_utf8(text)).len() == 0);
    }
}

/// A character boundary of a text lies within its bytes.
pub proof fn lemma_boundary_in_range(text: Seq<char>, offset: int)
    requires
        is_char_boundary(encode_utf8(text), offset),
    ensures
        0 <= offset <= byte_len(text),
{
    broadcast use encode_utf8_valid_utf8;

    lemma_boundary_bounds(encode_utf8(text), offset);
}

proof fn lemma_boundary_bounds(bytes: Seq<u8>, offset: int)
    requires
        valid_utf8(bytes),
        is_char_boundary(bytes, offset),
    ensures
        0 <= offset <= bytes.len(),
    decreases bytes.len(),
{
    if offset != 0 {
        assert(0 <= offset && offset <= bytes.len());
    }
}

/// A text that is not empty is cut behind its first byte or later, on a
/// character boundary and never inside a grapheme cluster; what is kept is
/// not empty, and what is kept and what is cut off make up the text.
pub proof fn lemma_cut_text(text: Seq<char>, count: nat)
    requires
        text.len() > 0,
    ensures
        0 < cut_offset(text, count) <= byte_len(text),
        is_char_boundary(encode_utf8(text), cut_offset(text, count)),
        is_grapheme_boundary(text, cut_offset(text, count)),
        text_before(text, cut_offset(text, count)) + text_from(text, cut_offset(text, count))
            == text,
        text_before(text, cut_offset(text, count)).len() > 0,
        byte_len(text_before(text, cut_offset(text, count))) == cut_offset(text, count),
        byte_len(text_from(text, cut_offset(text, count))) == byte_len(text) - cut_offset(
            text,
            count,
        ),
{
    broadcast use {
        encode_utf8_valid_utf8,
        encode_utf8_decode_utf8,
        decode_utf8_encode_utf8,
        decode_utf8_split,
        valid_utf8_split,
        is_char_boundary_start_end_of_seq,
    };

    let bytes = encode_utf8(text);
    let cut = cut_offset(text, count);
    lemma_bytes_of_nonempty(text);
    lemma_split_on_grapheme_boundary(text, count);
    assert(valid_utf8(bytes));
    assert(is_char_boundary(bytes, bytes.len() as int));
    assert(is_char_boundary(bytes, cut));
    assert(decode_utf8(bytes) == text);
    assert(decode_utf8(bytes) =~= decode_utf8(bytes.subrange(0, cut)) + decode_utf8(
        bytes.subrange(cut, bytes.len() as int),
    ));
    assert(valid_utf8(bytes.subrange(0, cut)));
    assert(valid_utf8(bytes.subrange(cut, bytes.len() as int)));
    assert(encode_utf8(decode_utf8(bytes.subrange(0, cut))) == bytes.subrange(0, cut));
    assert(encode_utf8(decode_utf8(bytes.subrange(cut, bytes.len() as int))) == bytes.subrange(
        cut,
        bytes.len() as int,
    ));
    lemma_bytes_of_nonempty(text_before(text, cut));
}

/// Cutting after whole grapheme clusters never cuts inside one.
pub proof fn lemma_split_on_grapheme_boundary(text: Seq<char>, count: nat)
    ensures
        is_grapheme_boundary(text, split_offset(text, count)),
{
    if count < grapheme_starts(text).len() {
        assert(grapheme_starts(text)[count as int] == split_offset(text, count));
    }
}

} // verus!
