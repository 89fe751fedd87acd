//! The title row: the title, and behind it the page index where that is asked
//! for and fits.

use crate::buffer::{stored_bytes, ROW_WIDTH};
use crate::sink::{
    decimal, lemma_ascii_bytes, lemma_fresh_sink_keeps_row, lemma_offer_twice, row_slice,
    PromptWrite, SinkModel,
};
use arrayvec::ArrayString;
use vstd::prelude::*;
use vstd::string::StringSliceAdditionalSpecFns;
use vstd::utf8::*;

verus! {

/// The width that is set aside for the page index: 4 bytes for the space, the
/// brackets and the stroke, and 2, 4 or 6 for the two numbers, by the number
/// of digits of the page count.
pub open spec fn suffix_width(page_count: nat) -> nat {
    if page_count < 10 {
        6
    } else if page_count < 100 {
        8
    } else {
        10
    }
}

/// The page index as it is written behind a title: a space, and in brackets
/// the page counted from 1, a stroke and the page count.
pub open spec fn page_suffix(page: nat, page_count: nat) -> Seq<u8> {
    seq![32u8, 40u8] + decimal(page + 1) + seq![47u8] + decimal(page_count) + seq![41u8]
}

/// Whether the page index is written: it is asked for, there is more than one
/// page, and the title leaves the width that is set aside for it.
pub open spec fn shows_index(title_length: nat, page_count: nat, show_index: bool) -> bool {
    show_index && page_count > 1 && title_length + suffix_width(page_count) <= ROW_WIDTH
}

/// The length of the longest run of whole characters at the start of `text`
/// that has at most `limit` bytes.
pub open spec fn whole_prefix_len(text: Seq<u8>, limit: nat) -> nat
    decreases limit,
{
    if limit >= text.len() {
        text.len()
    } else if limit == 0 || is_char_boundary(text, limit as int) {
        limit
    } else {
        whole_prefix_len(text, (limit - 1) as nat)
    }
}

/// The text of the title row: the title with the page index, cut to the
/// row's width, where the index is written; else the whole characters of the
/// title that the row has room for.
pub open spec fn title_text(title: Seq<u8>, page: nat, page_count: nat, show_index: bool) -> Seq<
    u8,
> {
    if shows_index(title.len(), page_count, show_index) {
        row_slice(title + page_suffix(page, page_count), 0, ROW_WIDTH as nat)
    } else {
        title.subrange(0, whole_prefix_len(title, ROW_WIDTH as nat) as int)
    }
}

/// The title row never holds more than the row's width, and holds a title
/// that fits the row and gets no page index as it is.
pub proof fn lemma_title_fits_row(title: Seq<u8>, page: nat, page_count: nat, show_index: bool)
    ensures
        title_text(title, page, page_count, show_index).len() <= ROW_WIDTH,
        title.len() <= ROW_WIDTH && !shows_index(title.len(), page_count, show_index)
            ==> title_text(title, page, page_count, show_index) == title,
{
    lemma_whole_prefix_bounded(title, ROW_WIDTH as nat);
    if title.len() <= ROW_WIDTH && !shows_index(title.len(), page_count, show_index) {
        assert(title.subrange(0, title.len() as int) =~= title);
    }
}

/// The whole characters that fit a limit have no more bytes than the limit
/// or the text.
proof fn lemma_whole_prefix_bounded(text: Seq<u8>, limit: nat)
    ensures
        whole_prefix_len(text, limit) <= limit,
        whole_prefix_len(text, limit) <= text.len(),
    decreases limit,
{
    if limit < text.len() && limit != 0 && !is_char_boundary(text, limit as int) {
        lemma_whole_prefix_bounded(text, (limit - 1) as nat);
    }
}

/// A sink takes ASCII text wherever it is cut, as long as its count stays a
/// `usize`.
pub proof fn lemma_sink_takes_ascii(sink: SinkModel, chars: Seq<char>, capacity: nat)
    requires
        is_ascii_chars(chars),
        sink.total + chars.len() <= usize::MAX,
    ensures
        sink.takes(encode_utf8(chars), capacity),
{
    let text = encode_utf8(chars);
    encode_utf8_valid_utf8(chars);
    is_ascii_chars_encode_utf8(chars);
    is_char_boundary_start_end_of_seq(text);
    let start = sink.cut_start(text);
    let end = sink.cut_end(text, capacity);
    if start < text.len() {
        is_char_boundary_iff_not_is_continuation_byte(text, start);
        assert(text[start] == chars[start] as u8);
    }
    if end < text.len() {
        is_char_boundary_iff_not_is_continuation_byte(text, end);
        assert(text[end] == chars[end] as u8);
    }
}

/// The number of bytes of the longest run of whole characters at the start of
/// `text` that fits in a row.
fn whole_prefix(text: &str) -> (keep: usize)
    ensures
        keep == whole_prefix_len(text.spec_bytes(), ROW_WIDTH as nat),
        keep <= ROW_WIDTH,
        keep <= text.spec_bytes().len(),
        is_char_boundary(text.spec_bytes(), keep as int),
{
    let length = text.as_bytes().len();
    proof {
        encode_utf8_valid_utf8(text@);
        is_char_boundary_start_end_of_seq(text.spec_bytes());
    }
    if length <= ROW_WIDTH {
        return length;
    }
    let mut keep: usize = ROW_WIDTH;
    while keep > 0 && !text.is_char_boundary(keep)
        invariant
            keep <= ROW_WIDTH < length,
            length == text.spec_bytes().len(),
            valid_utf8(text.spec_bytes()),
            whole_prefix_len(text.spec_bytes(), ROW_WIDTH as nat) == whole_prefix_len(
                text.spec_bytes(),
                keep as nat,
            ),
        decreases keep,
    {
        keep = keep - 1;
    }
    keep
}

/// Offering the parts of a page index one by one is offering the index.
proof fn lemma_offer_suffix(sink: SinkModel, page: nat, page_count: nat, capacity: nat)
    ensures
        sink.offer(seq![32u8, 40u8], capacity).offer(decimal(page + 1), capacity).offer(
            seq![47u8],
            capacity,
        ).offer(decimal(page_count), capacity).offer(seq![41u8], capacity) == sink.offer(
            page_suffix(page, page_count),
            capacity,
        ),
{
    let a = seq![32u8, 40u8];
    let b = a + decimal(page + 1);
    let c = b + seq![47u8];
    let d = c + decimal(page_count);
    lemma_offer_twice(sink, a, decimal(page + 1), capacity);
    lemma_offer_twice(sink, b, seq![47u8], capacity);
    lemma_offer_twice(sink, c, decimal(page_count), capacity);
    lemma_offer_twice(sink, d, seq![41u8], capacity);
    assert(d + seq![41u8] =~= page_suffix(page, page_count));
}

/// Offers one piece of ASCII punctuation to a sink whose count is far from
/// its limit.
fn write_mark(sink: &mut PromptWrite, mark: &str)
    requires
        is_ascii_chars(mark@),
        old(sink)@.total + mark@.len() <= usize::MAX,
    ensures
        final(sink)@ == old(sink)@.offer(mark.spec_bytes(), ROW_WIDTH as nat),
{
    proof {
        lemma_sink_takes_ascii(sink@, mark@, ROW_WIDTH as nat);
    }
    let _ = sink.write_str(mark);
}

/// Offers a number in decimal to a sink whose count is far from its limit.
fn write_number(sink: &mut PromptWrite, n: usize)
    requires
        old(sink)@.total <= 64,
    ensures
        final(sink)@ == old(sink)@.offer(decimal(n as nat), ROW_WIDTH as nat),
        final(sink)@.total <= old(sink)@.total + 21,
{
    proof {
        lemma_decimal_width(n as nat);
    }
    let _ = sink.write_decimal(n);
}

/// Offers the page index to a sink that holds a title.
fn write_index(sink: &mut PromptWrite, page: usize, page_count: usize)
    requires
        page < page_count,
        old(sink)@.total <= ROW_WIDTH,
    ensures
        final(sink)@ == old(sink)@.offer(
            page_suffix(page as nat, page_count as nat),
            ROW_WIDTH as nat,
        ),
{
    let ghost before = sink@;
    let open = " (";
    let stroke = "/";
    let close = ")";
    proof {
        reveal_strlit(" (");
        reveal_strlit("/");
        reveal_strlit(")");
        lemma_ascii_bytes(open@);
        lemma_ascii_bytes(stroke@);
        lemma_ascii_bytes(close@);
        assert(open.spec_bytes() =~= seq![32u8, 40u8]);
        assert(stroke.spec_bytes() =~= seq![47u8]);
        assert(close.spec_bytes() =~= seq![41u8]);
    }
    write_mark(sink, open);
    write_number(sink, page + 1);
    write_mark(sink, stroke);
    write_number(sink, page_count);
    write_mark(sink, close);
    proof {
        lemma_offer_suffix(before, page as nat, page_count as nat, ROW_WIDTH as nat);
    }
}

/// Writes the title row for a page of a prompt.
pub fn format_title(title: &str, page: usize, page_count: usize, show_index: bool) -> (buffer:
    ArrayString<16>)
    requires
        page < page_count,
    ensures
        stored_bytes(buffer) == title_text(
            title.spec_bytes(),
            page as nat,
            page_count as nat,
            show_index,
        ),
{
    let ghost text = title.spec_bytes();
    let length = title.as_bytes().len();
    let needed: usize = if page_count < 10 {
        6
    } else if page_count < 100 {
        8
    } else {
        10
    };
    let with_index = show_index && page_count > 1 && length <= ROW_WIDTH - needed;
    let keep = if with_index { length } else { whole_prefix(title) };
    proof {
        encode_utf8_valid_utf8(title@);
        is_char_boundary_start_end_of_seq(text);
    }
    let (head, _) = title.split_at(keep);
    let mut sink = PromptWrite::starting_at(0);
    proof {
        valid_utf8_split(text, keep as int);
        is_char_boundary_start_end_of_seq(head.spec_bytes());
    }
    let _ = sink.write_str(head);
    assert(sink@.written =~= text.subrange(0, keep as int));
    if with_index {
        assert(head.spec_bytes() =~= text);
        write_index(&mut sink, page, page_count);
        proof {
            lemma_offer_twice(
                SinkModel::fresh(0),
                text,
                page_suffix(page as nat, page_count as nat),
                ROW_WIDTH as nat,
            );
            lemma_fresh_sink_keeps_row(
                text + page_suffix(page as nat, page_count as nat),
                0,
                ROW_WIDTH as nat,
            );
        }
    }
    sink.into_buffer()
}

/// A number that fits a `usize` has at most 20 decimal digits.
proof fn lemma_decimal_width(n: nat)
    requires
        n <= usize::MAX + 1,
    ensures
        1 <= decimal(n).len() <= 21,
{
    reveal_with_fuel(decimal, 22);
}

} // verus!
