//! The bounded text sink: it counts every byte it is offered, passes over the
//! first `skip` of them, and keeps the next ones as far as its row has room.

use crate::buffer::{
    buffer_as_str, buffer_new, buffer_remaining, buffer_try_push_str, fmt_error, stored_bytes,
    ROW_WIDTH,
};
use arrayvec::ArrayString;
use vstd::prelude::*;
use vstd::string::StringSliceAdditionalSpecFns;
use vstd::utf8::*;

verus! {

/// What a sink is, as plain values.
pub struct SinkModel {
    /// Bytes still to pass over before any is kept.
    pub skip: nat,
    /// The bytes kept so far.
    pub written: Seq<u8>,
    /// The number of bytes offered so far, kept or not.
    pub total: nat,
}

impl SinkModel {
    /// A sink that has been offered nothing and will pass over `skip` bytes.
    pub open spec fn fresh(skip: nat) -> SinkModel {
        SinkModel { skip, written: Seq::empty(), total: 0 }
    }

    /// The index in `text` of the first byte that is kept, if any is.
    pub open spec fn cut_start(self, text: Seq<u8>) -> int {
        if self.skip < text.len() {
            self.skip as int
        } else {
            text.len() as int
        }
    }

    /// The number of bytes that the sink can still keep.
    pub open spec fn room(self, capacity: nat) -> nat {
        if self.written.len() < capacity {
            (capacity - self.written.len()) as nat
        } else {
            0
        }
    }

    /// The index in `text` behind the last byte that is kept.
    pub open spec fn cut_end(self, text: Seq<u8>, capacity: nat) -> int {
        let start = self.cut_start(text);
        let room = self.room(capacity);
        if room < text.len() - start {
            start + room
        } else {
            text.len() as int
        }
    }

    /// The sink after it has been offered `text`.
    pub open spec fn offer(self, text: Seq<u8>, capacity: nat) -> SinkModel {
        SinkModel {
            skip: (self.skip - self.cut_start(text)) as nat,
            written: self.written + text.subrange(
                self.cut_start(text),
                self.cut_end(text, capacity),
            ),
            total: self.total + text.len(),
        }
    }

    /// Whether the sink can take `text`: the count stays a `usize`, and the
    /// part to keep begins and ends between two characters.
    pub open spec fn takes(self, text: Seq<u8>, capacity: nat) -> bool {
        &&& self.total + text.len() <= usize::MAX
        &&& is_char_boundary(text, self.cut_start(text))
        &&& is_char_boundary(text, self.cut_end(text, capacity))
    }

    /// The sink after it has been offered each of `pieces` in turn.
    pub open spec fn offer_all(self, pieces: Seq<Seq<u8>>, capacity: nat) -> SinkModel
        decreases pieces.len(),
    {
        if pieces.len() == 0 {
            self
        } else {
            self.offer_all(pieces.drop_last(), capacity).offer(pieces.last(), capacity)
        }
    }
}

/// A sink for prompt text: the row buffer it fills, the number of bytes still to
/// pass over, and the count of all bytes offered.
#[derive(Debug)]
pub struct PromptWrite {
    offset: usize,
    buffer: ArrayString<16>,
    total: usize,
}

impl View for PromptWrite {
    type V = SinkModel;

    closed spec fn view(&self) -> SinkModel {
        SinkModel {
            skip: self.offset as nat,
            written: stored_bytes(self.buffer),
            total: self.total as nat,
        }
    }
}

/// A sink over `buffer` that passes over nothing and appends to what the
/// buffer holds.
pub fn mk_prompt_write(buffer: ArrayString<16>) -> (sink: PromptWrite)
    ensures
        sink@ == (SinkModel { skip: 0, written: stored_bytes(buffer), total: 0 }),
        sink.buffer_spec() == buffer,
{
    PromptWrite { offset: 0, buffer, total: 0 }
}

/// Between two characters of a text, a place is a character boundary of the
/// text exactly if it is one of the text's tail.
proof fn lemma_boundary_in_tail(text: Seq<u8>, start: int, end: int)
    requires
        valid_utf8(text),
        is_char_boundary(text, start),
        0 <= start <= end <= text.len(),
    ensures
        valid_utf8(text.subrange(start, text.len() as int)),
        is_char_boundary(text.subrange(start, text.len() as int), end - start)
            <==> is_char_boundary(text, end),
{
    let tail = text.subrange(start, text.len() as int);
    valid_utf8_split(text, start);
    if end < text.len() {
        is_char_boundary_iff_not_is_continuation_byte(text, end);
        is_char_boundary_iff_not_is_continuation_byte(tail, end - start);
    } else {
        is_char_boundary_start_end_of_seq(text);
        is_char_boundary_start_end_of_seq(tail);
    }
}

impl PromptWrite {
    /// The buffer that the sink fills.
    pub closed spec fn buffer_spec(&self) -> ArrayString<16> {
        self.buffer
    }

    /// Offers `s` to the sink. All of it is counted; the bytes behind the skip
    /// offset are kept as far as the row has room, and the rest is dropped.
    ///
    /// Fails, and leaves the sink as it was, where the count would pass
    /// `usize::MAX` or where the part to keep would begin or end inside a
    /// character.
    pub fn write_str(&mut self, s: &str) -> (r: Result<(), core::fmt::Error>)
        ensures
            r is Ok <==> old(self)@.takes(s.spec_bytes(), ROW_WIDTH as nat),
            r is Ok ==> final(self)@ == old(self)@.offer(s.spec_bytes(), ROW_WIDTH as nat),
            r is Err ==> *final(self) == *old(self),
            final(self)@.written.len() <= ROW_WIDTH,
    {
        let ghost text = s.spec_bytes();
        let len = s.as_bytes().len();
        let room = buffer_remaining(&self.buffer);
        if len > usize::MAX - self.total {
            return Err(fmt_error());
        }
        let start = if self.offset < len { self.offset } else { len };
        let end = if room < len - start { start + room } else { len };
        if !s.is_char_boundary(start) || !s.is_char_boundary(end) {
            return Err(fmt_error());
        }
        proof {
            encode_utf8_valid_utf8(s@);
            lemma_boundary_in_tail(text, start as int, end as int);
        }
        let (_, tail) = s.split_at(start);
        let (piece, _) = tail.split_at(end - start);
        assert(piece.spec_bytes() =~= text.subrange(start as int, end as int));
        let pushed = buffer_try_push_str(&mut self.buffer, piece);
        assert(pushed);
        self.offset = self.offset - start;
        self.total = self.total + len;
        Ok(())
    }

    /// Offers the decimal digits of `n` to the sink, as `write_str` would
    /// their text.
    ///
    /// Fails, and leaves the sink as it was, where the count would pass
    /// `usize::MAX`.
    pub fn write_decimal(&mut self, n: usize) -> (r: Result<(), core::fmt::Error>)
        ensures
            r is Ok <==> old(self)@.total + decimal(n as nat).len() <= usize::MAX,
            r is Ok ==> final(self)@ == old(self)@.offer(decimal(n as nat), ROW_WIDTH as nat),
            r is Err ==> *final(self) == *old(self),
    {
        let width = decimal_width(n);
        if width > usize::MAX - self.total {
            return Err(fmt_error());
        }
        self.write_digits(n);
        Ok(())
    }

    /// Offers the digits of `n` one by one, the most significant first.
    fn write_digits(&mut self, n: usize)
        requires
            old(self)@.total + decimal(n as nat).len() <= usize::MAX,
        ensures
            final(self)@ == old(self)@.offer(decimal(n as nat), ROW_WIDTH as nat),
        decreases n,
    {
        let ghost before = self@;
        if n >= 10 {
            self.write_digits(n / 10);
        }
        let ghost digit = seq![(48 + n % 10) as u8];
        let text = digit_str(n % 10);
        proof {
            encode_utf8_valid_utf8(text@);
            is_char_boundary_start_end_of_seq(text.spec_bytes());
        }
        let _ = self.write_str(text);
        proof {
            if n >= 10 {
                lemma_offer_twice(before, decimal(n as nat / 10), digit, ROW_WIDTH as nat);
                assert(decimal(n as nat / 10) + digit =~= decimal(n as nat));
            } else {
                assert(digit =~= decimal(n as nat));
            }
        }
    }

    /// The number of bytes offered so far, kept or not.
    pub fn total(&self) -> (total: usize)
        ensures
            total == self@.total,
    {
        self.total
    }

    /// The number of bytes still to pass over.
    pub fn offset(&self) -> (offset: usize)
        ensures
            offset == self@.skip,
    {
        self.offset
    }

    /// The text kept so far.
    pub fn as_str(&self) -> (text: &str)
        ensures
            text.spec_bytes() == self@.written,
    {
        buffer_as_str(&self.buffer)
    }

    /// Gives up the sink for the buffer that it filled.
    pub fn into_buffer(self) -> (buffer: ArrayString<16>)
        ensures
            stored_bytes(buffer) == self@.written,
            buffer == self.buffer_spec(),
    {
        self.buffer
    }

    /// A sink over an empty buffer that passes over the first `offset` bytes.
    pub fn starting_at(offset: usize) -> (sink: PromptWrite)
        ensures
            sink@ == SinkModel::fresh(offset as nat),
    {
        PromptWrite { offset, buffer: buffer_new(), total: 0 }
    }
}

/// The decimal digits of `n` in ASCII, the most significant first.
pub open spec fn decimal(n: nat) -> Seq<u8>
    decreases n,
{
    if n < 10 {
        seq![(48 + n) as u8]
    } else {
        decimal(n / 10).push((48 + n % 10) as u8)
    }
}

/// The number of decimal digits of `n`.
pub fn decimal_width(n: usize) -> (width: usize)
    ensures
        width == decimal(n as nat).len(),
        width >= 1,
{
    let mut width: usize = 1;
    let mut rest: usize = n;
    while rest >= 10
        invariant
            rest <= n,
            1 <= width <= n - rest + 1,
            decimal(n as nat).len() == decimal(rest as nat).len() + width - 1,
        decreases rest,
    {
        rest = rest / 10;
        width = width + 1;
    }
    width
}

/// The one-character text of a decimal digit.
fn digit_str(digit: usize) -> (s: &'static str)
    requires
        digit < 10,
    ensures
        s.spec_bytes() == seq![(48 + digit) as u8],
{
    let s = match digit {
        0 => "0",
        1 => "1",
        2 => "2",
        3 => "3",
        4 => "4",
        5 => "5",
        6 => "6",
        7 => "7",
        8 => "8",
        _ => "9",
    };
    proof {
        reveal_strlit("0");
        reveal_strlit("1");
        reveal_strlit("2");
        reveal_strlit("3");
        reveal_strlit("4");
        reveal_strlit("5");
        reveal_strlit("6");
        reveal_strlit("7");
        reveal_strlit("8");
        reveal_strlit("9");
        lemma_ascii_bytes(s@);
        assert(s.spec_bytes() =~= seq![(48 + digit) as u8]);
    }
    s
}

/// The UTF-8 of ASCII text is the text, byte for character.
pub proof fn lemma_ascii_bytes(chars: Seq<char>)
    requires
        is_ascii_chars(chars),
    ensures
        encode_utf8(chars) == Seq::new(chars.len(), |i: int| chars[i] as u8),
{
    is_ascii_chars_encode_utf8(chars);
    assert(encode_utf8(chars) =~= Seq::new(chars.len(), |i: int| chars[i] as u8));
}

impl core::fmt::Write for PromptWrite {
    /// As the sink's own `write_str`.
    fn write_str(&mut self, s: &str) -> (r: Result<(), core::fmt::Error>)
        ensures
            r is Ok <==> old(self)@.takes(s.spec_bytes(), ROW_WIDTH as nat),
            r is Ok ==> final(self)@ == old(self)@.offer(s.spec_bytes(), ROW_WIDTH as nat),
            r is Err ==> *final(self) == *old(self),
    {
        PromptWrite::write_str(self, s)
    }
}

/// The pieces of a text, joined in order.
pub open spec fn joined(pieces: Seq<Seq<u8>>) -> Seq<u8>
    decreases pieces.len(),
{
    if pieces.len() == 0 {
        Seq::empty()
    } else {
        joined(pieces.drop_last()) + pieces.last()
    }
}

/// The part of `content` that a row of `capacity` bytes shows when it begins
/// at `offset`.
pub open spec fn row_slice(content: Seq<u8>, offset: nat, capacity: nat) -> Seq<u8> {
    let start = if offset < content.len() { offset as int } else { content.len() as int };
    let end = if offset + capacity < content.len() {
        (offset + capacity) as int
    } else {
        content.len() as int
    };
    content.subrange(start, end)
}

/// Offering a text in two parts leaves the sink as offering it whole does.
pub proof fn lemma_offer_twice(sink: SinkModel, first: Seq<u8>, second: Seq<u8>, capacity: nat)
    ensures
        sink.offer(first, capacity).offer(second, capacity) == sink.offer(
            first + second,
            capacity,
        ),
{
    let whole = first + second;
    let mid = sink.offer(first, capacity);
    let a = mid.offer(second, capacity);
    let b = sink.offer(whole, capacity);
    assert(a.written =~= b.written);
}

/// A sink never keeps more than its capacity.
pub proof fn lemma_offer_bounded(sink: SinkModel, text: Seq<u8>, capacity: nat)
    requires
        sink.written.len() <= capacity,
    ensures
        sink.offer(text, capacity).written.len() <= capacity,
{
}

/// A sink counts all it is offered, whatever its skip offset and capacity and
/// whatever it keeps: two sinks that are offered the same text count the
/// same.
pub proof fn lemma_offer_counts_all(
    sink: SinkModel,
    other: SinkModel,
    text: Seq<u8>,
    capacity: nat,
    other_capacity: nat,
)
    requires
        sink.total == other.total,
    ensures
        sink.offer(text, capacity).total == sink.total + text.len(),
        sink.offer(text, capacity).total == other.offer(text, other_capacity).total,
{
}

/// However a text is cut into pieces, a sink that is offered the pieces in
/// order ends as if it had been offered the text at once.
pub proof fn lemma_offer_all(sink: SinkModel, pieces: Seq<Seq<u8>>, capacity: nat)
    ensures
        sink.offer_all(pieces, capacity) == sink.offer(joined(pieces), capacity),
    decreases pieces.len(),
{
    if pieces.len() == 0 {
        assert(sink.offer(Seq::<u8>::empty(), capacity).written =~= sink.written);
    } else {
        lemma_offer_all(sink, pieces.drop_last(), capacity);
        lemma_offer_twice(sink, joined(pieces.drop_last()), pieces.last(), capacity);
    }
}

/// A fresh sink that is offered a whole text keeps the row of it that begins
/// at its skip offset, and counts all of it, whatever the offset and the
/// capacity.
pub proof fn lemma_fresh_sink_keeps_row(content: Seq<u8>, skip: nat, capacity: nat)
    ensures
        SinkModel::fresh(skip).offer(content, capacity).written == row_slice(
            content,
            skip,
            capacity,
        ),
        SinkModel::fresh(skip).offer(content, capacity).total == content.len(),
{
    let sink = SinkModel::fresh(skip);
    assert(sink.offer(content, capacity).written =~= row_slice(content, skip, capacity));
}

} // verus!
