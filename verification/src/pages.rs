//! Page arithmetic: how many pages a text fills, where each row of a page
//! begins in it, and that the rows of all pages together are the text.

use crate::sink::row_slice;
use vstd::arithmetic::div_mod::*;
use vstd::arithmetic::mul::*;
use vstd::prelude::*;

verus! {

/// The largest number of pages that a prompt may fill.
pub const MAX_PAGES: usize = 1000;

/// The length that is divided into pages: that of the text, or 1 for an empty
/// text, which still fills a page.
pub open spec fn paged_length(total_length: nat) -> nat {
    if total_length == 0 {
        1
    } else {
        total_length
    }
}

/// The number of pages that a text of `total_length` bytes fills: its paged
/// length divided by the bytes on a page, rounded up.
pub open spec fn spec_page_count(total_length: nat, row_capacity: nat, rows_per_page: nat) -> nat {
    let per_page = row_capacity * rows_per_page;
    ((paged_length(total_length) + per_page - 1) / (per_page as int)) as nat
}

/// The index in the text at which a row of a page begins.
pub open spec fn spec_row_offset(
    page: nat,
    row_index: nat,
    row_capacity: nat,
    rows_per_page: nat,
) -> nat {
    (page * rows_per_page + row_index) * row_capacity
}

/// Whether a row is drawn: the first row of a page always, a later one where
/// the text reaches beyond the place at which the row begins.
pub open spec fn spec_row_drawn(total_length: nat, row_index: nat, offset: nat) -> bool {
    row_index == 0 || total_length > offset
}

/// The page count is the least number of pages that hold the paged length.
pub proof fn lemma_page_count_is_ceiling(total_length: nat, row_capacity: nat, rows_per_page: nat)
    requires
        row_capacity * rows_per_page > 0,
    ensures
        spec_page_count(total_length, row_capacity, rows_per_page) >= 1,
        (spec_page_count(total_length, row_capacity, rows_per_page) - 1) * (row_capacity
            * rows_per_page) < paged_length(total_length),
        paged_length(total_length) <= spec_page_count(total_length, row_capacity, rows_per_page)
            * (row_capacity * rows_per_page),
        spec_page_count(total_length, row_capacity, rows_per_page) == (paged_length(total_length)
            - 1) / ((row_capacity * rows_per_page) as int) + 1,
{
    let d = (row_capacity * rows_per_page) as int;
    let x = paged_length(total_length) - 1;
    lemma_div_plus_one(x, d);
    lemma_fundamental_div_mod(x, d);
    lemma_div_pos_is_pos(x, d);
    lemma_mod_bound(x, d);
    let q = x / d;
    assert(spec_page_count(total_length, row_capacity, rows_per_page) == q + 1);
    assert((q + 1) * d == q * d + d) by (nonlinear_arith);
    assert(q * d == d * q) by (nonlinear_arith);
}

/// The number of pages that a text of `total_length` bytes fills.
pub fn page_count(total_length: usize, row_capacity: usize, rows_per_page: usize) -> (count: usize)
    requires
        0 < row_capacity * rows_per_page <= usize::MAX,
    ensures
        count == spec_page_count(total_length as nat, row_capacity as nat, rows_per_page as nat),
        count >= 1,
{
    proof {
        lemma_page_count_is_ceiling(total_length as nat, row_capacity as nat, rows_per_page as nat);
        lemma_div_pos_is_pos(
            paged_length(total_length as nat) - 1,
            (row_capacity * rows_per_page) as int,
        );
        lemma_div_is_ordered_by_denominator(
            paged_length(total_length as nat) - 1,
            1,
            (row_capacity * rows_per_page) as int,
        );
    }
    let length = if total_length == 0 { 1 } else { total_length };
    (length - 1) / (row_capacity * rows_per_page) + 1
}

/// The index in the text at which a row of a page begins.
pub fn row_offset(page: usize, row_index: usize, row_capacity: usize, rows_per_page: usize) -> (offset:
    usize)
    requires
        (page * rows_per_page + row_index) * row_capacity <= usize::MAX,
        row_capacity > 0,
    ensures
        offset == spec_row_offset(
            page as nat,
            row_index as nat,
            row_capacity as nat,
            rows_per_page as nat,
        ),
{
    proof {
        assert(page * rows_per_page + row_index <= (page * rows_per_page + row_index)
            * row_capacity) by (nonlinear_arith)
            requires
                row_capacity > 0,
                page * rows_per_page + row_index >= 0,
        ;
    }
    (page * rows_per_page + row_index) * row_capacity
}

/// Whether the row that begins at `offset` is drawn.
pub fn row_drawn(total_length: usize, row_index: usize, offset: usize) -> (drawn: bool)
    ensures
        drawn == spec_row_drawn(total_length as nat, row_index as nat, offset as nat),
{
    row_index == 0 || total_length > offset
}

/// The text of `rows` rows in a run, the first of them the row numbered
/// `first_row` from the start of the text.
pub open spec fn rows_joined(content: Seq<u8>, row_capacity: nat, first_row: nat, rows: nat) -> Seq<
    u8,
>
    decreases rows,
{
    if rows == 0 {
        Seq::empty()
    } else {
        rows_joined(content, row_capacity, first_row, (rows - 1) as nat) + row_slice(
            content,
            ((first_row + rows - 1) * row_capacity) as nat,
            row_capacity,
        )
    }
}

/// The text of one page: its rows in order.
pub open spec fn page_text(content: Seq<u8>, row_capacity: nat, rows_per_page: nat, page: nat) -> Seq<
    u8,
> {
    rows_joined(content, row_capacity, page * rows_per_page, rows_per_page)
}

/// The text of the first `pages` pages in order.
pub open spec fn pages_joined(
    content: Seq<u8>,
    row_capacity: nat,
    rows_per_page: nat,
    pages: nat,
) -> Seq<u8>
    decreases pages,
{
    if pages == 0 {
        Seq::empty()
    } else {
        pages_joined(content, row_capacity, rows_per_page, (pages - 1) as nat) + page_text(
            content,
            row_capacity,
            rows_per_page,
            (pages - 1) as nat,
        )
    }
}

/// The part of `content` from `from` to `to`, each held to the text's length.
pub open spec fn clipped(content: Seq<u8>, from: nat, to: nat) -> Seq<u8> {
    let start = if from < content.len() { from } else { content.len() };
    let end = if to < content.len() { to } else { content.len() };
    content.subrange(start as int, end as int)
}

/// A run of rows shows the text from where its first row begins to where its
/// last row ends.
pub proof fn lemma_rows_joined(content: Seq<u8>, row_capacity: nat, first_row: nat, rows: nat)
    ensures
        rows_joined(content, row_capacity, first_row, rows) == clipped(
            content,
            first_row * row_capacity,
            (first_row + rows) * row_capacity,
        ),
    decreases rows,
{
    if rows == 0 {
        assert(rows_joined(content, row_capacity, first_row, rows) =~= clipped(
            content,
            first_row * row_capacity,
            (first_row + rows) * row_capacity,
        ));
    } else {
        let before = (rows - 1) as nat;
        lemma_rows_joined(content, row_capacity, first_row, before);
        let from = first_row * row_capacity;
        let mid = (first_row + before) * row_capacity;
        let to = (first_row + rows) * row_capacity;
        assert(mid == ((first_row + rows - 1) * row_capacity) as nat);
        assert(to == mid + row_capacity) by (nonlinear_arith)
            requires
                to == (first_row + rows) * row_capacity,
                mid == (first_row + rows - 1) * row_capacity,
        ;
        assert(from <= mid) by (nonlinear_arith)
            requires
                from == first_row * row_capacity,
                mid == (first_row + before) * row_capacity,
        ;
        assert(clipped(content, from, mid) + row_slice(content, mid, row_capacity) =~= clipped(
            content,
            from,
            to,
        ));
    }
}

/// The first pages of a text show it from its start to where the last of them
/// ends.
pub proof fn lemma_pages_joined(
    content: Seq<u8>,
    row_capacity: nat,
    rows_per_page: nat,
    pages: nat,
)
    ensures
        pages_joined(content, row_capacity, rows_per_page, pages) == clipped(
            content,
            0,
            pages * (row_capacity * rows_per_page),
        ),
    decreases pages,
{
    if pages == 0 {
        assert(pages_joined(content, row_capacity, rows_per_page, pages) =~= clipped(
            content,
            0,
            pages * (row_capacity * rows_per_page),
        ));
    } else {
        let before = (pages - 1) as nat;
        lemma_pages_joined(content, row_capacity, rows_per_page, before);
        lemma_rows_joined(content, row_capacity, before * rows_per_page, rows_per_page);
        let mid = before * (row_capacity * rows_per_page);
        let to = pages * (row_capacity * rows_per_page);
        assert(mid == (before * rows_per_page) * row_capacity) by (nonlinear_arith)
            requires
                mid == before * (row_capacity * rows_per_page),
        ;
        assert(to == (before * rows_per_page + rows_per_page) * row_capacity) by (nonlinear_arith)
            requires
                to == pages * (row_capacity * rows_per_page),
                before == pages - 1,
        ;
        assert(mid <= to) by (nonlinear_arith)
            requires
                mid == before * (row_capacity * rows_per_page),
                to == pages * (row_capacity * rows_per_page),
                before <= pages,
        ;
        assert(clipped(content, 0, mid) + clipped(content, mid, to) =~= clipped(content, 0, to));
    }
}

/// The pages of a text, row after row and page after page, are the text: all
/// of it and no more.
pub proof fn lemma_pages_reproduce_content(content: Seq<u8>, row_capacity: nat, rows_per_page: nat)
    requires
        row_capacity * rows_per_page > 0,
    ensures
        pages_joined(
            content,
            row_capacity,
            rows_per_page,
            spec_page_count(content.len(), row_capacity, rows_per_page),
        ) == content,
{
    let pages = spec_page_count(content.len(), row_capacity, rows_per_page);
    lemma_page_count_is_ceiling(content.len(), row_capacity, rows_per_page);
    lemma_pages_joined(content, row_capacity, rows_per_page, pages);
    assert(clipped(content, 0, pages * (row_capacity * rows_per_page)) =~= content);
}

/// A row that is not drawn would have shown nothing.
pub proof fn lemma_undrawn_row_is_empty(
    content: Seq<u8>,
    row_index: nat,
    offset: nat,
    row_capacity: nat,
)
    requires
        !spec_row_drawn(content.len(), row_index, offset),
    ensures
        row_slice(content, offset, row_capacity) == Seq::<u8>::empty(),
{
    assert(row_slice(content, offset, row_capacity) =~= Seq::<u8>::empty());
}

/// An empty text fills one page, which shows nothing.
pub proof fn lemma_empty_content_one_page(row_capacity: nat, rows_per_page: nat)
    requires
        row_capacity * rows_per_page > 0,
    ensures
        spec_page_count(0, row_capacity, rows_per_page) == 1,
        page_text(Seq::<u8>::empty(), row_capacity, rows_per_page, 0) == Seq::<u8>::empty(),
{
    let d = (row_capacity * rows_per_page) as int;
    lemma_page_count_is_ceiling(0, row_capacity, rows_per_page);
    lemma_basic_div(0, d);
    lemma_rows_joined(Seq::<u8>::empty(), row_capacity, 0, rows_per_page);
    assert(0 * rows_per_page == 0) by (nonlinear_arith);
}

/// A text that fills its pages exactly has no empty page behind them.
pub proof fn lemma_full_pages_no_trailing_page(
    total_length: nat,
    row_capacity: nat,
    rows_per_page: nat,
)
    requires
        row_capacity * rows_per_page > 0,
        total_length > 0,
        total_length % (row_capacity * rows_per_page) == 0,
    ensures
        spec_page_count(total_length, row_capacity, rows_per_page) * (row_capacity
            * rows_per_page) == total_length,
{
    let d = (row_capacity * rows_per_page) as int;
    let n = spec_page_count(total_length, row_capacity, rows_per_page);
    lemma_page_count_is_ceiling(total_length, row_capacity, rows_per_page);
    lemma_fundamental_div_mod(total_length as int, d);
    let q = total_length as int / d;
    assert(n == q) by (nonlinear_arith)
        requires
            total_length == d * q,
            (n - 1) * d < total_length,
            total_length <= n * d,
            d > 0,
    ;
    assert(n * d == d * q) by (nonlinear_arith)
        requires
            n == q,
    ;
}

/// A text one byte longer than a page fills two pages, and the second shows
/// that one byte.
pub proof fn lemma_one_byte_over_a_page(content: Seq<u8>, row_capacity: nat, rows_per_page: nat)
    requires
        row_capacity * rows_per_page > 0,
        content.len() == row_capacity * rows_per_page + 1,
    ensures
        spec_page_count(content.len(), row_capacity, rows_per_page) == 2,
        page_text(content, row_capacity, rows_per_page, 1) == seq![content.last()],
{
    let d = (row_capacity * rows_per_page) as int;
    let n = spec_page_count(content.len(), row_capacity, rows_per_page);
    lemma_page_count_is_ceiling(content.len(), row_capacity, rows_per_page);
    assert(n == 2) by (nonlinear_arith)
        requires
            (n - 1) * d < d + 1,
            d + 1 <= n * d,
            d > 0,
            n >= 1,
    ;
    lemma_rows_joined(content, row_capacity, 1 * rows_per_page, rows_per_page);
    assert((1 * rows_per_page) * row_capacity == d) by (nonlinear_arith)
        requires
            d == row_capacity * rows_per_page,
    ;
    assert((1 * rows_per_page + rows_per_page) * row_capacity == 2 * d) by (nonlinear_arith)
        requires
            d == row_capacity * rows_per_page,
    ;
    assert(clipped(content, d as nat, (2 * d) as nat) =~= seq![content.last()]);
}

} // verus!
