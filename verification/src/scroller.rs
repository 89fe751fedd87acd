//! The scroller: a title and a producer of prompt text, measured and drawn
//! page by page.

use crate::buffer::{stored_bytes, ROW_WIDTH};
use crate::pages::{
    lemma_undrawn_row_is_empty, page_count, page_text, row_drawn, row_offset, rows_joined,
    spec_page_count, spec_row_drawn, spec_row_offset, MAX_PAGES,
};
use crate::sink::{row_slice, PromptWrite, SinkModel};
use crate::title::{format_title, title_text};
use arrayvec::ArrayString;
use vstd::prelude::*;
use vstd::std_specs::convert::FromSpecImpl;
use vstd::string::StringSliceAdditionalSpecFns;

verus! {

/// `core::str::Utf8Error`, the error of reading bytes that are not UTF-8.
#[verifier::external_type_specification]
#[verifier::external_body]
pub struct ExUtf8Error(core::str::Utf8Error);

/// A prompt could not be measured or drawn.
#[derive(Debug)]
pub struct ScrollerError;

impl From<core::fmt::Error> for ScrollerError {
    fn from(error: core::fmt::Error) -> (r: ScrollerError) {
        ScrollerError
    }
}

impl FromSpecImpl<core::fmt::Error> for ScrollerError {
    open spec fn obeys_from_spec() -> bool {
        true
    }

    open spec fn from_spec(error: core::fmt::Error) -> ScrollerError {
        ScrollerError
    }
}

impl From<core::str::Utf8Error> for ScrollerError {
    fn from(error: core::str::Utf8Error) -> (r: ScrollerError) {
        ScrollerError
    }
}

impl FromSpecImpl<core::str::Utf8Error> for ScrollerError {
    open spec fn obeys_from_spec() -> bool {
        true
    }

    open spec fn from_spec(error: core::str::Utf8Error) -> ScrollerError {
        ScrollerError
    }
}

/// Whether a prompt was accepted: it ran to its end, and the user went past
/// its last page. A prompt that could not be measured or drawn counts as
/// rejected.
pub fn accepted(outcome: Result<bool, ScrollerError>) -> (yes: bool)
    ensures
        yes == (outcome matches Ok(true)),
{
    match outcome {
        Ok(answer) => answer,
        Err(_) => false,
    }
}

/// How many rows of text a page has.
#[derive(Clone, Copy, Debug, PartialEq, Eq, Structural)]
pub enum Layout {
    /// One row below the title.
    OneRow,
    /// Up to three rows below the title.
    ThreeRows,
}

impl Layout {
    /// The number of rows of a page.
    pub open spec fn spec_rows(self) -> nat {
        match self {
            Layout::OneRow => 1,
            Layout::ThreeRows => 3,
        }
    }

    /// The number of rows of a page.
    pub fn rows(&self) -> (rows: usize)
        ensures
            rows == self.spec_rows(),
    {
        match self {
            Layout::OneRow => 1,
            Layout::ThreeRows => 3,
        }
    }
}

/// A measured prompt: its length and layout, of no more pages than
/// `MAX_PAGES`.
#[derive(Clone, Copy, Debug)]
pub struct PageSpec {
    layout: Layout,
    total_length: usize,
}

impl PageSpec {
    #[verifier::type_invariant]
    spec fn within_limit(self) -> bool {
        spec_page_count(self.total_length as nat, ROW_WIDTH as nat, self.layout.spec_rows())
            <= MAX_PAGES
    }

    /// The layout of the pages.
    pub closed spec fn spec_layout(self) -> Layout {
        self.layout
    }

    /// The length of the prompt's text.
    pub closed spec fn spec_total_length(self) -> nat {
        self.total_length as nat
    }

    /// The number of pages of the prompt.
    pub open spec fn spec_page_count(self) -> nat {
        spec_page_count(
            self.spec_total_length(),
            ROW_WIDTH as nat,
            self.spec_layout().spec_rows(),
        )
    }

    /// The index in the text at which a row of a page begins.
    pub open spec fn row_start(self, page: nat, row_index: nat) -> nat {
        spec_row_offset(page, row_index, ROW_WIDTH as nat, self.spec_layout().spec_rows())
    }

    /// Whether a page has the row numbered `row_index`, counted from 0, and
    /// draws it.
    pub open spec fn row_shown(self, page: nat, row_index: nat) -> bool {
        &&& row_index < self.spec_layout().spec_rows()
        &&& spec_row_drawn(self.spec_total_length(), row_index, self.row_start(page, row_index))
    }

    /// The layout of the pages.
    pub fn layout(&self) -> (layout: Layout)
        ensures
            layout == self.spec_layout(),
    {
        self.layout
    }

    /// The length of the prompt's text.
    pub fn total_length(&self) -> (length: usize)
        ensures
            length == self.spec_total_length(),
    {
        self.total_length
    }

    /// The number of pages of the prompt.
    pub fn page_count(&self) -> (count: usize)
        ensures
            count == self.spec_page_count(),
            1 <= count <= MAX_PAGES,
    {
        proof {
            use_type_invariant(self);
        }
        page_count(self.total_length, ROW_WIDTH, self.layout.rows())
    }
}

/// What dividing a text into pages gives.
#[derive(Clone, Copy, Debug)]
pub enum Pagination {
    /// The pages of the prompt.
    Pages(PageSpec),
    /// The text would fill this many pages, more than `MAX_PAGES`: its
    /// producer is at fault, and the prompt must not be shown.
    TooManyPages(usize),
}

/// Divides a text of `total_length` bytes into pages.
pub fn paginate(total_length: usize, layout: Layout) -> (r: Pagination)
    ensures
        paginated(r, total_length as nat, layout),
{
    let count = page_count(total_length, ROW_WIDTH, layout.rows());
    if count > MAX_PAGES {
        Pagination::TooManyPages(count)
    } else {
        Pagination::Pages(PageSpec { layout, total_length })
    }
}

/// Whether `pagination` is what dividing a text of `total_length` bytes into
/// pages gives.
pub open spec fn paginated(pagination: Pagination, total_length: nat, layout: Layout) -> bool {
    match pagination {
        Pagination::Pages(pages) => {
            &&& pages.spec_total_length() == total_length
            &&& pages.spec_layout() == layout
            &&& pages.spec_page_count() <= MAX_PAGES
        },
        Pagination::TooManyPages(count) => {
            &&& count == spec_page_count(total_length, ROW_WIDTH as nat, layout.spec_rows())
            &&& count > MAX_PAGES
        },
    }
}

/// What is drawn for one page of a prompt.
#[derive(Clone, Copy, Debug)]
pub struct Screen {
    /// The title row.
    pub title: ArrayString<16>,
    /// The first row of text, which every page has.
    pub first_row: ArrayString<16>,
    /// The second row of text, where the page has one.
    pub second_row: Option<ArrayString<16>>,
    /// The third row of text, where the page has one.
    pub third_row: Option<ArrayString<16>>,
    /// Whether the left arrow is drawn: there is a page before this one.
    pub left_arrow: bool,
    /// Whether the right arrow is drawn: there is a page behind this one. On
    /// the last page the check mark stands in its place.
    pub right_arrow: bool,
}

/// A screen as plain values.
pub struct ScreenModel {
    pub title: Seq<u8>,
    pub first_row: Seq<u8>,
    pub second_row: Option<Seq<u8>>,
    pub third_row: Option<Seq<u8>>,
    pub left_arrow: bool,
    pub right_arrow: bool,
}

impl View for Screen {
    type V = ScreenModel;

    open spec fn view(&self) -> ScreenModel {
        ScreenModel {
            title: stored_bytes(self.title),
            first_row: stored_bytes(self.first_row),
            second_row: match self.second_row {
                Some(row) => Some(stored_bytes(row)),
                None => None,
            },
            third_row: match self.third_row {
                Some(row) => Some(stored_bytes(row)),
                None => None,
            },
            left_arrow: self.left_arrow,
            right_arrow: self.right_arrow,
        }
    }
}

/// The row of a page as it shows `content`, where it is drawn.
pub open spec fn row_of(content: Seq<u8>, layout: Layout, page: nat, row_index: nat) -> Option<
    Seq<u8>,
> {
    let offset = spec_row_offset(page, row_index, ROW_WIDTH as nat, layout.spec_rows());
    if row_index < layout.spec_rows() && spec_row_drawn(content.len(), row_index, offset) {
        Some(row_slice(content, offset, ROW_WIDTH as nat))
    } else {
        None
    }
}

/// The screen that shows a page of the prompt with the text `content`.
pub open spec fn screen_of(
    title: Seq<u8>,
    content: Seq<u8>,
    layout: Layout,
    page: nat,
    show_index: bool,
) -> ScreenModel {
    let count = spec_page_count(content.len(), ROW_WIDTH as nat, layout.spec_rows());
    ScreenModel {
        title: title_text(title, page, count, show_index),
        first_row: row_of(content, layout, page, 0)->0,
        second_row: row_of(content, layout, page, 1),
        third_row: row_of(content, layout, page, 2),
        left_arrow: page > 0,
        right_arrow: page + 1 < count,
    }
}

impl ScreenModel {
    /// The text on the screen below the title: its rows in order.
    pub open spec fn text(self) -> Seq<u8> {
        self.first_row + (match self.second_row {
            Some(row) => row,
            None => Seq::empty(),
        }) + (match self.third_row {
            Some(row) => row,
            None => Seq::empty(),
        })
    }
}

/// The rows on the screen of a page are the text of that page, so that the
/// screens of all pages, one after the other, show the whole text
/// ([`lemma_pages_reproduce_content`]).
pub proof fn lemma_screen_shows_page(
    title: Seq<u8>,
    content: Seq<u8>,
    layout: Layout,
    page: nat,
    show_index: bool,
)
    ensures
        screen_of(title, content, layout, page, show_index).text() == page_text(
            content,
            ROW_WIDTH as nat,
            layout.spec_rows(),
            page,
        ),
{
    let width = ROW_WIDTH as nat;
    let rows = layout.spec_rows();
    let first = page * rows;
    reveal_with_fuel(rows_joined, 4);
    assert(rows_joined(content, width, first, 0) =~= Seq::<u8>::empty());
    assert(((first + 1 - 1) * width) as nat == spec_row_offset(page, 0, width, rows));
    assert(((first + 2 - 1) * width) as nat == spec_row_offset(page, 1, width, rows));
    assert(((first + 3 - 1) * width) as nat == spec_row_offset(page, 2, width, rows));
    if !spec_row_drawn(content.len(), 1, spec_row_offset(page, 1, width, rows)) {
        lemma_undrawn_row_is_empty(content, 1, spec_row_offset(page, 1, width, rows), width);
    }
    if !spec_row_drawn(content.len(), 2, spec_row_offset(page, 2, width, rows)) {
        lemma_undrawn_row_is_empty(content, 2, spec_row_offset(page, 2, width, rows), width);
    }
    assert(screen_of(title, content, layout, page, show_index).text() =~= page_text(
        content,
        width,
        rows,
        page,
    ));
}

/// A title and the producer of the text that is shown below it.
///
/// The producer writes the whole text into the sink it is handed, every time
/// it is called.
pub struct WriteScroller<'a, F: Fn(&mut PromptWrite) -> Result<(), ScrollerError>> {
    title: &'a str,
    contents: F,
}

impl<'a, F: Fn(&mut PromptWrite) -> Result<(), ScrollerError>> WriteScroller<'a, F> {
    /// The producer of the text.
    pub closed spec fn producer(&self) -> F {
        self.contents
    }

    /// The bytes of the title.
    pub closed spec fn title_bytes(&self) -> Seq<u8> {
        self.title.spec_bytes()
    }

    /// Whether the producer may be called on every sink that has been offered
    /// nothing yet.
    pub open spec fn callable(&self) -> bool {
        forall|sink: &mut PromptWrite|
            sink@ == SinkModel::fresh(sink@.skip) ==> call_requires(self.producer(), (sink,))
    }

    /// A scroller for the text of `contents` under `title`.
    pub fn new(title: &'a str, contents: F) -> (scroller: Self)
        ensures
            scroller.producer() == contents,
            scroller.title_bytes() == title.spec_bytes(),
    {
        WriteScroller { title, contents }
    }

    /// Runs the producer on a sink that passes over the first `offset` bytes,
    /// and hands back the sink as the producer left it.
    pub fn run_producer(&self, offset: usize) -> (r: Result<PromptWrite, ScrollerError>)
        requires
            self.callable(),
        ensures
            exists|sink: &mut PromptWrite, returned: Result<(), ScrollerError>|
                {
                    &&& sink@ == SinkModel::fresh(offset as nat)
                    &&& call_ensures(self.producer(), (sink,), returned)
                    &&& returned is Ok <==> r is Ok
                    &&& r matches Ok(left) ==> left == *final(sink)
                },
    {
        let mut sink = PromptWrite::starting_at(offset);
        let returned = (self.contents)(&mut sink);
        match returned {
            Ok(()) => Ok(sink),
            Err(error) => Err(error),
        }
    }

    /// Measures the text: runs the producer once on a sink that passes over
    /// nothing, and reads the count of what it was offered.
    pub fn get_length(&self) -> (r: Result<usize, ScrollerError>)
        requires
            self.callable(),
        ensures
            exists|sink: &mut PromptWrite, returned: Result<(), ScrollerError>|
                {
                    &&& sink@ == SinkModel::fresh(0)
                    &&& call_ensures(self.producer(), (sink,), returned)
                    &&& returned is Ok <==> r is Ok
                    &&& r matches Ok(length) ==> length == final(sink)@.total
                },
    {
        match self.run_producer(0) {
            Ok(sink) => Ok(sink.total()),
            Err(error) => Err(error),
        }
    }

    /// Measures the text and divides it into pages.
    pub fn measure_and_paginate(&self, layout: Layout) -> (r: Result<Pagination, ScrollerError>)
        requires
            self.callable(),
        ensures
            exists|sink: &mut PromptWrite, returned: Result<(), ScrollerError>|
                {
                    &&& sink@ == SinkModel::fresh(0)
                    &&& call_ensures(self.producer(), (sink,), returned)
                    &&& returned is Ok <==> r is Ok
                    &&& r matches Ok(pagination) ==> paginated(
                        pagination,
                        final(sink)@.total,
                        layout,
                    )
                },
    {
        match self.get_length() {
            Ok(length) => Ok(paginate(length, layout)),
            Err(error) => Err(error),
        }
    }

    /// Draws one row: runs the producer on a sink that passes over the first
    /// `offset` bytes, and hands back the row that the sink kept.
    pub fn render_row(&self, offset: usize) -> (r: Result<ArrayString<16>, ScrollerError>)
        requires
            self.callable(),
        ensures
            exists|sink: &mut PromptWrite, returned: Result<(), ScrollerError>|
                {
                    &&& sink@ == SinkModel::fresh(offset as nat)
                    &&& call_ensures(self.producer(), (sink,), returned)
                    &&& returned is Ok <==> r is Ok
                    &&& r matches Ok(row) ==> stored_bytes(row) == final(sink)@.written
                },
            forall|content: Seq<u8>|
                (forall|sink: &mut PromptWrite, returned: Result<(), ScrollerError>|
                    sink@ == SinkModel::fresh(sink@.skip) && call_ensures(
                        self.producer(),
                        (sink,),
                        returned,
                    ) ==> returned is Ok && final(sink)@ == sink@.offer(content, ROW_WIDTH as nat))
                    ==> r is Ok && stored_bytes(r->Ok_0) == #[trigger] row_slice(
                    content,
                    offset as nat,
                    ROW_WIDTH as nat,
                ),
    {
        match self.run_producer(offset) {
            Ok(sink) => Ok(sink.into_buffer()),
            Err(error) => Err(error),
        }
    }

    /// Draws a page: the title row, the rows of text that the page has, each
    /// from a run of the producer of its own, and the arrows.
    ///
    /// Fails where a run of the producer fails.
    pub fn draw(&self, pages: &PageSpec, page: usize, show_index: bool) -> (r: Result<
        Screen,
        ScrollerError,
    >)
        requires
            self.callable(),
            page < pages.spec_page_count(),
        ensures
            r matches Ok(screen) ==> {
                &&& screen@.title == title_text(
                    self.title_bytes(),
                    page as nat,
                    pages.spec_page_count(),
                    show_index,
                )
                &&& screen.left_arrow == (page > 0)
                &&& screen.right_arrow == (page + 1 < pages.spec_page_count())
                &&& screen.second_row is Some <==> pages.row_shown(page as nat, 1)
                &&& screen.third_row is Some <==> pages.row_shown(page as nat, 2)
            },
            r matches Ok(screen) ==> exists|
                sink: &mut PromptWrite,
                returned: Result<(), ScrollerError>,
            |
                {
                    &&& sink@ == SinkModel::fresh(pages.row_start(page as nat, 0))
                    &&& call_ensures(self.producer(), (sink,), returned)
                    &&& returned is Ok
                    &&& screen@.first_row == final(sink)@.written
                },
            r matches Ok(screen) ==> (screen@.second_row matches Some(row) ==> exists|
                sink: &mut PromptWrite,
                returned: Result<(), ScrollerError>,
            |
                {
                    &&& sink@ == SinkModel::fresh(pages.row_start(page as nat, 1))
                    &&& call_ensures(self.producer(), (sink,), returned)
                    &&& returned is Ok
                    &&& row == final(sink)@.written
                }),
            r matches Ok(screen) ==> (screen@.third_row matches Some(row) ==> exists|
                sink: &mut PromptWrite,
                returned: Result<(), ScrollerError>,
            |
                {
                    &&& sink@ == SinkModel::fresh(pages.row_start(page as nat, 2))
                    &&& call_ensures(self.producer(), (sink,), returned)
                    &&& returned is Ok
                    &&& row == final(sink)@.written
                }),
            r is Err ==> exists|sink: &mut PromptWrite, returned: Result<(), ScrollerError>|
                {
                    &&& sink@ == SinkModel::fresh(sink@.skip)
                    &&& call_ensures(self.producer(), (sink,), returned)
                    &&& returned is Err
                },
            forall|content: Seq<u8>|
                (forall|sink: &mut PromptWrite, returned: Result<(), ScrollerError>|
                    sink@ == SinkModel::fresh(sink@.skip) && call_ensures(
                        self.producer(),
                        (sink,),
                        returned,
                    ) ==> returned is Ok && final(sink)@ == sink@.offer(content, ROW_WIDTH as nat))
                    && content.len() == pages.spec_total_length() ==> r is Ok && (r->Ok_0)@
                    == #[trigger] screen_of(
                    self.title_bytes(),
                    content,
                    pages.spec_layout(),
                    page as nat,
                    show_index,
                ),
    {
        let count = pages.page_count();
        let rows = pages.layout().rows();
        let total = pages.total_length();
        proof {
            assert((page * rows + 2) * ROW_WIDTH <= 48032) by (nonlinear_arith)
                requires
                    page < 1000,
                    rows <= 3,
                    ROW_WIDTH == 16,
            ;
            assert(page * rows + 0 <= page * rows + 1 <= page * rows + 2);
            assert((page * rows + 0) * ROW_WIDTH <= (page * rows + 1) * ROW_WIDTH <= (page * rows
                + 2) * ROW_WIDTH) by (nonlinear_arith)
                requires
                    page * rows >= 0,
                    ROW_WIDTH == 16,
            ;
        }
        let title = format_title(self.title, page, count, show_index);
        let first_row = match self.render_row(row_offset(page, 0, ROW_WIDTH, rows)) {
            Ok(row) => row,
            Err(error) => { return Err(error); },
        };
        let second_offset = row_offset(page, 1, ROW_WIDTH, rows);
        let second_row = if rows > 1 && row_drawn(total, 1, second_offset) {
            match self.render_row(second_offset) {
                Ok(row) => Some(row),
                Err(error) => { return Err(error); },
            }
        } else {
            None
        };
        let third_offset = row_offset(page, 2, ROW_WIDTH, rows);
        let third_row = if rows > 2 && row_drawn(total, 2, third_offset) {
            match self.render_row(third_offset) {
                Ok(row) => Some(row),
                Err(error) => { return Err(error); },
            }
        } else {
            None
        };
        Ok(
            Screen {
                title,
                first_row,
                second_row,
                third_row,
                left_arrow: page > 0,
                right_arrow: page + 1 < count,
            },
        )
    }

    /// The title row for a page, with the page index where it fits.
    pub fn make_title_buffer(&self, page: usize, page_count: usize) -> (buffer: ArrayString<16>)
        requires
            page < page_count,
        ensures
            stored_bytes(buffer) == title_text(
                self.title_bytes(),
                page as nat,
                page_count as nat,
                true,
            ),
    {
        format_title(self.title, page, page_count, true)
    }
}

} // verus!
