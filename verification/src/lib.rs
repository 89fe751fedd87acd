//! Paginated prompts for a display of a few short rows and two buttons.
//!
//! A prompt is text that its producer writes, piece by piece, into a
//! [`PromptWrite`]: a sink that counts everything it is offered and keeps one
//! row of it. The same producer is run once to measure the text and once for
//! each row that is shown, so the text is never held as a whole. The pages
//! are walked with the two buttons; what each button event does is decided by
//! [`ScrollerState`], and what is on a page by [`WriteScroller::draw`].
//! Drawing on a device and reading its buttons is left to the caller.
//!
//! All lengths and offsets count bytes of UTF-8, which for ASCII text are
//! characters.

pub mod buffer;
pub mod menu;
pub mod navigation;
pub mod pages;
pub mod scroller;
pub mod sink;
pub mod title;

pub use buffer::{row_text, stored_bytes, ROW_WIDTH};
pub use menu::{handle_menu_button_event, Menu};
pub use navigation::{Action, ButtonEvent, NavModel, ScrollerState};
pub use pages::{page_count, row_drawn, row_offset, MAX_PAGES};
pub use scroller::{
    accepted, paginate, Layout, PageSpec, Pagination, Screen, ScrollerError, WriteScroller,
};
pub use sink::{decimal_width, mk_prompt_write, PromptWrite, SinkModel};
pub use title::format_title;
