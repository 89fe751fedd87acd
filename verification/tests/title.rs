use ledger_prompts_ui::{format_title, WriteScroller, PromptWrite, ScrollerError};

fn nothing(_sink: &mut PromptWrite) -> Result<(), ScrollerError> {
    Ok(())
}

#[test]
fn title_with_page_index() {
    assert_eq!(format_title("TX", 0, 3, true).as_str(), "TX (1/3)");
    assert_eq!(format_title("TX", 1, 3, true).as_str(), "TX (2/3)");
    assert_eq!(format_title("TX", 2, 3, true).as_str(), "TX (3/3)");
}

#[test]
fn long_title_drops_the_page_index() {
    assert_eq!(format_title("Transaction fee", 0, 3, true).as_str(), "Transaction fee");
    assert_eq!(format_title("A title of 14 ", 4, 100, true).as_str(), "A title of 14 ");
    assert_eq!("A title of 14 ".len(), 14);
}

#[test]
fn single_page_has_no_page_index() {
    assert_eq!(format_title("TX", 0, 1, true).as_str(), "TX");
}

#[test]
fn page_index_not_asked_for() {
    assert_eq!(format_title("TX", 0, 3, false).as_str(), "TX");
    assert_eq!(format_title("TX", 2, 3, false).as_str(), "TX");
}

#[test]
fn title_of_the_widest_length_that_keeps_the_index() {
    assert_eq!(format_title("0123456789", 0, 9, true).as_str(), "0123456789 (1/9)");
    assert_eq!(format_title("0123456789a", 0, 9, true).as_str(), "0123456789a");
    assert_eq!(format_title("01234567", 9, 10, true).as_str(), "01234567 (10/10)");
    assert_eq!(format_title("012345678", 9, 10, true).as_str(), "012345678");
    assert_eq!(format_title("01234567", 0, 99, true).as_str(), "01234567 (1/99)");
    assert_eq!(format_title("012345", 99, 100, true).as_str(), "012345 (100/100)");
    assert_eq!(format_title("0123456", 99, 100, true).as_str(), "0123456");
    assert_eq!(format_title("012345", 0, 100, true).as_str(), "012345 (1/100)");
}

#[test]
fn index_wider_than_the_width_set_aside_is_cut() {
    assert_eq!(format_title("012345", 0, 1000, true).as_str(), "012345 (1/1000)");
    assert_eq!(format_title("012345", 99, 1000, true).as_str(), "012345 (100/1000");
    assert_eq!(format_title("012345", 999, 1000, true).as_str(), "012345 (1000/100");
    assert_eq!(format_title("", 999, 1000, true).as_str(), " (1000/1000)");
}

#[test]
fn title_longer_than_the_row_is_cut() {
    assert_eq!(format_title("0123456789abcdefXYZ", 0, 1, true).as_str(), "0123456789abcdef");
    assert_eq!(format_title("0123456789abcdefXYZ", 0, 5, true).as_str(), "0123456789abcdef");
    assert_eq!(format_title("0123456789abcdefXYZ", 0, 5, false).as_str(), "0123456789abcdef");
    assert_eq!(format_title("0123456789abcdef", 0, 5, false).as_str(), "0123456789abcdef");
}

#[test]
fn title_is_cut_between_characters() {
    assert_eq!(format_title("0123456789abcde\u{e9}", 0, 1, false).as_str(), "0123456789abcde");
    assert_eq!(format_title("0123456789abcd\u{20ac}x", 0, 1, false).as_str(), "0123456789abcd");
    assert_eq!(format_title("0123456789abc\u{20ac}x", 0, 1, false).as_str(), "0123456789abc\u{20ac}");
    assert_eq!(format_title("0123456789abc\u{1f600}", 0, 1, false).as_str(), "0123456789abc");
}

#[test]
fn empty_title() {
    assert_eq!(format_title("", 0, 1, true).as_str(), "");
    assert_eq!(format_title("", 1, 2, true).as_str(), " (2/2)");
}

#[test]
fn title_with_characters_of_several_bytes_counts_bytes() {
    assert_eq!(format_title("\u{e9}t\u{e9}", 0, 3, true).as_str(), "\u{e9}t\u{e9} (1/3)");
    assert_eq!(format_title("\u{e9}\u{e9}\u{e9}\u{e9}\u{e9}", 0, 3, true).as_str(), "\u{e9}\u{e9}\u{e9}\u{e9}\u{e9} (1/3)");
    assert_eq!(format_title("\u{e9}\u{e9}\u{e9}\u{e9}\u{e9}x", 0, 3, true).as_str(), "\u{e9}\u{e9}\u{e9}\u{e9}\u{e9}x");
}

#[test]
fn scroller_title_buffer_shows_the_index() {
    let scroller = WriteScroller::new("TX", nothing);
    assert_eq!(scroller.make_title_buffer(0, 3).as_str(), "TX (1/3)");
    assert_eq!(scroller.make_title_buffer(0, 1).as_str(), "TX");
    let long = WriteScroller::new("A title of 14 ", nothing);
    assert_eq!(long.make_title_buffer(0, 100).as_str(), "A title of 14 ");
}
