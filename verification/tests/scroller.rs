use ledger_prompts_ui::{
    accepted, Action, ButtonEvent, Layout, PageSpec, Pagination, PromptWrite, ScrollerError,
    ScrollerState, Screen, WriteScroller,
};
use std::cell::RefCell;
use std::fmt::Write;

const TEXT: &str = "Send 1.25 coins to address 0123456789abcdef0123456789abcdef0123, fee 0.001";

fn pages_of<F: Fn(&mut PromptWrite) -> Result<(), ScrollerError>>(
    scroller: &WriteScroller<F>,
    layout: Layout,
) -> PageSpec {
    match scroller.measure_and_paginate(layout) {
        Ok(Pagination::Pages(pages)) => pages,
        Ok(Pagination::TooManyPages(count)) => panic!("too many pages: {}", count),
        Err(_) => panic!("the producer failed"),
    }
}

fn rows_of(screen: &Screen) -> String {
    let mut text = String::from(screen.first_row.as_str());
    if let Some(row) = &screen.second_row {
        text.push_str(row.as_str());
    }
    if let Some(row) = &screen.third_row {
        text.push_str(row.as_str());
    }
    text
}

fn all_pages<F: Fn(&mut PromptWrite) -> Result<(), ScrollerError>>(
    scroller: &WriteScroller<F>,
    layout: Layout,
) -> (usize, String) {
    let pages = pages_of(scroller, layout);
    let mut text = String::new();
    for page in 0..pages.page_count() {
        match scroller.draw(&pages, page, true) {
            Ok(screen) => text.push_str(&rows_of(&screen)),
            Err(_) => panic!("the producer failed"),
        }
    }
    (pages.page_count(), text)
}

#[test]
fn measures_the_text() {
    let scroller = WriteScroller::new("Send", |sink: &mut PromptWrite| {
        sink.write_str("Send 1.25 ")?;
        sink.write_str("coins")?;
        Ok(())
    });
    assert!(matches!(scroller.get_length(), Ok(15)));
}

#[test]
fn measures_an_empty_text() {
    let scroller = WriteScroller::new("Send", |_sink: &mut PromptWrite| Ok(()));
    assert!(matches!(scroller.get_length(), Ok(0)));
}

#[test]
fn measuring_fails_with_the_producer() {
    let scroller = WriteScroller::new("Send", |sink: &mut PromptWrite| {
        sink.write_str("Send")?;
        Err(ScrollerError)
    });
    assert!(scroller.get_length().is_err());
    assert!(scroller.measure_and_paginate(Layout::OneRow).is_err());
    assert!(scroller.render_row(0).is_err());
    assert!(scroller.run_producer(0).is_err());
}

#[test]
fn producer_is_handed_a_fresh_sink_at_the_offset() {
    let seen = RefCell::new(Vec::new());
    let scroller = WriteScroller::new("Send", |sink: &mut PromptWrite| {
        seen.borrow_mut().push((sink.offset(), sink.total(), String::from(sink.as_str())));
        sink.write_str(TEXT)?;
        Ok(())
    });
    assert!(scroller.get_length().is_ok());
    assert!(scroller.render_row(32).is_ok());
    assert_eq!(
        *seen.borrow(),
        vec![(0, 0, String::new()), (32, 0, String::new())]
    );
}

#[test]
fn same_offset_gives_the_same_row() {
    let calls = RefCell::new(Vec::new());
    let scroller = WriteScroller::new("Send", |sink: &mut PromptWrite| {
        let offset = sink.offset();
        sink.write_str(TEXT)?;
        calls.borrow_mut().push((offset, String::from(sink.as_str()), sink.total()));
        Ok(())
    });
    for offset in [0usize, 16, 48, 200] {
        let first = scroller.render_row(offset).map(|row| String::from(row.as_str()));
        let second = scroller.render_row(offset).map(|row| String::from(row.as_str()));
        assert!(first.is_ok());
        assert_eq!(first.ok(), second.ok());
    }
    let calls = calls.borrow();
    assert_eq!(calls.len(), 8);
    for pair in calls.chunks(2) {
        assert_eq!(pair[0], pair[1]);
    }
}

#[test]
fn renders_rows_at_their_offsets() {
    let scroller = WriteScroller::new("Send", |sink: &mut PromptWrite| {
        sink.write_str(TEXT)?;
        Ok(())
    });
    assert_eq!(scroller.render_row(0).unwrap().as_str(), &TEXT[0..16]);
    assert_eq!(scroller.render_row(16).unwrap().as_str(), &TEXT[16..32]);
    assert_eq!(scroller.render_row(64).unwrap().as_str(), &TEXT[64..]);
    assert_eq!(scroller.render_row(TEXT.len()).unwrap().as_str(), "");
    assert_eq!(scroller.run_producer(16).unwrap().total(), TEXT.len());
}

#[test]
fn pages_reproduce_the_text() {
    for length in 0..=TEXT.len() {
        let text = &TEXT[..length];
        let scroller = WriteScroller::new("Send", |sink: &mut PromptWrite| {
            for word in text.split_inclusive(' ') {
                sink.write_str(word)?;
            }
            Ok(())
        });
        let (one_row_pages, one_row_text) = all_pages(&scroller, Layout::OneRow);
        assert_eq!(one_row_text, text);
        assert_eq!(one_row_pages, if length == 0 { 1 } else { (length + 15) / 16 });
        let (three_row_pages, three_row_text) = all_pages(&scroller, Layout::ThreeRows);
        assert_eq!(three_row_text, text);
        assert_eq!(three_row_pages, if length == 0 { 1 } else { (length + 47) / 48 });
    }
}

#[test]
fn empty_text_has_one_empty_page() {
    let scroller = WriteScroller::new("Send", |_sink: &mut PromptWrite| Ok(()));
    for layout in [Layout::OneRow, Layout::ThreeRows] {
        let pages = pages_of(&scroller, layout);
        assert_eq!(pages.page_count(), 1);
        assert_eq!(pages.total_length(), 0);
        let screen = scroller.draw(&pages, 0, true).unwrap();
        assert_eq!(screen.title.as_str(), "Send");
        assert_eq!(screen.first_row.as_str(), "");
        assert!(screen.second_row.is_none());
        assert!(screen.third_row.is_none());
        assert!(!screen.left_arrow);
        assert!(!screen.right_arrow);
    }
}

#[test]
fn text_of_full_pages_has_no_empty_page() {
    let scroller = WriteScroller::new("Send", |sink: &mut PromptWrite| {
        sink.write_str(&TEXT[..48])?;
        Ok(())
    });
    let pages = pages_of(&scroller, Layout::OneRow);
    assert_eq!(pages.page_count(), 3);
    let last = scroller.draw(&pages, 2, false).unwrap();
    assert_eq!(last.first_row.as_str(), &TEXT[32..48]);
    assert!(!last.right_arrow);
    let pages = pages_of(&scroller, Layout::ThreeRows);
    assert_eq!(pages.page_count(), 1);
    let only = scroller.draw(&pages, 0, false).unwrap();
    assert_eq!(only.first_row.as_str(), &TEXT[0..16]);
    assert_eq!(only.second_row.unwrap().as_str(), &TEXT[16..32]);
    assert_eq!(only.third_row.unwrap().as_str(), &TEXT[32..48]);
    assert!(!only.left_arrow);
    assert!(!only.right_arrow);
}

#[test]
fn one_byte_over_a_page_shows_alone_on_the_second() {
    let scroller = WriteScroller::new("Send", |sink: &mut PromptWrite| {
        sink.write_str(&TEXT[..17])?;
        Ok(())
    });
    let pages = pages_of(&scroller, Layout::OneRow);
    assert_eq!(pages.page_count(), 2);
    let second = scroller.draw(&pages, 1, true).unwrap();
    assert_eq!(second.first_row.as_str(), &TEXT[16..17]);
    assert_eq!(second.title.as_str(), "Send (2/2)");
    assert!(second.left_arrow);
    assert!(!second.right_arrow);

    let scroller = WriteScroller::new("Send", |sink: &mut PromptWrite| {
        sink.write_str(&TEXT[..49])?;
        Ok(())
    });
    let pages = pages_of(&scroller, Layout::ThreeRows);
    assert_eq!(pages.page_count(), 2);
    let second = scroller.draw(&pages, 1, true).unwrap();
    assert_eq!(second.first_row.as_str(), &TEXT[48..49]);
    assert!(second.second_row.is_none());
    assert!(second.third_row.is_none());
}

#[test]
fn draws_a_page_of_one_row() {
    let scroller = WriteScroller::new("Send", |sink: &mut PromptWrite| {
        sink.write_str(TEXT)?;
        Ok(())
    });
    let pages = pages_of(&scroller, Layout::OneRow);
    assert_eq!(pages.page_count(), 5);
    let first = scroller.draw(&pages, 0, true).unwrap();
    assert_eq!(first.title.as_str(), "Send (1/5)");
    assert_eq!(first.first_row.as_str(), "Send 1.25 coins ");
    assert!(first.second_row.is_none());
    assert!(first.third_row.is_none());
    assert!(!first.left_arrow);
    assert!(first.right_arrow);
    let middle = scroller.draw(&pages, 2, true).unwrap();
    assert_eq!(middle.title.as_str(), "Send (3/5)");
    assert_eq!(middle.first_row.as_str(), &TEXT[32..48]);
    assert!(middle.left_arrow);
    assert!(middle.right_arrow);
    let last = scroller.draw(&pages, 4, false).unwrap();
    assert_eq!(last.title.as_str(), "Send");
    assert_eq!(last.first_row.as_str(), " fee 0.001");
    assert_eq!(last.first_row.as_str(), &TEXT[64..]);
    assert!(last.left_arrow);
    assert!(!last.right_arrow);
}

#[test]
fn draws_a_page_of_three_rows() {
    let scroller = WriteScroller::new("Send", |sink: &mut PromptWrite| {
        sink.write_str(TEXT)?;
        Ok(())
    });
    let pages = pages_of(&scroller, Layout::ThreeRows);
    assert_eq!(pages.page_count(), 2);
    let first = scroller.draw(&pages, 0, true).unwrap();
    assert_eq!(first.title.as_str(), "Send (1/2)");
    assert_eq!(first.first_row.as_str(), &TEXT[0..16]);
    assert_eq!(first.second_row.unwrap().as_str(), &TEXT[16..32]);
    assert_eq!(first.third_row.unwrap().as_str(), &TEXT[32..48]);
    assert!(!first.left_arrow);
    assert!(first.right_arrow);
    let second = scroller.draw(&pages, 1, true).unwrap();
    assert_eq!(second.title.as_str(), "Send (2/2)");
    assert_eq!(second.first_row.as_str(), &TEXT[48..64]);
    assert_eq!(second.second_row.unwrap().as_str(), &TEXT[64..]);
    assert!(second.third_row.is_none());
    assert!(second.left_arrow);
    assert!(!second.right_arrow);
}

#[test]
fn drawing_fails_with_the_producer() {
    let calls = RefCell::new(0);
    let scroller = WriteScroller::new("Send", |sink: &mut PromptWrite| {
        *calls.borrow_mut() += 1;
        if *calls.borrow() > 2 {
            return Err(ScrollerError);
        }
        sink.write_str(TEXT)?;
        Ok(())
    });
    let pages = pages_of(&scroller, Layout::ThreeRows);
    assert!(scroller.draw(&pages, 0, true).is_err());
}

#[test]
fn text_cut_inside_a_character_cannot_be_drawn() {
    let scroller = WriteScroller::new("Send", |sink: &mut PromptWrite| {
        sink.write_str("0123456789abcde\u{e9}")?;
        Ok(())
    });
    assert!(scroller.get_length().is_err());
    assert!(!accepted(scroller.get_length().map(|_| true)));
}

#[test]
fn too_many_pages_are_reported() {
    let scroller = WriteScroller::new("Send", |sink: &mut PromptWrite| {
        for _ in 0..1000 {
            sink.write_str("0123456789abcdef")?;
        }
        sink.write_str("!")?;
        Ok(())
    });
    assert!(matches!(scroller.get_length(), Ok(16001)));
    assert!(matches!(
        scroller.measure_and_paginate(Layout::OneRow),
        Ok(Pagination::TooManyPages(1001))
    ));
    assert!(matches!(
        scroller.measure_and_paginate(Layout::ThreeRows),
        Ok(Pagination::Pages(pages)) if pages.page_count() == 334
    ));
}

#[test]
fn thousand_pages_are_shown() {
    let scroller = WriteScroller::new("T", |sink: &mut PromptWrite| {
        for _ in 0..1000 {
            sink.write_str("0123456789abcdef")?;
        }
        Ok(())
    });
    let pages = pages_of(&scroller, Layout::OneRow);
    assert_eq!(pages.page_count(), 1000);
    let last = scroller.draw(&pages, 999, true).unwrap();
    assert_eq!(last.title.as_str(), "T (1000/1000)");
    assert_eq!(last.first_row.as_str(), "0123456789abcdef");
    assert!(!last.right_arrow);
}

#[test]
fn walking_a_prompt_to_its_end_accepts() {
    let scroller = WriteScroller::new("Send", |sink: &mut PromptWrite| {
        sink.write_str(TEXT)?;
        Ok(())
    });
    let pages = pages_of(&scroller, Layout::OneRow);
    let mut state = ScrollerState::new(pages.page_count());
    let mut shown = String::from(scroller.draw(&pages, 0, true).unwrap().first_row.as_str());
    let mut releases = 0;
    let outcome = loop {
        releases += 1;
        match state.handle(Some(ButtonEvent::RightButtonRelease)) {
            Action::Redraw => {
                assert!(state.running());
                let screen = scroller.draw(&pages, state.current_page(), true).unwrap();
                shown.push_str(screen.first_row.as_str());
            }
            Action::Accept => break Ok(true),
            Action::Reject => break Ok(false),
            _ => panic!("a release redraws or ends the prompt"),
        }
    };
    assert!(accepted(outcome));
    assert_eq!(releases, pages.page_count());
    assert_eq!(shown, TEXT);
}

#[test]
fn failure_counts_as_rejection() {
    assert!(accepted(Ok(true)));
    assert!(!accepted(Ok(false)));
    assert!(!accepted(Err(ScrollerError)));
}

#[test]
fn errors_of_formatting_become_scroller_errors() {
    let from_fmt: ScrollerError = std::fmt::Error.into();
    assert_eq!(format!("{:?}", from_fmt), "ScrollerError");
    let bytes = vec![0xffu8];
    let from_utf8: Result<&str, ScrollerError> =
        std::str::from_utf8(&bytes).map_err(ScrollerError::from);
    assert!(from_utf8.is_err());
}
