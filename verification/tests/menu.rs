use ledger_prompts_ui::{handle_menu_button_event, ButtonEvent, Menu};

struct Items {
    at: usize,
    labels: [&'static str; 3],
}

impl Menu for Items {
    type BothResult = &'static str;

    fn move_left(&mut self) {
        self.at = (self.at + 2) % 3;
    }

    fn move_right(&mut self) {
        self.at = (self.at + 1) % 3;
    }

    fn handle_both(&mut self) -> Option<&'static str> {
        if self.at == 0 {
            None
        } else {
            Some(self.labels[self.at])
        }
    }

    fn label(&self) -> &str {
        self.labels[self.at]
    }
}

fn items() -> Items {
    Items { at: 0, labels: ["Back", "Settings", "Quit"] }
}

#[test]
fn right_release_moves_right() {
    let mut menu = items();
    assert!(handle_menu_button_event(&mut menu, ButtonEvent::RightButtonRelease).is_none());
    assert_eq!(menu.label(), "Settings");
}

#[test]
fn left_release_moves_left() {
    let mut menu = items();
    assert!(handle_menu_button_event(&mut menu, ButtonEvent::LeftButtonRelease).is_none());
    assert_eq!(menu.label(), "Quit");
}

#[test]
fn both_release_chooses() {
    let mut menu = items();
    assert!(handle_menu_button_event(&mut menu, ButtonEvent::RightButtonRelease).is_none());
    assert_eq!(
        handle_menu_button_event(&mut menu, ButtonEvent::BothButtonsRelease),
        Some("Settings")
    );
    assert_eq!(menu.label(), "Settings");
}

#[test]
fn both_release_without_a_choice_goes_on() {
    let mut menu = items();
    assert!(handle_menu_button_event(&mut menu, ButtonEvent::BothButtonsRelease).is_none());
    assert_eq!(menu.label(), "Back");
}

#[test]
fn presses_leave_the_menu_alone() {
    let mut menu = items();
    for event in [
        ButtonEvent::LeftButtonPress,
        ButtonEvent::RightButtonPress,
        ButtonEvent::BothButtonsPress,
    ] {
        assert!(handle_menu_button_event(&mut menu, event).is_none());
        assert_eq!(menu.label(), "Back");
    }
}
