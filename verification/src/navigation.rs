//! The navigation state machine: what each button event does to the page
//! that is shown, and when a prompt ends accepted or rejected.

use vstd::prelude::*;

verus! {

/// What the two buttons can report.
#[derive(Clone, Copy, Debug, PartialEq, Eq, Structural)]
pub enum ButtonEvent {
    LeftButtonPress,
    RightButtonPress,
    BothButtonsPress,
    LeftButtonRelease,
    RightButtonRelease,
    BothButtonsRelease,
}

/// What is to be done after an event.
#[derive(Clone, Copy, Debug, PartialEq, Eq, Structural)]
pub enum Action {
    /// Nothing changes on the screen.
    Nothing,
    /// The left button is held: show its pressed mark.
    ShowLeftPressed,
    /// The right button is held: show its pressed mark.
    ShowRightPressed,
    /// Draw the current page.
    Redraw,
    /// The prompt ends: the user has gone past the last page.
    Accept,
    /// The prompt ends: the user has pressed both buttons.
    Reject,
}

/// The state of a prompt as plain values.
pub struct NavModel {
    /// The page shown; `page_count` once the prompt is accepted.
    pub page: nat,
    /// The number of pages of the prompt.
    pub page_count: nat,
}

impl NavModel {
    /// The state in which a prompt of `page_count` pages begins.
    pub open spec fn start(page_count: nat) -> NavModel {
        NavModel { page: 0, page_count }
    }

    /// Whether a page is shown: the prompt has not been accepted.
    pub open spec fn running(self) -> bool {
        self.page < self.page_count
    }

    /// The state after an event.
    pub open spec fn next(self, event: Option<ButtonEvent>) -> NavModel {
        match event {
            Some(ButtonEvent::LeftButtonRelease) => if self.page > 0 {
                NavModel { page: (self.page - 1) as nat, ..self }
            } else {
                self
            },
            Some(ButtonEvent::RightButtonRelease) => if self.page < self.page_count {
                NavModel { page: self.page + 1, ..self }
            } else {
                self
            },
            _ => self,
        }
    }

    /// What is to be done after an event.
    pub open spec fn action(self, event: Option<ButtonEvent>) -> Action {
        match event {
            Some(ButtonEvent::LeftButtonPress) => Action::ShowLeftPressed,
            Some(ButtonEvent::RightButtonPress) => Action::ShowRightPressed,
            Some(ButtonEvent::LeftButtonRelease) => Action::Redraw,
            Some(ButtonEvent::RightButtonRelease) => if self.next(event).page
                == self.page_count {
                Action::Accept
            } else {
                Action::Redraw
            },
            Some(ButtonEvent::BothButtonsRelease) => Action::Reject,
            _ => Action::Nothing,
        }
    }

    /// How a prompt in this state ends on a run of events: accepted
    /// (`Some(true)`), rejected (`Some(false)`), or not within the run. Events
    /// behind the one that ends the prompt are not looked at.
    pub open spec fn outcome(self, events: Seq<Option<ButtonEvent>>) -> Option<bool>
        decreases events.len(),
    {
        if events.len() == 0 {
            None
        } else {
            match self.action(events[0]) {
                Action::Accept => Some(true),
                Action::Reject => Some(false),
                _ => self.next(events[0]).outcome(events.drop_first()),
            }
        }
    }

    /// The state in which a run of events leaves the prompt, where it stops at
    /// the event that ends the prompt.
    pub open spec fn after(self, events: Seq<Option<ButtonEvent>>) -> NavModel
        decreases events.len(),
    {
        if events.len() == 0 {
            self
        } else {
            match self.action(events[0]) {
                Action::Accept | Action::Reject => self.next(events[0]),
                _ => self.next(events[0]).after(events.drop_first()),
            }
        }
    }
}

/// A run of `count` releases of the right button.
pub open spec fn right_releases(count: nat) -> Seq<Option<ButtonEvent>> {
    Seq::new(count, |i: int| Some(ButtonEvent::RightButtonRelease))
}

/// The state of one prompt: the page shown and the number of pages.
#[derive(Clone, Copy, Debug)]
pub struct ScrollerState {
    current_page: usize,
    page_count: usize,
}

impl View for ScrollerState {
    type V = NavModel;

    closed spec fn view(&self) -> NavModel {
        NavModel { page: self.current_page as nat, page_count: self.page_count as nat }
    }
}

impl ScrollerState {
    /// The state in which a prompt of `page_count` pages begins: on its first
    /// page.
    pub fn new(page_count: usize) -> (state: ScrollerState)
        ensures
            state@ == NavModel::start(page_count as nat),
    {
        ScrollerState { current_page: 0, page_count }
    }

    /// Takes one event: moves to the page that it leads to and says what is to
    /// be done.
    pub fn handle(&mut self, event: Option<ButtonEvent>) -> (action: Action)
        ensures
            final(self)@ == old(self)@.next(event),
            action == old(self)@.action(event),
    {
        match event {
            Some(ButtonEvent::LeftButtonPress) => Action::ShowLeftPressed,
            Some(ButtonEvent::RightButtonPress) => Action::ShowRightPressed,
            Some(ButtonEvent::LeftButtonRelease) => {
                if self.current_page > 0 {
                    self.current_page = self.current_page - 1;
                }
                Action::Redraw
            },
            Some(ButtonEvent::RightButtonRelease) => {
                if self.current_page < self.page_count {
                    self.current_page = self.current_page + 1;
                }
                if self.current_page == self.page_count {
                    Action::Accept
                } else {
                    Action::Redraw
                }
            },
            Some(ButtonEvent::BothButtonsRelease) => Action::Reject,
            _ => Action::Nothing,
        }
    }

    /// The page shown, counted from 0; the page count once the prompt is
    /// accepted.
    pub fn current_page(&self) -> (page: usize)
        ensures
            page == self@.page,
    {
        self.current_page
    }

    /// The number of pages of the prompt.
    pub fn page_count(&self) -> (count: usize)
        ensures
            count == self@.page_count,
    {
        self.page_count
    }

    /// Whether a page is shown: the prompt has not been accepted.
    pub fn running(&self) -> (running: bool)
        ensures
            running == self@.running(),
    {
        self.current_page < self.page_count
    }
}

/// A prompt never shows a page behind its last: from a state within the page
/// count every event leads to one, and only an accepting event leads to the
/// page count itself.
pub proof fn lemma_page_stays_in_range(state: NavModel, event: Option<ButtonEvent>)
    requires
        state.page <= state.page_count,
    ensures
        state.next(event).page <= state.page_count,
        state.next(event).page_count == state.page_count,
        state.running() && state.action(event) != Action::Accept ==> state.next(event).running(),
{
}

/// Releasing the right button again and again from the first page leads page
/// by page through the prompt without ending it, as long as there are fewer
/// releases than pages.
pub proof fn lemma_right_releases_page_forward(page_count: nat, count: nat)
    requires
        count < page_count,
    ensures
        NavModel::start(page_count).outcome(right_releases(count)) is None,
        NavModel::start(page_count).after(right_releases(count)) == (NavModel {
            page: count,
            page_count,
        }),
{
    lemma_right_releases_from(NavModel::start(page_count), count);
}

/// As many releases of the right button as the prompt has pages end it
/// accepted, and the last of them does.
pub proof fn lemma_right_releases_accept(page_count: nat)
    requires
        page_count >= 1,
    ensures
        NavModel::start(page_count).outcome(right_releases(page_count)) == Some(true),
        NavModel::start(page_count).outcome(right_releases((page_count - 1) as nat)) is None,
        NavModel::start(page_count).after(right_releases(page_count)).page == page_count,
{
    lemma_right_releases_from(NavModel::start(page_count), page_count);
    lemma_right_releases_from(NavModel::start(page_count), (page_count - 1) as nat);
}

/// From any page, right releases step forward one page each until the one
/// that reaches the page count, which accepts.
proof fn lemma_right_releases_from(state: NavModel, count: nat)
    requires
        state.page + count <= state.page_count,
    ensures
        state.page + count < state.page_count ==> state.outcome(right_releases(count)) is None,
        state.page + count == state.page_count && count > 0 ==> state.outcome(
            right_releases(count),
        ) == Some(true),
        state.after(right_releases(count)) == (NavModel {
            page: state.page + count,
            page_count: state.page_count,
        }),
    decreases count,
{
    let events = right_releases(count);
    if count > 0 {
        let event = Some(ButtonEvent::RightButtonRelease);
        assert(events[0] == event);
        assert(events.drop_first() =~= right_releases((count - 1) as nat));
        if state.page + 1 < state.page_count {
            lemma_right_releases_from(state.next(event), (count - 1) as nat);
        } else {
            assert(count == 1);
        }
    }
}

/// Releasing both buttons rejects the prompt at once, from any state; and
/// behind any run of events that has not ended the prompt it ends it
/// rejected.
pub proof fn lemma_both_release_rejects(state: NavModel, before: Seq<Option<ButtonEvent>>)
    ensures
        state.action(Some(ButtonEvent::BothButtonsRelease)) == Action::Reject,
        state.outcome(before) is None ==> state.outcome(
            before.push(Some(ButtonEvent::BothButtonsRelease)),
        ) == Some(false),
    decreases before.len(),
{
    let all = before.push(Some(ButtonEvent::BothButtonsRelease));
    if before.len() == 0 {
        assert(all[0] == Some(ButtonEvent::BothButtonsRelease));
    } else {
        assert(all[0] == before[0]);
        assert(all.drop_first() =~= before.drop_first().push(
            Some(ButtonEvent::BothButtonsRelease),
        ));
        lemma_both_release_rejects(state.next(before[0]), before.drop_first());
    }
}

/// Releasing the left button on the first page changes nothing but has the
/// page drawn again.
pub proof fn lemma_left_release_on_first_page(page_count: nat)
    ensures
        NavModel::start(page_count).next(Some(ButtonEvent::LeftButtonRelease)) == NavModel::start(
            page_count,
        ),
        NavModel::start(page_count).action(Some(ButtonEvent::LeftButtonRelease))
            == Action::Redraw,
{
}

} // verus!
