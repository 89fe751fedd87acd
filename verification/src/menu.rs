//! A menu of one line: the two buttons move through its items, and both
//! together choose.

use crate::navigation::ButtonEvent;
use vstd::prelude::*;

verus! {

/// What a menu can do. The buttons are mapped onto these by
/// [`handle_menu_button_event`].
pub trait Menu {
    /// What choosing an item can give.
    type BothResult;

    /// Goes to the item on the left.
    fn move_left(&mut self);

    /// Goes to the item on the right.
    fn move_right(&mut self);

    /// Chooses the current item. `None` where the menu is not done.
    fn handle_both(&mut self) -> Option<Self::BothResult>;

    /// The line to show for the current item.
    fn label(&self) -> &str;
}

/// Hands a button event to a menu: a release of the left or the right button
/// moves, a release of both chooses, and any other event does nothing. Only a
/// choice gives a result.
pub fn handle_menu_button_event<M: Menu>(menu: &mut M, btn: ButtonEvent) -> (r: Option<
    <M as Menu>::BothResult,
>)
    ensures
        btn == ButtonEvent::LeftButtonRelease ==> r is None && exists|moved: &mut M|
            {
                &&& *moved == *old(menu)
                &&& *final(moved) == *final(menu)
                &&& call_ensures(M::move_left, (moved,), ())
            },
        btn == ButtonEvent::RightButtonRelease ==> r is None && exists|moved: &mut M|
            {
                &&& *moved == *old(menu)
                &&& *final(moved) == *final(menu)
                &&& call_ensures(M::move_right, (moved,), ())
            },
        btn == ButtonEvent::BothButtonsRelease ==> exists|asked: &mut M|
            {
                &&& *asked == *old(menu)
                &&& *final(asked) == *final(menu)
                &&& call_ensures(M::handle_both, (asked,), r)
            },
        btn != ButtonEvent::LeftButtonRelease && btn != ButtonEvent::RightButtonRelease && btn
            != ButtonEvent::BothButtonsRelease ==> r is None && *final(menu) == *old(menu),
{
    match btn {
        ButtonEvent::LeftButtonRelease => {
            let move_left = M::move_left;
            move_left(menu);
        },
        ButtonEvent::RightButtonRelease => {
            let move_right = M::move_right;
            move_right(menu);
        },
        ButtonEvent::BothButtonsRelease => {
            let handle_both = M::handle_both;
            return handle_both(menu);
        },
        _ => (),
    }
    None
}

} // verus!
