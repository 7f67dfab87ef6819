//! The decisions of the welcome screen: which arcanum is highlighted and
//! which one the player enters.

use vstd::prelude::*;

verus! {

/// Number of arcana on the menu.
pub const MENU_CARDS: usize = 3;

/// The menu input of one frame.
#[derive(Clone, Copy, PartialEq, Eq, Structural, Debug)]
pub struct MenuInput {
    /// The card under the mouse pointer (0, 1 or 2), if any.
    pub hover: Option<usize>,
    /// Right arrow or `D` pressed.
    pub next: bool,
    /// Left arrow or `A` pressed.
    pub prev: bool,
    /// Digit keys `1`, `2`, `3` pressed.
    pub key1: bool,
    pub key2: bool,
    pub key3: bool,
    /// `Enter` pressed or left click.
    pub confirm: bool,
}

/// The highlighted card after the pointer and the arrow keys of `input`:
/// hovering selects a card, then `next` moves one to the right and `prev`
/// one to the left, both wrapping around the three cards.
pub open spec fn menu_selection(sel: int, input: MenuInput) -> int {
    let s1 = match input.hover {
        Some(i) => i as int,
        None => sel,
    };
    let s2 = if input.next {
        (s1 + 1) % 3
    } else {
        s1
    };
    if input.prev {
        (s2 + 2) % 3
    } else {
        s2
    }
}

/// Runs one frame of the menu: updates the highlighted card `sel` and
/// returns the arcanum entered, if any. A digit key enters its arcanum
/// directly (the lowest digit wins); otherwise a confirmation enters the
/// highlighted one.
pub fn menu_step(sel: &mut usize, input: MenuInput) -> (picked: Option<usize>)
    requires
        input.hover matches Some(i) ==> i < MENU_CARDS,
    ensures
        *old(sel) < MENU_CARDS ==> *final(sel) < MENU_CARDS,
        input.key1 ==> *final(sel) == 0 && picked == Some(0usize),
        !input.key1 && input.key2 ==> *final(sel) == 1 && picked == Some(1usize),
        !input.key1 && !input.key2 && input.key3 ==> *final(sel) == 2 && picked == Some(2usize),
        !input.key1 && !input.key2 && !input.key3 ==> {
            &&& *final(sel) == menu_selection(*old(sel) as int, input)
            &&& picked == (if input.confirm {
                Some(*final(sel))
            } else {
                None
            })
        },
{
    if let Some(i) = input.hover {
        *sel = i;
    }
    if input.next {
        *sel = (*sel % 3 + 1) % 3;
    }
    if input.prev {
        *sel = (*sel % 3 + 2) % 3;
    }
    if input.key1 {
        *sel = 0;
        return Some(0);
    }
    if input.key2 {
        *sel = 1;
        return Some(1);
    }
    if input.key3 {
        *sel = 2;
        return Some(2);
    }
    if input.confirm {
        return Some(*sel);
    }
    None
}

/// Moving right then left on the menu, with nothing else pressed, comes
/// back to the card highlighted before, and so does moving left then
/// right.
pub proof fn lemma_menu_round_trip(sel: int, a: MenuInput, b: MenuInput)
    requires
        0 <= sel < 3,
        a.hover is None,
        b.hover is None,
        a.next && !a.prev,
        b.prev && !b.next,
    ensures
        menu_selection(menu_selection(sel, a), b) == sel,
        menu_selection(menu_selection(sel, b), a) == sel,
{
}

/// With no pointer over a card, `next` alone moves the highlight one card
/// to the right (from the last card back to the first), and `prev` alone
/// one card to the left (from the first card to the last).
pub proof fn lemma_menu_arrows(sel: int, input: MenuInput)
    requires
        0 <= sel < 3,
        input.hover is None,
    ensures
        input.next && !input.prev ==> menu_selection(sel, input) == (if sel == 2 {
            0
        } else {
            sel + 1
        }),
        input.prev && !input.next ==> menu_selection(sel, input) == (if sel == 0 {
            2
        } else {
            sel - 1
        }),
        !input.next && !input.prev ==> menu_selection(sel, input) == sel,
{
}

/// A card under the pointer becomes the highlighted one, whatever was
/// highlighted before, when no arrow is pressed.
pub proof fn lemma_menu_hover(sel: int, input: MenuInput)
    requires
        input.hover matches Some(i) && i < 3,
        !input.next,
        !input.prev,
    ensures
        menu_selection(sel, input) == input.hover.unwrap(),
{
}

} // verus!
