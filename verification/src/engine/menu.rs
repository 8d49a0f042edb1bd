//! The main menu: New Game, [Continue], Quit.

use vstd::prelude::*;

verus! {

/// Selection value that signals that Quit was chosen.
pub const QUIT_SELECTION: u8 = 255;

/// What the main menu remembers between frames.
#[derive(Debug, Clone, Copy, PartialEq, Eq, Structural)]
pub struct MenuState {
    /// 0 = New Game, 1 = Continue (if there is a save), last = Quit.
    pub selection: u8,
    pub up_prev: bool,
    pub down_prev: bool,
}

/// What the engine must do after a menu frame.
#[derive(Debug, Clone, Copy, PartialEq, Eq, Structural)]
pub enum MenuAction {
    Stay,
    NewGame,
    ContinueSaved,
    Quit,
}

/// Index of the Quit entry.
pub open spec fn last_entry(has_save: bool) -> int {
    if has_save {
        2
    } else {
        1
    }
}

/// Selection after the up and down keys of one frame (edge triggered).
pub open spec fn moved_selection(s: MenuState, up: bool, down: bool, has_save: bool) -> int {
    let after_up = if up && !s.up_prev && s.selection > 0 {
        s.selection - 1
    } else {
        s.selection as int
    };
    if down && !s.down_prev && after_up < last_entry(has_save) {
        after_up + 1
    } else {
        after_up
    }
}

/// One frame of the main menu: move with up/down, confirm with `confirm`.
pub fn menu_step(state: &mut MenuState, up: bool, down: bool, confirm: bool, has_save: bool) -> (r: MenuAction)
    ensures
        final(state).up_prev == up,
        final(state).down_prev == down,
        ({
            let sel = moved_selection(*old(state), up, down, has_save);
            &&& r == (if !confirm {
                MenuAction::Stay
            } else if sel == 0 {
                MenuAction::NewGame
            } else if sel == 1 && has_save {
                MenuAction::ContinueSaved
            } else if sel == last_entry(has_save) {
                MenuAction::Quit
            } else {
                MenuAction::Stay
            })
            &&& final(state).selection == (if r == MenuAction::Quit {
                QUIT_SELECTION as int
            } else {
                sel
            })
        }),
{
    if up && !state.up_prev {
        if state.selection > 0 {
            state.selection -= 1;
        }
    }
    if down && !state.down_prev {
        let max: u8 = if has_save {
            2
        } else {
            1
        };
        if state.selection < max {
            state.selection += 1;
        }
    }
    state.up_prev = up;
    state.down_prev = down;
    if confirm {
        let max: u8 = if has_save {
            2
        } else {
            1
        };
        if state.selection == 0 {
            return MenuAction::NewGame;
        } else if state.selection == 1 && has_save {
            return MenuAction::ContinueSaved;
        } else if state.selection == max {
            state.selection = QUIT_SELECTION;
            return MenuAction::Quit;
        }
    }
    MenuAction::Stay
}

} // verus!
