//! The key-handling state machine of the browser.
//!
//! A key press, already decoded to a plain value by the terminal side,
//! drives the browsing state and names the one outside action the caller
//! must carry out: open a file, delete the file in view, or delete every
//! marked file.

use vstd::prelude::*;

use crate::app_state::App;
use crate::app_state::Mode;
use crate::app_state::clear_marks_rel;
use crate::app_state::exit_tutorial_rel;
use crate::app_state::next_file_rel;
use crate::app_state::next_group_rel;
use crate::app_state::next_tutorial_rel;
use crate::app_state::previous_file_rel;
use crate::app_state::previous_group_rel;
use crate::app_state::toggle_mark_rel;

verus! {

/// What the caller must do after a key is handled.
#[derive(Clone, Copy, PartialEq, Eq, Structural, Debug)]
pub enum KeyAction {
    /// Nothing outside the browsing state.
    Nothing,
    /// Open the file in view.
    OpenFile,
    /// Delete the file in view.
    DeleteFile,
    /// Delete every marked file.
    DeleteMarked,
}

/// A key press as the engine sees it; the terminal side decodes its own
/// event type to this.
#[derive(Clone, Copy, PartialEq, Eq, Structural, Debug)]
pub enum KeyPress {
    Up,
    Down,
    Tab,
    BackTab,
    Enter,
    Home,
    End,
    PageUp,
    PageDown,
    Char(char),
    Other,
}

/// How a key drives the tutorial: stepping keys advance it, Enter and `q`
/// leave it, everything else does nothing.
pub open spec fn tutorial_transition(a: App, key: KeyPress, b: App, r: KeyAction) -> bool {
    &&& r is Nothing
    &&& match key {
        KeyPress::Up | KeyPress::Down | KeyPress::Tab => next_tutorial_rel(a, b),
        KeyPress::Enter => exit_tutorial_rel(a, b),
        KeyPress::Char(c) => {
            if c == 'j' || c == 'k' || c == ' ' {
                next_tutorial_rel(a, b)
            } else if c == 'q' {
                exit_tutorial_rel(a, b)
            } else {
                b == a
            }
        },
        _ => b == a,
    }
}

/// How a key drives the browser in its normal mode.
pub open spec fn normal_transition(a: App, key: KeyPress, b: App, r: KeyAction) -> bool {
    let n = a.duplicate_groups@.len() as int;
    match key {
        KeyPress::Down => next_group_rel(a, b) && r is Nothing,
        KeyPress::Up => previous_group_rel(a, b) && r is Nothing,
        KeyPress::Tab => next_file_rel(a, b) && r is Nothing,
        KeyPress::BackTab => previous_file_rel(a, b) && r is Nothing,
        KeyPress::PageDown => {
            &&& r is Nothing
            &&& if n > 0 {
                let tgt = if a.selected_group + 5 <= n - 1 {
                    a.selected_group + 5
                } else {
                    n - 1
                };
                b == (App {
                    selected_group: tgt as usize,
                    selected_file: (if tgt != a.selected_group {
                        0int
                    } else {
                        a.selected_file as int
                    }) as usize,
                    ..a
                })
            } else {
                b == a
            }
        },
        KeyPress::PageUp => {
            &&& r is Nothing
            &&& if a.selected_group > 0 {
                let tgt = if a.selected_group >= 5 {
                    a.selected_group - 5
                } else {
                    0int
                };
                b == (App { selected_group: tgt as usize, selected_file: 0usize, ..a })
            } else {
                b == a
            }
        },
        KeyPress::Home => b == (App { selected_group: 0usize, selected_file: 0usize, ..a })
            && r is Nothing,
        KeyPress::End => {
            &&& r is Nothing
            &&& b == (App {
                selected_group: (if n == 0 {
                    0int
                } else {
                    n - 1
                }) as usize,
                selected_file: 0usize,
                ..a
            })
        },
        KeyPress::Enter => {
            &&& r is Nothing
            &&& if a.show_tutorial {
                exit_tutorial_rel(a, b)
            } else {
                b == a
            }
        },
        KeyPress::Char(c) => {
            if c == 'q' {
                b == (App { should_quit: true, ..a }) && r is Nothing
            } else if c == '?' {
                b == (App { mode: Mode::Help, ..a }) && r is Nothing
            } else if c == 'j' {
                next_group_rel(a, b) && r is Nothing
            } else if c == 'k' {
                previous_group_rel(a, b) && r is Nothing
            } else if c == 'h' {
                previous_file_rel(a, b) && r is Nothing
            } else if c == ' ' {
                toggle_mark_rel(a, b) && r is Nothing
            } else if c == 'o' {
                b == a && r is OpenFile
            } else if c == 'd' {
                b == a && r is DeleteFile
            } else if c == 'D' {
                b == a && r == (if a.marked_files@.len() > 0 {
                    KeyAction::DeleteMarked
                } else {
                    KeyAction::Nothing
                })
            } else if c == 'u' {
                clear_marks_rel(a, b) && r is Nothing
            } else {
                b == a && r is Nothing
            }
        },
        KeyPress::Other => b == a && r is Nothing,
    }
}

/// Drives the browsing state by one key press and names the outside
/// action the caller must carry out.
pub fn handle_key_event(key: KeyPress, app: &mut App) -> (action: KeyAction)
    requires
        old(app).wf(),
        old(app).tutorial_step < usize::MAX,
    ensures
        final(app).wf(),
        old(app).mode == Mode::Tutorial ==> tutorial_transition(
            *old(app),
            key,
            *final(app),
            action,
        ),
        old(app).mode == Mode::Help ==> (*final(app) == (App {
            mode: Mode::Normal,
            ..*old(app)
        }) && action is Nothing),
        old(app).mode == Mode::Normal ==> normal_transition(*old(app), key, *final(app), action),
{
    if app.mode == Mode::Tutorial {
        match key {
            KeyPress::Up | KeyPress::Down => {
                app.next_tutorial_step();
                KeyAction::Nothing
            },
            KeyPress::Tab => {
                app.next_tutorial_step();
                KeyAction::Nothing
            },
            KeyPress::Enter => {
                app.exit_tutorial();
                KeyAction::Nothing
            },
            KeyPress::Char(c) => {
                if c == 'j' || c == 'k' || c == ' ' {
                    app.next_tutorial_step();
                } else if c == 'q' {
                    app.exit_tutorial();
                }
                KeyAction::Nothing
            },
            _ => KeyAction::Nothing,
        }
    } else if app.mode == Mode::Help {
        app.hide_help();
        KeyAction::Nothing
    } else {
        match key {
            KeyPress::Down => {
                app.next_group();
                KeyAction::Nothing
            },
            KeyPress::Up => {
                app.previous_group();
                KeyAction::Nothing
            },
            KeyPress::Tab => {
                app.next_file();
                KeyAction::Nothing
            },
            KeyPress::BackTab => {
                app.previous_file();
                KeyAction::Nothing
            },
            KeyPress::PageDown => {
                let ghost s0 = *app;
                app.next_group();
                let ghost s1 = *app;
                app.next_group();
                let ghost s2 = *app;
                app.next_group();
                let ghost s3 = *app;
                app.next_group();
                let ghost s4 = *app;
                app.next_group();
                proof {
                    vstd::std_specs::vec::axiom_spec_len(&s0.duplicate_groups);
                    assert(next_group_rel(s0, s1));
                    assert(next_group_rel(s1, s2));
                    assert(next_group_rel(s2, s3));
                    assert(next_group_rel(s3, s4));
                    assert(next_group_rel(s4, *app));
                }
                KeyAction::Nothing
            },
            KeyPress::PageUp => {
                let ghost s0 = *app;
                app.previous_group();
                let ghost s1 = *app;
                app.previous_group();
                let ghost s2 = *app;
                app.previous_group();
                let ghost s3 = *app;
                app.previous_group();
                let ghost s4 = *app;
                app.previous_group();
                proof {
                    vstd::std_specs::vec::axiom_spec_len(&s0.duplicate_groups);
                    assert(previous_group_rel(s0, s1));
                    assert(previous_group_rel(s1, s2));
                    assert(previous_group_rel(s2, s3));
                    assert(previous_group_rel(s3, s4));
                    assert(previous_group_rel(s4, *app));
                }
                KeyAction::Nothing
            },
            KeyPress::Home => {
                app.selected_group = 0;
                app.selected_file = 0;
                KeyAction::Nothing
            },
            KeyPress::End => {
                let gc = app.group_count();
                app.selected_group = if gc == 0 {
                    0
                } else {
                    gc - 1
                };
                app.selected_file = 0;
                KeyAction::Nothing
            },
            KeyPress::Enter => {
                if app.show_tutorial {
                    app.exit_tutorial();
                }
                KeyAction::Nothing
            },
            KeyPress::Char(c) => {
                if c == 'q' {
                    app.quit();
                    KeyAction::Nothing
                } else if c == '?' {
                    app.show_help();
                    KeyAction::Nothing
                } else if c == 'j' {
                    app.next_group();
                    KeyAction::Nothing
                } else if c == 'k' {
                    app.previous_group();
                    KeyAction::Nothing
                } else if c == 'h' {
                    app.previous_file();
                    KeyAction::Nothing
                } else if c == ' ' {
                    app.toggle_mark();
                    KeyAction::Nothing
                } else if c == 'o' {
                    KeyAction::OpenFile
                } else if c == 'd' {
                    KeyAction::DeleteFile
                } else if c == 'D' {
                    if app.marked_count() > 0 {
                        KeyAction::DeleteMarked
                    } else {
                        KeyAction::Nothing
                    }
                } else if c == 'u' {
                    app.clear_marks();
                    KeyAction::Nothing
                } else {
                    KeyAction::Nothing
                }
            },
            KeyPress::Other => KeyAction::Nothing,
        }
    }
}

} // verus!
