use vstd::prelude::*;

use crate::app::{
    copied_to_clipboard, cut_to_clipboard, delete_cancelled, delete_requested, mark_toggled,
    marks_cleared, moved_down, moved_up, App, AppView,
};

verus! {

/// A key of the keyboard.
#[derive(PartialEq, Eq, Structural, Clone, Copy, Debug)]
pub enum KeyCode {
    Char(char),
    Esc,
    Up,
    Down,
    Left,
    Right,
    Enter,
    Backspace,
    Other,
}

/// The modifier keys held with a key: none, exactly Shift, exactly Control,
/// or any other combination.
#[derive(PartialEq, Eq, Structural, Clone, Copy, Debug)]
pub enum Modifiers {
    Plain,
    Shift,
    Control,
    Other,
}

/// A keyboard event.
#[derive(PartialEq, Eq, Structural, Clone, Copy, Debug)]
pub struct Key {
    pub code: KeyCode,
    pub modifiers: Modifiers,
    /// A press, as opposed to a release or a repeat.
    pub pressed: bool,
}

/// The work a key leaves for the caller, which reads and writes the file
/// system and the terminal.
#[derive(PartialEq, Eq, Structural, Clone, Copy, Debug)]
pub enum Command {
    /// Nothing more to do.
    Continue,
    /// Leave the program.
    Quit,
    /// Carry out the pending deletion.
    Delete,
    /// Enter the highlighted directory.
    Enter,
    /// Go to the parent directory.
    GoUp,
    /// Read the directory again.
    Reload,
    /// Run a shell in the directory.
    Shell,
    /// Paste the clipboard into the directory.
    Paste,
}

/// The state and the command after `key`. While a deletion awaits
/// confirmation only `y`/`Y` (carry it out) and `n`/`N`/Esc (cancel it)
/// count.
pub open spec fn key_step(v: AppView, key: Key) -> (AppView, Command) {
    if !key.pressed {
        (v, Command::Continue)
    } else if v.pending_delete is Some {
        match key.code {
            KeyCode::Char(c) => if c == 'y' || c == 'Y' {
                (v, Command::Delete)
            } else if c == 'n' || c == 'N' {
                (delete_cancelled(v), Command::Continue)
            } else {
                (v, Command::Continue)
            },
            KeyCode::Esc => (delete_cancelled(v), Command::Continue),
            _ => (v, Command::Continue),
        }
    } else {
        match key.modifiers {
            Modifiers::Plain => match key.code {
                KeyCode::Esc => (v, Command::Quit),
                KeyCode::Down => (moved_down(v), Command::Continue),
                KeyCode::Up => (moved_up(v), Command::Continue),
                KeyCode::Enter => (v, Command::Enter),
                KeyCode::Right => (v, Command::Enter),
                KeyCode::Backspace => (v, Command::GoUp),
                KeyCode::Left => (v, Command::GoUp),
                KeyCode::Char(c) => if c == 'q' {
                    (v, Command::Quit)
                } else if c == 'j' {
                    (moved_down(v), Command::Continue)
                } else if c == 'k' {
                    (moved_up(v), Command::Continue)
                } else if c == 'r' {
                    (v, Command::Reload)
                } else if c == '.' {
                    (AppView { show_hidden: !v.show_hidden, ..v }, Command::Reload)
                } else if c == '!' {
                    (v, Command::Shell)
                } else if c == ' ' {
                    (mark_toggled(v), Command::Continue)
                } else if c == 'u' {
                    (marks_cleared(v), Command::Continue)
                } else if c == 'd' {
                    (delete_requested(v), Command::Continue)
                } else {
                    (v, Command::Continue)
                },
                KeyCode::Other => (v, Command::Continue),
            },
            Modifiers::Shift => match key.code {
                KeyCode::Up => (moved_up(mark_toggled(v)), Command::Continue),
                KeyCode::Down => (moved_down(mark_toggled(v)), Command::Continue),
                KeyCode::Char(c) => if c == 'k' {
                    (moved_up(mark_toggled(v)), Command::Continue)
                } else if c == 'j' {
                    (moved_down(mark_toggled(v)), Command::Continue)
                } else {
                    (v, Command::Continue)
                },
                _ => (v, Command::Continue),
            },
            Modifiers::Control => match key.code {
                KeyCode::Char(c) => if c == 'c' {
                    (copied_to_clipboard(v), Command::Continue)
                } else if c == 'x' {
                    (cut_to_clipboard(v), Command::Continue)
                } else if c == 'v' {
                    (v, Command::Paste)
                } else {
                    (v, Command::Continue)
                },
                _ => (v, Command::Continue),
            },
            Modifiers::Other => (v, Command::Continue),
        }
    }
}

impl App {
    /// Applies a key: changes the state as far as no file system or terminal
    /// work is needed, and returns the command for the rest.
    pub fn handle_key(&mut self, key: Key) -> (cmd: Command)
        requires
            old(self).wf(),
        ensures
            final(self).wf(),
            (final(self)@, cmd) == key_step(old(self)@, key),
    {
        if !key.pressed {
            return Command::Continue;
        }
        if self.has_pending_delete() {
            match key.code {
                KeyCode::Char(c) => {
                    if c == 'y' || c == 'Y' {
                        return Command::Delete;
                    } else if c == 'n' || c == 'N' {
                        self.confirm_no();
                    }
                },
                KeyCode::Esc => self.confirm_no(),
                _ => {},
            }
            return Command::Continue;
        }
        match key.modifiers {
            Modifiers::Plain => match key.code {
                KeyCode::Esc => Command::Quit,
                KeyCode::Down => {
                    self.move_down();
                    Command::Continue
                },
                KeyCode::Up => {
                    self.move_up();
                    Command::Continue
                },
                KeyCode::Enter | KeyCode::Right => Command::Enter,
                KeyCode::Backspace | KeyCode::Left => Command::GoUp,
                KeyCode::Char(c) => {
                    if c == 'q' {
                        Command::Quit
                    } else if c == 'j' {
                        self.move_down();
                        Command::Continue
                    } else if c == 'k' {
                        self.move_up();
                        Command::Continue
                    } else if c == 'r' {
                        Command::Reload
                    } else if c == '.' {
                        self.toggle_hidden();
                        Command::Reload
                    } else if c == '!' {
                        Command::Shell
                    } else if c == ' ' {
                        self.toggle_mark();
                        Command::Continue
                    } else if c == 'u' {
                        self.clear_marks();
                        Command::Continue
                    } else if c == 'd' {
                        self.request_delete();
                        Command::Continue
                    } else {
                        Command::Continue
                    }
                },
                KeyCode::Other => Command::Continue,
            },
            Modifiers::Shift => match key.code {
                KeyCode::Up => {
                    self.toggle_mark();
                    self.move_up();
                    Command::Continue
                },
                KeyCode::Down => {
                    self.toggle_mark();
                    self.move_down();
                    Command::Continue
                },
                KeyCode::Char(c) => {
                    if c == 'k' {
                        self.toggle_mark();
                        self.move_up();
                    } else if c == 'j' {
                        self.toggle_mark();
                        self.move_down();
                    }
                    Command::Continue
                },
                _ => Command::Continue,
            },
            Modifiers::Control => match key.code {
                KeyCode::Char(c) => {
                    if c == 'c' {
                        self.copy_to_clipboard();
                        Command::Continue
                    } else if c == 'x' {
                        self.cut_to_clipboard();
                        Command::Continue
                    } else if c == 'v' {
                        Command::Paste
                    } else {
                        Command::Continue
                    }
                },
                _ => Command::Continue,
            },
            Modifiers::Other => Command::Continue,
        }
    }
}

} // verus!
