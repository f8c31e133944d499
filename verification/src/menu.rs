//! The editor's menu: which of its items can be chosen, which are checked,
//! and what the editor is to do when one is chosen.

use vstd::prelude::*;
use crate::chars::{text_matches, to_chars};

verus! {

/// What the editor is asked to do when an item of its menu is chosen.
#[derive(Debug, Clone, Copy, PartialEq, Eq, Structural)]
pub enum MenuCommand {
    NewFile,
    OpenFile,
    SaveFile,
    SaveFileAs,
    Exit,
    Cut,
    Copy,
    Paste,
    UseLightTheme,
    UseDarkTheme,
    About,
}

/// What the editor's menu knows of the editor.
#[derive(Debug, Clone, Copy, PartialEq, Eq, Structural)]
pub struct EditorMenuHandler {
    pub buffer_has_changes: bool,
    pub has_filename: bool,
    pub theme_is_light: bool,
    pub theme_is_dark: bool,
}

impl Default for EditorMenuHandler {
    /// Nothing to save, no file, the dark theme.
    fn default() -> (handler: EditorMenuHandler)
        ensures
            handler == (EditorMenuHandler {
                buffer_has_changes: false,
                has_filename: false,
                theme_is_light: false,
                theme_is_dark: true,
            }),
    {
        EditorMenuHandler {
            buffer_has_changes: false,
            has_filename: false,
            theme_is_light: false,
            theme_is_dark: true,
        }
    }
}

impl EditorMenuHandler {
    /// The command that choosing `action` gives in this state, if any.  A
    /// theme that is already in use is not asked for again.
    pub open spec fn command_for(self, action: Seq<char>) -> Option<MenuCommand> {
        if action == "file.new"@ {
            Some(MenuCommand::NewFile)
        } else if action == "file.open"@ {
            Some(MenuCommand::OpenFile)
        } else if action == "file.save"@ {
            Some(MenuCommand::SaveFile)
        } else if action == "file.save_as"@ {
            Some(MenuCommand::SaveFileAs)
        } else if action == "file.exit"@ {
            Some(MenuCommand::Exit)
        } else if action == "edit.cut"@ {
            Some(MenuCommand::Cut)
        } else if action == "edit.copy"@ {
            Some(MenuCommand::Copy)
        } else if action == "edit.paste"@ {
            Some(MenuCommand::Paste)
        } else if action == "view.theme.light"@ {
            if self.theme_is_light {
                None
            } else {
                Some(MenuCommand::UseLightTheme)
            }
        } else if action == "view.theme.dark"@ {
            if self.theme_is_dark {
                None
            } else {
                Some(MenuCommand::UseDarkTheme)
            }
        } else if action == "help.about"@ {
            Some(MenuCommand::About)
        } else {
            None
        }
    }

    /// The state after `command`: a change of theme is recorded, nothing
    /// else changes the state.
    pub open spec fn after(self, command: Option<MenuCommand>) -> EditorMenuHandler {
        match command {
            Some(MenuCommand::UseLightTheme) => EditorMenuHandler {
                theme_is_light: true,
                theme_is_dark: false,
                ..self
            },
            Some(MenuCommand::UseDarkTheme) => EditorMenuHandler {
                theme_is_light: false,
                theme_is_dark: true,
                ..self
            },
            _ => self,
        }
    }

    /// The state of the menu for an editor in the given state.
    pub fn new(buffer_has_changes: bool, has_filename: bool, theme_is_light: bool) -> (handler:
        EditorMenuHandler)
        ensures
            handler == (EditorMenuHandler {
                buffer_has_changes,
                has_filename,
                theme_is_light,
                theme_is_dark: !theme_is_light,
            }),
    {
        let mut new_handler = EditorMenuHandler {
            buffer_has_changes,
            has_filename,
            theme_is_light: false,
            theme_is_dark: true,
        };
        if theme_is_light {
            new_handler.theme_is_light = true;
            new_handler.theme_is_dark = false;
        } else {
            new_handler.theme_is_dark = true;
            new_handler.theme_is_light = false;
        }
        new_handler
    }

    /// Records that the item `action_id` was chosen, and says what the
    /// editor is to do about it.
    pub fn handle_menu_action(&mut self, action_id: &str) -> (command: Option<MenuCommand>)
        ensures
            command == old(self).command_for(action_id@),
            *final(self) == old(self).after(command),
    {
        let action = to_chars(action_id);
        if text_matches("file.new", &action) {
            Some(MenuCommand::NewFile)
        } else if text_matches("file.open", &action) {
            Some(MenuCommand::OpenFile)
        } else if text_matches("file.save", &action) {
            Some(MenuCommand::SaveFile)
        } else if text_matches("file.save_as", &action) {
            Some(MenuCommand::SaveFileAs)
        } else if text_matches("file.exit", &action) {
            Some(MenuCommand::Exit)
        } else if text_matches("edit.cut", &action) {
            Some(MenuCommand::Cut)
        } else if text_matches("edit.copy", &action) {
            Some(MenuCommand::Copy)
        } else if text_matches("edit.paste", &action) {
            Some(MenuCommand::Paste)
        } else if text_matches("view.theme.light", &action) {
            if !self.theme_is_light {
                self.theme_is_light = true;
                self.theme_is_dark = false;
                Some(MenuCommand::UseLightTheme)
            } else {
                None
            }
        } else if text_matches("view.theme.dark", &action) {
            if !self.theme_is_dark {
                self.theme_is_dark = true;
                self.theme_is_light = false;
                Some(MenuCommand::UseDarkTheme)
            } else {
                None
            }
        } else if text_matches("help.about", &action) {
            Some(MenuCommand::About)
        } else {
            None
        }
    }

    /// Whether the item can be chosen: saving needs changes and a file; every
    /// other item can always be chosen.
    pub fn is_item_enabled(&self, item_id: &str) -> (enabled: bool)
        ensures
            enabled == (item_id@ == "file.save"@ ==> self.buffer_has_changes && self.has_filename),
    {
        let item = to_chars(item_id);
        if text_matches("file.save", &item) {
            self.buffer_has_changes && self.has_filename
        } else {
            true
        }
    }

    /// Whether the item is checked: the two theme items are checked where
    /// their theme is in use; no other item can be checked.
    pub fn is_item_checked(&self, item_id: &str) -> (checked: Option<bool>)
        ensures
            checked == if item_id@ == "view.theme.light"@ {
                Some(self.theme_is_light)
            } else if item_id@ == "view.theme.dark"@ {
                Some(self.theme_is_dark)
            } else {
                None
            },
    {
        let item = to_chars(item_id);
        if text_matches("view.theme.light", &item) {
            Some(self.theme_is_light)
        } else if text_matches("view.theme.dark", &item) {
            Some(self.theme_is_dark)
        } else {
            None
        }
    }
}

} // verus!
