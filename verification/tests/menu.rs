use editor_core::menu::{EditorMenuHandler, MenuCommand};

#[test]
fn default_handler() {
    assert_eq!(
        EditorMenuHandler::default(),
        EditorMenuHandler {
            buffer_has_changes: false,
            has_filename: false,
            theme_is_light: false,
            theme_is_dark: true,
        }
    );
}

#[test]
fn new_handler_sets_exactly_one_theme() {
    assert_eq!(
        EditorMenuHandler::new(true, false, true),
        EditorMenuHandler {
            buffer_has_changes: true,
            has_filename: false,
            theme_is_light: true,
            theme_is_dark: false,
        }
    );
    assert_eq!(
        EditorMenuHandler::new(false, true, false),
        EditorMenuHandler {
            buffer_has_changes: false,
            has_filename: true,
            theme_is_light: false,
            theme_is_dark: true,
        }
    );
}

#[test]
fn save_needs_changes_and_a_file() {
    assert!(EditorMenuHandler::new(true, true, false).is_item_enabled("file.save"));
    assert!(!EditorMenuHandler::new(true, false, false).is_item_enabled("file.save"));
    assert!(!EditorMenuHandler::new(false, true, false).is_item_enabled("file.save"));
    assert!(!EditorMenuHandler::new(false, false, false).is_item_enabled("file.save"));
}

#[test]
fn other_items_are_always_enabled() {
    let handler = EditorMenuHandler::new(false, false, false);
    for item in ["file.new", "file.open", "file.save_as", "edit.cut", "help.about", "", "x"] {
        assert!(handler.is_item_enabled(item));
    }
}

#[test]
fn theme_items_are_checked_by_theme() {
    let light = EditorMenuHandler::new(false, false, true);
    assert_eq!(light.is_item_checked("view.theme.light"), Some(true));
    assert_eq!(light.is_item_checked("view.theme.dark"), Some(false));
    let dark = EditorMenuHandler::new(false, false, false);
    assert_eq!(dark.is_item_checked("view.theme.light"), Some(false));
    assert_eq!(dark.is_item_checked("view.theme.dark"), Some(true));
    assert_eq!(dark.is_item_checked("file.save"), None);
    assert_eq!(dark.is_item_checked(""), None);
}

#[test]
fn actions_give_commands() {
    let actions = [
        ("file.new", MenuCommand::NewFile),
        ("file.open", MenuCommand::OpenFile),
        ("file.save", MenuCommand::SaveFile),
        ("file.save_as", MenuCommand::SaveFileAs),
        ("file.exit", MenuCommand::Exit),
        ("edit.cut", MenuCommand::Cut),
        ("edit.copy", MenuCommand::Copy),
        ("edit.paste", MenuCommand::Paste),
        ("help.about", MenuCommand::About),
    ];
    for (action, command) in actions {
        let mut handler = EditorMenuHandler::new(true, true, false);
        assert_eq!(handler.handle_menu_action(action), Some(command));
        assert_eq!(handler, EditorMenuHandler::new(true, true, false));
    }
}

#[test]
fn unknown_actions_do_nothing() {
    for action in ["", "file", "file.news", "File.New", "view.theme", "edit.undo"] {
        let mut handler = EditorMenuHandler::new(true, true, true);
        assert_eq!(handler.handle_menu_action(action), None);
        assert_eq!(handler, EditorMenuHandler::new(true, true, true));
    }
}

#[test]
fn choosing_the_other_theme_switches() {
    let mut handler = EditorMenuHandler::new(true, false, false);
    assert_eq!(handler.handle_menu_action("view.theme.light"), Some(MenuCommand::UseLightTheme));
    assert_eq!(handler, EditorMenuHandler::new(true, false, true));
    assert_eq!(handler.handle_menu_action("view.theme.dark"), Some(MenuCommand::UseDarkTheme));
    assert_eq!(handler, EditorMenuHandler::new(true, false, false));
}

#[test]
fn choosing_the_theme_in_use_does_nothing() {
    let mut handler = EditorMenuHandler::new(false, false, true);
    assert_eq!(handler.handle_menu_action("view.theme.light"), None);
    assert_eq!(handler, EditorMenuHandler::new(false, false, true));
    let mut handler = EditorMenuHandler::new(false, false, false);
    assert_eq!(handler.handle_menu_action("view.theme.dark"), None);
    assert_eq!(handler, EditorMenuHandler::new(false, false, false));
}
