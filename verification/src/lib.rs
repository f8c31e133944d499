//! The core of a code editor: a rope-backed text buffer that is edited by
//! character index, the cursor position derived from an offset, and a
//! line-by-line lexical highlighter that renders text as coloured markup.

pub mod buffer;
pub mod chars;
pub mod color_table;
pub mod cursor;
pub mod highlighter;
pub mod keys;
pub mod language;
pub mod lines;
pub mod menu;
pub mod number;
pub mod rope;
pub mod scanner;
pub mod spans;
pub mod theme;
pub mod user;

pub use buffer::{Buffer, OutOfBounds};
pub use cursor::CursorPosition;
pub use highlighter::SyntaxHighlighter;
pub use menu::EditorMenuHandler;
pub use theme::{available_themes, light_theme, Theme, UiColors};
pub use user::User;
