//! Colour themes: the editor's two built-in themes, and the lookup of the
//! colour in which text of a class is shown.

use vstd::prelude::*;
use crate::chars::{contains_text, text_contains, text_matches, to_chars};
use crate::color_table::ColorTable;

verus! {

/// Colours of the editor's own chrome.
#[derive(Debug, Clone, PartialEq)]
pub struct UiColors {
    pub toolbar_bg: String,
    pub toolbar_fg: String,
    pub statusbar_bg: String,
    pub statusbar_fg: String,
    pub button: String,
    pub button_hover: String,
    pub button_active: String,
}

/// What a `UiColors` value holds, as character sequences.
pub struct UiColorsView {
    pub toolbar_bg: Seq<char>,
    pub toolbar_fg: Seq<char>,
    pub statusbar_bg: Seq<char>,
    pub statusbar_fg: Seq<char>,
    pub button: Seq<char>,
    pub button_hover: Seq<char>,
    pub button_active: Seq<char>,
}

impl View for UiColors {
    type V = UiColorsView;

    open spec fn view(&self) -> UiColorsView {
        UiColorsView {
            toolbar_bg: self.toolbar_bg@,
            toolbar_fg: self.toolbar_fg@,
            statusbar_bg: self.statusbar_bg@,
            statusbar_fg: self.statusbar_fg@,
            button: self.button@,
            button_hover: self.button_hover@,
            button_active: self.button_active@,
        }
    }
}

/// A colour theme: editor colours, a table of syntax colours keyed by
/// token-class name, and the colours of the surrounding chrome.
#[derive(Debug, Clone, PartialEq)]
pub struct Theme {
    pub name: String,
    pub background: String,
    pub foreground: String,
    pub selection: String,
    pub cursor: String,
    pub line_highlight: String,
    pub syntax_colors: ColorTable,
    pub ui: UiColors,
}

/// What a `Theme` holds, as character sequences and a mathematical map.
pub struct ThemeView {
    pub name: Seq<char>,
    pub background: Seq<char>,
    pub foreground: Seq<char>,
    pub selection: Seq<char>,
    pub cursor: Seq<char>,
    pub line_highlight: Seq<char>,
    pub syntax_colors: Map<Seq<char>, Seq<char>>,
    pub ui: UiColorsView,
}

impl View for Theme {
    type V = ThemeView;

    open spec fn view(&self) -> ThemeView {
        ThemeView {
            name: self.name@,
            background: self.background@,
            foreground: self.foreground@,
            selection: self.selection@,
            cursor: self.cursor@,
            line_highlight: self.line_highlight@,
            syntax_colors: self.syntax_colors@,
            ui: self.ui@,
        }
    }
}

impl ThemeView {
    /// The colour in which text of class `token` is shown: the colour that
    /// the table binds to that name, and the foreground colour for a name
    /// that the table does not bind.
    pub open spec fn color(self, token: Seq<char>) -> Seq<char> {
        if self.syntax_colors.contains_key(token) {
            self.syntax_colors[token]
        } else {
            self.foreground
        }
    }
}

/// The dark theme, which is the default.
pub open spec fn dark_theme_view() -> ThemeView {
    ThemeView {
        name: "Default Dark"@,
        background: "#282C34"@,
        foreground: "#ABB2BF"@,
        selection: "#3E4451"@,
        cursor: "#528BFF"@,
        line_highlight: "#2C313A"@,
        syntax_colors: Map::<Seq<char>, Seq<char>>::empty().insert("keyword"@, "#C678DD"@).insert(
            "string"@,
            "#98C379"@,
        ).insert("comment"@, "#7F848E"@).insert("function"@, "#61AFEF"@).insert(
            "type"@,
            "#E5C07B"@,
        ),
        ui: UiColorsView {
            toolbar_bg: "#21252B"@,
            toolbar_fg: "#ABB2BF"@,
            statusbar_bg: "#21252B"@,
            statusbar_fg: "#9DA5B4"@,
            button: "#3A3F4B"@,
            button_hover: "#4B5263"@,
            button_active: "#528BFF"@,
        },
    }
}

/// The light theme.
pub open spec fn light_theme_view() -> ThemeView {
    ThemeView {
        name: "Light"@,
        background: "#FFFFFF"@,
        foreground: "#383A42"@,
        selection: "#E5E5E6"@,
        cursor: "#526FFF"@,
        line_highlight: "#F2F2F2"@,
        syntax_colors: Map::<Seq<char>, Seq<char>>::empty().insert("keyword"@, "#A626A4"@).insert(
            "string"@,
            "#50A14F"@,
        ).insert("comment"@, "#A0A1A7"@).insert("function"@, "#4078F2"@).insert(
            "type"@,
            "#C18401"@,
        ),
        ui: UiColorsView {
            toolbar_bg: "#E5E5E6"@,
            toolbar_fg: "#383A42"@,
            statusbar_bg: "#E5E5E6"@,
            statusbar_fg: "#696C77"@,
            button: "#D4D4D4"@,
            button_hover: "#CACACA"@,
            button_active: "#4078F2"@,
        },
    }
}

impl Default for Theme {
    fn default() -> (theme: Theme)
        ensures
            theme@ == dark_theme_view(),
    {
        let mut syntax_colors = ColorTable::new();
        syntax_colors.insert("keyword".to_string(), "#C678DD".to_string());
        syntax_colors.insert("string".to_string(), "#98C379".to_string());
        syntax_colors.insert("comment".to_string(), "#7F848E".to_string());
        syntax_colors.insert("function".to_string(), "#61AFEF".to_string());
        syntax_colors.insert("type".to_string(), "#E5C07B".to_string());

        Theme {
            name: "Default Dark".to_string(),
            background: "#282C34".to_string(),
            foreground: "#ABB2BF".to_string(),
            selection: "#3E4451".to_string(),
            cursor: "#528BFF".to_string(),
            line_highlight: "#2C313A".to_string(),
            syntax_colors,
            ui: UiColors {
                toolbar_bg: "#21252B".to_string(),
                toolbar_fg: "#ABB2BF".to_string(),
                statusbar_bg: "#21252B".to_string(),
                statusbar_fg: "#9DA5B4".to_string(),
                button: "#3A3F4B".to_string(),
                button_hover: "#4B5263".to_string(),
                button_active: "#528BFF".to_string(),
            },
        }
    }
}

/// Builds the light theme.
pub fn light_theme() -> (theme: Theme)
    ensures
        theme@ == light_theme_view(),
{
    let mut light_theme = Theme::default();
    light_theme.name = "Light".to_string();
    light_theme.background = "#FFFFFF".to_string();
    light_theme.foreground = "#383A42".to_string();
    light_theme.selection = "#E5E5E6".to_string();
    light_theme.cursor = "#526FFF".to_string();
    light_theme.line_highlight = "#F2F2F2".to_string();

    let mut syntax_colors = ColorTable::new();
    syntax_colors.insert("keyword".to_string(), "#A626A4".to_string());
    syntax_colors.insert("string".to_string(), "#50A14F".to_string());
    syntax_colors.insert("comment".to_string(), "#A0A1A7".to_string());
    syntax_colors.insert("function".to_string(), "#4078F2".to_string());
    syntax_colors.insert("type".to_string(), "#C18401".to_string());
    light_theme.syntax_colors = syntax_colors;

    light_theme.ui = UiColors {
        toolbar_bg: "#E5E5E6".to_string(),
        toolbar_fg: "#383A42".to_string(),
        statusbar_bg: "#E5E5E6".to_string(),
        statusbar_fg: "#696C77".to_string(),
        button: "#D4D4D4".to_string(),
        button_hover: "#CACACA".to_string(),
        button_active: "#4078F2".to_string(),
    };

    light_theme
}

/// The themes that the editor offers: the dark theme, then the light one.
pub fn available_themes() -> (themes: Vec<Theme>)
    ensures
        themes@.len() == 2,
        themes@[0]@ == dark_theme_view(),
        themes@[1]@ == light_theme_view(),
{
    vec![Theme::default(), light_theme()]
}

impl Theme {
    /// The colour in which text of class `token_type` is shown: the table's
    /// colour for that name, or the foreground colour if it has none.
    pub fn get_color(&self, token_type: &str) -> (color: String)
        ensures
            color@ == self@.color(token_type@),
    {
        match self.syntax_colors.get(token_type) {
            Some(color) => color.clone(),
            None => self.foreground.clone(),
        }
    }
}

/// The part of its name that tells a light theme.
pub open spec fn light_mark() -> Seq<char> {
    "Light"@
}

/// The part of its name that tells a dark theme.
pub open spec fn dark_mark() -> Seq<char> {
    "Dark"@
}

impl ThemeView {
    /// A theme is light if its name says so.
    pub open spec fn is_light(self) -> bool {
        contains_text(self.name, light_mark())
    }
}

impl Theme {
    /// Whether this is a light theme.
    pub fn is_light(&self) -> (light: bool)
        ensures
            light == self@.is_light(),
    {
        text_contains(self.name.as_str(), "Light")
    }
}

/// `at` is the position of the first of `themes` that is called `name`.
pub open spec fn first_named(themes: Seq<Theme>, name: Seq<char>, at: int) -> bool {
    &&& 0 <= at < themes.len()
    &&& themes[at]@.name == name
    &&& forall|j: int| 0 <= j < at ==> (#[trigger] themes[j])@.name != name
}

/// `at` is the position of the first of `themes` whose name contains `part`.
pub open spec fn first_with(themes: Seq<Theme>, part: Seq<char>, at: int) -> bool {
    &&& 0 <= at < themes.len()
    &&& contains_text(themes[at]@.name, part)
    &&& forall|j: int| 0 <= j < at ==> !contains_text((#[trigger] themes[j])@.name, part)
}

/// The position of the first theme that is called `name`, if there is one.
pub fn theme_named(themes: &Vec<Theme>, name: &str) -> (found: Option<usize>)
    ensures
        match found {
            Some(at) => first_named(themes@, name@, at as int),
            None => forall|j: int| 0 <= j < themes@.len() ==> (#[trigger] themes@[j])@.name != name@,
        },
{
    let wanted = to_chars(name);
    let mut i: usize = 0;
    while i < themes.len()
        invariant
            i <= themes.len(),
            wanted@ == name@,
            forall|j: int| 0 <= j < i ==> (#[trigger] themes@[j])@.name != name@,
        decreases themes.len() - i,
    {
        if text_matches(themes[i].name.as_str(), &wanted) {
            return Some(i);
        }
        i += 1;
    }
    None
}

/// The position of the first light theme, or of the first dark one, if
/// there is one: a theme is told by the word `Light` or `Dark` in its name.
pub fn theme_of_kind(themes: &Vec<Theme>, light: bool) -> (found: Option<usize>)
    ensures
        match found {
            Some(at) => first_with(
                themes@,
                if light {
                    light_mark()
                } else {
                    dark_mark()
                },
                at as int,
            ),
            None => forall|j: int|
                0 <= j < themes@.len() ==> !contains_text(
                    (#[trigger] themes@[j])@.name,
                    if light {
                        light_mark()
                    } else {
                        dark_mark()
                    },
                ),
        },
{
    let mark = if light {
        "Light"
    } else {
        "Dark"
    };
    let mut i: usize = 0;
    while i < themes.len()
        invariant
            i <= themes.len(),
            mark@ == if light {
                light_mark()
            } else {
                dark_mark()
            },
            forall|j: int| 0 <= j < i ==> !contains_text((#[trigger] themes@[j])@.name, mark@),
        decreases themes.len() - i,
    {
        if text_contains(themes[i].name.as_str(), mark) {
            return Some(i);
        }
        i += 1;
    }
    None
}

} // verus!
