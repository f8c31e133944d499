use editor_core::color_table::ColorTable;
use editor_core::theme::{
    available_themes, light_theme, theme_named, theme_of_kind, Theme, UiColors,
};

#[test]
fn default_theme_is_dark() {
    let theme = Theme::default();
    assert_eq!(theme.name, "Default Dark");
    assert_eq!(theme.background, "#282C34");
    assert_eq!(theme.foreground, "#ABB2BF");
    assert_eq!(theme.selection, "#3E4451");
    assert_eq!(theme.cursor, "#528BFF");
    assert_eq!(theme.line_highlight, "#2C313A");
    assert_eq!(
        theme.ui,
        UiColors {
            toolbar_bg: "#21252B".to_string(),
            toolbar_fg: "#ABB2BF".to_string(),
            statusbar_bg: "#21252B".to_string(),
            statusbar_fg: "#9DA5B4".to_string(),
            button: "#3A3F4B".to_string(),
            button_hover: "#4B5263".to_string(),
            button_active: "#528BFF".to_string(),
        }
    );
    assert_eq!(theme.syntax_colors.get("keyword"), Some(&"#C678DD".to_string()));
    assert_eq!(theme.syntax_colors.get("string"), Some(&"#98C379".to_string()));
    assert_eq!(theme.syntax_colors.get("comment"), Some(&"#7F848E".to_string()));
    assert_eq!(theme.syntax_colors.get("function"), Some(&"#61AFEF".to_string()));
    assert_eq!(theme.syntax_colors.get("type"), Some(&"#E5C07B".to_string()));
    assert_eq!(theme.syntax_colors.get("number"), None);
}

#[test]
fn light_theme_values() {
    let theme = light_theme();
    assert_eq!(theme.name, "Light");
    assert_eq!(theme.background, "#FFFFFF");
    assert_eq!(theme.foreground, "#383A42");
    assert_eq!(theme.selection, "#E5E5E6");
    assert_eq!(theme.cursor, "#526FFF");
    assert_eq!(theme.line_highlight, "#F2F2F2");
    assert_eq!(
        theme.ui,
        UiColors {
            toolbar_bg: "#E5E5E6".to_string(),
            toolbar_fg: "#383A42".to_string(),
            statusbar_bg: "#E5E5E6".to_string(),
            statusbar_fg: "#696C77".to_string(),
            button: "#D4D4D4".to_string(),
            button_hover: "#CACACA".to_string(),
            button_active: "#4078F2".to_string(),
        }
    );
    assert_eq!(theme.syntax_colors.get("keyword"), Some(&"#A626A4".to_string()));
    assert_eq!(theme.syntax_colors.get("string"), Some(&"#50A14F".to_string()));
    assert_eq!(theme.syntax_colors.get("comment"), Some(&"#A0A1A7".to_string()));
    assert_eq!(theme.syntax_colors.get("function"), Some(&"#4078F2".to_string()));
    assert_eq!(theme.syntax_colors.get("type"), Some(&"#C18401".to_string()));
    assert_eq!(theme.syntax_colors.get("number"), None);
}

#[test]
fn available_themes_are_dark_then_light() {
    let themes = available_themes();
    assert_eq!(themes.len(), 2);
    assert_eq!(themes[0], Theme::default());
    assert_eq!(themes[1], light_theme());
    assert_ne!(themes[0], themes[1]);
}

#[test]
fn get_color_reads_the_table() {
    let dark = Theme::default();
    assert_eq!(dark.get_color("keyword"), "#C678DD");
    assert_eq!(dark.get_color("string"), "#98C379");
    assert_eq!(dark.get_color("comment"), "#7F848E");
    assert_eq!(dark.get_color("function"), "#61AFEF");
    assert_eq!(dark.get_color("type"), "#E5C07B");
    let light = light_theme();
    assert_eq!(light.get_color("keyword"), "#A626A4");
    assert_eq!(light.get_color("string"), "#50A14F");
    assert_eq!(light.get_color("comment"), "#A0A1A7");
    assert_eq!(light.get_color("function"), "#4078F2");
    assert_eq!(light.get_color("type"), "#C18401");
}

#[test]
fn get_color_of_an_unbound_class_is_foreground() {
    assert_eq!(Theme::default().get_color("number"), "#ABB2BF");
    assert_eq!(Theme::default().get_color("bracket"), "#ABB2BF");
    assert_eq!(light_theme().get_color("number"), "#383A42");
    assert_eq!(light_theme().get_color("bracket"), "#383A42");
    let mut bare = light_theme();
    bare.syntax_colors = ColorTable::new();
    for class in ["keyword", "string", "comment", "function", "type", "number", "bracket"] {
        assert_eq!(bare.get_color(class), "#383A42");
    }
}

#[test]
fn get_color_of_unknown_name_is_foreground() {
    assert_eq!(Theme::default().get_color(""), "#ABB2BF");
    assert_eq!(Theme::default().get_color("Keyword"), "#ABB2BF");
    assert_eq!(Theme::default().get_color("keywords"), "#ABB2BF");
    assert_eq!(Theme::default().get_color("keywor"), "#ABB2BF");
    assert_eq!(light_theme().get_color("no such class"), "#383A42");
}

#[test]
fn get_color_resolves_every_bound_name() {
    let mut theme = Theme::default();
    theme.syntax_colors.insert("bracket".to_string(), "#123456".to_string());
    theme.syntax_colors.insert("number".to_string(), "#111111".to_string());
    theme.syntax_colors.insert("anything".to_string(), "#222222".to_string());
    theme.syntax_colors.insert("".to_string(), "#333333".to_string());
    assert_eq!(theme.get_color("bracket"), "#123456");
    assert_eq!(theme.get_color("number"), "#111111");
    assert_eq!(theme.get_color("anything"), "#222222");
    assert_eq!(theme.get_color(""), "#333333");
    assert_eq!(theme.get_color("keyword"), "#C678DD");
    assert_eq!(theme.get_color("other"), "#ABB2BF");
}

#[test]
fn get_color_agrees_with_table_or_foreground() {
    let mut theme = light_theme();
    theme.syntax_colors.insert("bracket".to_string(), "#123456".to_string());
    for name in ["keyword", "string", "comment", "function", "type", "number", "bracket", "", "x"] {
        let expected = theme.syntax_colors.get(name).cloned().unwrap_or(theme.foreground.clone());
        assert_eq!(theme.get_color(name), expected);
    }
    assert_eq!(theme, {
        let mut same = light_theme();
        same.syntax_colors.insert("bracket".to_string(), "#123456".to_string());
        same
    });
}

#[test]
fn color_table_insert_and_get() {
    let mut table = ColorTable::new();
    assert_eq!(table.get("keyword"), None);
    table.insert("keyword".to_string(), "red".to_string());
    table.insert("string".to_string(), "green".to_string());
    assert_eq!(table.get("keyword"), Some(&"red".to_string()));
    assert_eq!(table.get("string"), Some(&"green".to_string()));
    assert_eq!(table.get("comment"), None);
    assert_eq!(table.get("keywor"), None);
    assert_eq!(table.get("keywords"), None);
}

#[test]
fn color_table_insert_replaces() {
    let mut table = ColorTable::new();
    table.insert("keyword".to_string(), "red".to_string());
    table.insert("string".to_string(), "green".to_string());
    table.insert("keyword".to_string(), "blue".to_string());
    assert_eq!(table.get("keyword"), Some(&"blue".to_string()));
    assert_eq!(table.get("string"), Some(&"green".to_string()));
    let mut other = ColorTable::new();
    other.insert("keyword".to_string(), "blue".to_string());
    other.insert("string".to_string(), "green".to_string());
    assert_eq!(table, other);
}

#[test]
fn theme_clone_is_equal() {
    let theme = light_theme();
    assert_eq!(theme.clone(), theme);
}

#[test]
fn themes_are_light_by_name() {
    assert!(light_theme().is_light());
    assert!(!Theme::default().is_light());
    let mut theme = Theme::default();
    theme.name = "Solarized Light (soft)".to_string();
    assert!(theme.is_light());
    theme.name = "light".to_string();
    assert!(!theme.is_light());
}

#[test]
fn theme_named_finds_the_first_match() {
    let mut themes = available_themes();
    assert_eq!(theme_named(&themes, "Default Dark"), Some(0));
    assert_eq!(theme_named(&themes, "Light"), Some(1));
    assert_eq!(theme_named(&themes, "Dark"), None);
    assert_eq!(theme_named(&themes, ""), None);
    themes.push(light_theme());
    assert_eq!(theme_named(&themes, "Light"), Some(1));
    assert_eq!(theme_named(&Vec::new(), "Light"), None);
}

#[test]
fn theme_of_kind_finds_the_first_match() {
    let themes = available_themes();
    assert_eq!(theme_of_kind(&themes, true), Some(1));
    assert_eq!(theme_of_kind(&themes, false), Some(0));
    let only_light = vec![light_theme(), light_theme()];
    assert_eq!(theme_of_kind(&only_light, true), Some(0));
    assert_eq!(theme_of_kind(&only_light, false), None);
    assert_eq!(theme_of_kind(&Vec::new(), true), None);
}

#[test]
fn color_tables_are_equal_by_their_bindings() {
    let mut first = ColorTable::new();
    first.insert("keyword".to_string(), "red".to_string());
    first.insert("string".to_string(), "green".to_string());
    let mut second = ColorTable::new();
    second.insert("string".to_string(), "green".to_string());
    second.insert("keyword".to_string(), "red".to_string());
    assert_eq!(first, second);
    assert_eq!(ColorTable::new(), ColorTable::new());
    let mut third = second.clone();
    third.insert("keyword".to_string(), "blue".to_string());
    assert_ne!(first, third);
    assert_ne!(third, first);
    let mut fourth = first.clone();
    fourth.insert("comment".to_string(), "grey".to_string());
    assert_ne!(first, fourth);
    assert_ne!(fourth, first);
    assert_ne!(first, ColorTable::new());
    assert_ne!(ColorTable::new(), first);
}

#[test]
fn color_table_pairs_hold_the_bindings() {
    let mut table = ColorTable::new();
    table.insert("keyword".to_string(), "red".to_string());
    table.insert("string".to_string(), "green".to_string());
    table.insert("keyword".to_string(), "blue".to_string());
    let mut pairs = table.pairs();
    pairs.sort();
    assert_eq!(
        pairs,
        vec![
            ("keyword".to_string(), "blue".to_string()),
            ("string".to_string(), "green".to_string()),
        ]
    );
    let mut rebuilt = ColorTable::new();
    for (name, color) in table.pairs() {
        rebuilt.insert(name, color);
    }
    assert_eq!(rebuilt, table);
    assert_eq!(ColorTable::new().pairs(), Vec::new());
}

#[test]
fn themes_with_the_same_colours_are_equal() {
    let mut theme = Theme::default();
    let mut colors = ColorTable::new();
    colors.insert("type".to_string(), "#E5C07B".to_string());
    colors.insert("function".to_string(), "#61AFEF".to_string());
    colors.insert("comment".to_string(), "#7F848E".to_string());
    colors.insert("string".to_string(), "#98C379".to_string());
    colors.insert("keyword".to_string(), "#C678DD".to_string());
    theme.syntax_colors = colors;
    assert_eq!(theme, Theme::default());
}
