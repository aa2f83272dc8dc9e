use candi::color::Color;
use candi::theme::{
    builtin, copy_theme, next_builtin_name, resolve_theme, startup_theme, Theme, ThemeError,
    BUILTIN_NAMES,
};

#[test]
fn display_omits_opaque_alpha() {
    assert_eq!(Color::from([0x25, 0x63, 0xEB, 0xFF]).to_string(), "#2563EB");
    assert_eq!(
        Color::from([0x25, 0x63, 0xEB, 0x40]).to_string(),
        "#2563EB40"
    );
}

#[test]
fn builtin_names_are_stable() {
    assert_eq!(
        BUILTIN_NAMES,
        ["Light", "Sepia", "Warm Dark", "Dark", "True Dark"]
    );
}

#[test]
fn every_builtin_parses_and_knows_its_name() {
    for name in BUILTIN_NAMES {
        let t = builtin(name).unwrap_or_else(|| panic!("{name} must exist"));
        assert_eq!(t.name, name);
    }
}

#[test]
fn builtin_miss_is_none() {
    assert!(builtin("nope").is_none());
    assert!(builtin("light").is_none());
}

#[test]
fn builtin_page_palettes_match_the_design() {
    assert_eq!(builtin("Sepia").unwrap().page_bg.to_string(), "#F4ECD8");
    assert_eq!(builtin("Warm Dark").unwrap().page_fg.to_string(), "#E8E0D4");
    assert_eq!(builtin("Dark").unwrap().page_bg.to_string(), "#16181D");
    assert_eq!(builtin("True Dark").unwrap().page_bg.to_string(), "#000000");
}

#[test]
fn hex_parses_six_and_eight_digits_and_rejects_the_rest() {
    assert_eq!(Color::from_hex("#2563EB"), Some(Color::from([0x25, 0x63, 0xEB, 0xFF])));
    assert_eq!(Color::from_hex("#2563eb40"), Some(Color::from([0x25, 0x63, 0xEB, 0x40])));
    assert_eq!(Color::from_hex("2563EB"), None);
    assert_eq!(Color::from_hex("#2563E"), None);
    assert_eq!(Color::from_hex("#2563EG"), None);
    assert_eq!(Color::from_hex(""), None);
}

#[test]
fn hex_text_round_trips() {
    for c in [
        Color::from([0, 0, 0, 0xFF]),
        Color::from([0xAB, 0xCD, 0xEF, 0x01]),
        Color::from([0xFF, 0xFF, 0xFF, 0x00]),
    ] {
        assert_eq!(Color::from_hex(&c.to_string()), Some(c));
    }
}

#[test]
fn theme_errors_render_their_kind() {
    assert_eq!(ThemeError::Yaml("bad".to_string()).to_string(), "invalid YAML: bad");
    assert_eq!(ThemeError::Schema("no name".to_string()).to_string(), "invalid theme: no name");
}

#[test]
fn channel_getters_read_the_channels() {
    let c = Color::from([1, 2, 3, 4]);
    assert_eq!((c.r(), c.g(), c.b(), c.a()), (1, 2, 3, 4));
}

#[test]
fn cycling_walks_the_builtins_in_order_and_wraps() {
    assert_eq!(next_builtin_name("Light"), "Sepia");
    assert_eq!(next_builtin_name("Dark"), "True Dark");
    assert_eq!(next_builtin_name("True Dark"), "Light");
    assert_eq!(next_builtin_name("Nord"), "Light", "themes outside the cycle restart it");
    let mut name = "Warm Dark";
    for _ in 0..BUILTIN_NAMES.len() {
        name = next_builtin_name(name);
    }
    assert_eq!(name, "Warm Dark");
}

fn custom(name: &str) -> (Theme, String) {
    let mut t = copy_theme(&builtin("Dark").unwrap());
    t.name = name.to_string();
    t.accent = Color::from([1, 2, 3, 255]);
    (t, format!("/themes/{name}.yaml"))
}

#[test]
fn builtins_win_over_same_named_customs() {
    let customs = vec![custom("Mint"), custom("Dark"), custom("Mint")];
    assert_eq!(resolve_theme("Dark", &customs), builtin("Dark"));
    assert_eq!(resolve_theme("Mint", &customs), Some(customs[0].0.clone()));
    assert_eq!(resolve_theme("Ghost", &customs), None);
}

#[test]
fn startup_falls_back_to_the_default_theme() {
    let customs = vec![custom("Mint")];
    assert_eq!(startup_theme("Mint", &customs).name, "Mint");
    assert_eq!(startup_theme("Sepia", &customs).name, "Sepia");
    assert_eq!(startup_theme("Ghost", &customs), builtin("Light").unwrap());
}
