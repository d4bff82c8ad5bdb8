use desktop_mcp::keys::{
    canonical_name, combo_mentions_shift, KeyMapper, KeyPress, KeyRow, Lookup, KEY_LEFTALT,
    KEY_LEFTCTRL, KEY_LEFTMETA, KEY_LEFTSHIFT,
};

const RETURN: u32 = 0xff0d;
const TAB: u32 = 0xff09;
const F5: u32 = 0xffc2;

fn row(keycode: u32, plain: u32, shifted: u32) -> KeyRow {
    KeyRow { keycode, plain: vec![plain], shifted: vec![shifted] }
}

fn sym(s: u32) -> Lookup {
    Lookup { exact: s, folded: s }
}

fn unknown() -> Lookup {
    Lookup { exact: 0, folded: 0 }
}

fn mapper() -> KeyMapper {
    let rows = vec![
        row(10, 0x31, 0x21),
        row(21, 0x3d, 0x2b),
        row(23, TAB, 0xfe20),
        row(28, 0x74, 0x54),
        row(36, RETURN, RETURN),
        row(38, 0x61, 0x41),
        row(71, F5, F5),
        // a second key for "a" does not count
        row(200, 0x61, 0x41),
    ];
    KeyMapper::new(&rows, sym(RETURN), sym(TAB))
}

fn press(keycode: u32, shift: bool) -> Option<KeyPress> {
    Some(KeyPress { keycode, shift })
}

#[test]
fn characters_are_found_by_what_keys_type() {
    let m = mapper();
    assert_eq!(m.for_char('a'), press(38, false));
    assert_eq!(m.for_char('A'), press(38, true));
    assert_eq!(m.for_char('1'), press(10, false));
    assert_eq!(m.for_char('!'), press(10, true));
    assert_eq!(m.for_char('+'), press(21, true));
    assert_eq!(m.for_char('ä'), None);
}

#[test]
fn line_breaks_and_tabulators_are_keys() {
    let m = mapper();
    assert_eq!(m.for_char('\n'), press(36, false));
    assert_eq!(m.for_char('\r'), press(36, false));
    assert_eq!(m.for_char('\t'), press(23, false));
    assert_eq!(m.for_char('\n'), m.for_name("Return", sym(RETURN)));
    assert_eq!(m.for_char('\t'), m.for_name("Tab", sym(TAB)));
    let bare = KeyMapper::new(&vec![row(38, 0x61, 0x41)], sym(RETURN), unknown());
    assert_eq!(bare.for_char('\n'), None);
    assert_eq!(bare.for_char('\t'), None);
}

#[test]
fn first_key_of_a_symbol_wins() {
    let m = mapper();
    assert_eq!(m.by_keysym[&0x61], KeyPress { keycode: 38, shift: false });
    let twice = KeyMapper::new(
        &vec![row(5, 0x62, 0x61), row(6, 0x61, 0x41)],
        unknown(),
        unknown(),
    );
    assert_eq!(twice.for_char('a'), press(5, true));
}

#[test]
fn names_are_looked_up_only_if_needed() {
    let m = mapper();
    assert_eq!(m.name_to_look_up("a"), None);
    assert_eq!(m.name_to_look_up("ä"), Some("ä".to_string()));
    assert_eq!(m.name_to_look_up("ENTER"), Some("Return".to_string()));
    assert_eq!(m.name_to_look_up("F5"), Some("f5".to_string()));
    assert_eq!(m.for_name("F5", Lookup { exact: 0, folded: F5 }), press(71, false));
    assert_eq!(m.for_name("Return", sym(RETURN)), press(36, false));
    assert_eq!(m.for_name("a", unknown()), press(38, false));
    assert_eq!(m.for_name("nonsense", unknown()), None);
    // a symbol that no key produces
    assert_eq!(m.for_name("F35", sym(0xffe0)), None);
}

#[test]
fn aliases_have_one_registered_name() {
    for (alias, name) in [
        ("enter", "Return"),
        ("Return", "Return"),
        ("esc", "Escape"),
        ("Escape", "Escape"),
        ("SPACE", "space"),
        ("tab", "Tab"),
        ("backspace", "BackSpace"),
        ("del", "Delete"),
        ("delete", "Delete"),
        ("insert", "Insert"),
        ("home", "Home"),
        ("end", "End"),
        ("pageup", "Prior"),
        ("Page_Up", "Prior"),
        ("prior", "Prior"),
        ("pagedown", "Next"),
        ("page_down", "Next"),
        ("next", "Next"),
        ("up", "Up"),
        ("down", "Down"),
        ("left", "Left"),
        ("right", "Right"),
        ("menu", "Menu"),
        ("printscreen", "Print"),
        ("print", "Print"),
        ("XF86AudioMute", "xf86audiomute"),
    ] {
        assert_eq!(canonical_name(alias), name);
    }
}

#[test]
fn modifiers_ignore_case() {
    assert_eq!(KeyMapper::modifier("ctrl"), Some(KEY_LEFTCTRL + 8));
    assert_eq!(KeyMapper::modifier("Control"), Some(37));
    assert_eq!(KeyMapper::modifier("SHIFT"), Some(KEY_LEFTSHIFT + 8));
    assert_eq!(KeyMapper::modifier("Alt"), Some(KEY_LEFTALT + 8));
    for name in ["super", "Meta", "win", "CMD", "logo"] {
        assert_eq!(KeyMapper::modifier(name), Some(KEY_LEFTMETA + 8));
    }
    assert_eq!(KeyMapper::modifier("hyper"), None);
    assert_eq!(KeyMapper::modifier(""), None);
    assert_eq!(KeyMapper::shift_keycode(), 50);
}

#[test]
fn combos_are_split_at_plus_signs() {
    let m = mapper();
    let (mods, key) = m.parse_combo("ctrl+shift+t", unknown()).unwrap();
    assert_eq!(mods, vec![37, 50]);
    assert_eq!(key, KeyPress { keycode: 28, shift: false });
    let (mods, key) = m.parse_combo(" Alt + f5 ", Lookup { exact: 0, folded: F5 }).unwrap();
    assert_eq!(mods, vec![64]);
    assert_eq!(key, KeyPress { keycode: 71, shift: false });
    let (mods, key) = m.parse_combo("A", unknown()).unwrap();
    assert!(mods.is_empty());
    assert_eq!(key, KeyPress { keycode: 38, shift: true });
}

#[test]
fn combos_with_unknown_parts_are_refused() {
    let m = mapper();
    assert_eq!(
        m.parse_combo("hyper+x", unknown()).unwrap_err(),
        "unknown modifier \"hyper\" in \"hyper+x\""
    );
    assert_eq!(
        m.parse_combo("ctrl+nonsense", unknown()).unwrap_err(),
        "unknown key \"nonsense\" in \"ctrl+nonsense\""
    );
    assert_eq!(m.parse_combo("", unknown()).unwrap_err(), "unknown key \"\" in \"\"");
    assert_eq!(
        m.parse_combo("ctrl+", unknown()).unwrap_err(),
        "unknown key \"\" in \"ctrl+\""
    );
    assert_eq!(
        m.parse_combo("++", unknown()).unwrap_err(),
        "unknown modifier \"\" in \"++\""
    );
    assert_eq!(
        m.parse_combo("ctrl+++", unknown()).unwrap_err(),
        "unknown modifier \"\" in \"ctrl+++\""
    );
    assert_eq!(
        m.parse_combo("hyper++", unknown()).unwrap_err(),
        "unknown modifier \"hyper\" in \"hyper++\""
    );
}

#[test]
fn the_plus_sign_is_a_key() {
    let m = mapper();
    let plus = KeyPress { keycode: 21, shift: true };
    assert_eq!(m.parse_combo("+", unknown()), Ok((vec![], plus)));
    assert_eq!(m.parse_combo("ctrl++", unknown()), Ok((vec![37], plus)));
    assert_eq!(m.parse_combo("ctrl+alt++", unknown()), Ok((vec![37, 64], plus)));
    assert_eq!(m.parse_combo(" ctrl + + ", unknown()), Ok((vec![37], plus)));
    assert_eq!(m.combo_to_look_up("ctrl++"), None);
    // a keymap without a plus sign has no such key
    let bare = KeyMapper::new(&vec![row(38, 0x61, 0x41)], sym(RETURN), unknown());
    assert_eq!(
        bare.parse_combo("ctrl++", unknown()).unwrap_err(),
        "unknown key \"+\" in \"ctrl++\""
    );
}

#[test]
fn combos_ask_for_the_name_of_their_key() {
    let m = mapper();
    assert_eq!(m.combo_to_look_up("ctrl+shift+t"), None);
    assert_eq!(m.combo_to_look_up("alt+F5"), Some("f5".to_string()));
    assert_eq!(m.combo_to_look_up("ctrl+Enter"), Some("Return".to_string()));
    assert_eq!(m.combo_to_look_up("hyper+F5"), None);
}

#[test]
fn shift_is_recognised_in_a_combo() {
    assert!(combo_mentions_shift("ctrl+SHIFT+t"));
    assert!(combo_mentions_shift("shift+a"));
    assert!(!combo_mentions_shift("ctrl+t"));
    assert!(!combo_mentions_shift("shif+t"));
}
