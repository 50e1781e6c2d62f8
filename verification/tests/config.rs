use anvil_shell::config::{
    parse_keysym, parse_modifier, Config, Keysym, Modifiers, KEY_BACKSPACE, KEY_ESCAPE,
    KEY_RETURN, KEY_SPACE, KEY_TAB,
};

#[test]
fn named_keys_parse_case_insensitively() {
    assert_eq!(parse_keysym("Return"), Some(Keysym(KEY_RETURN)));
    assert_eq!(parse_keysym("RETURN"), Some(Keysym(KEY_RETURN)));
    assert_eq!(parse_keysym("escape"), Some(Keysym(KEY_ESCAPE)));
    assert_eq!(parse_keysym("BackSpace"), Some(Keysym(KEY_BACKSPACE)));
    assert_eq!(parse_keysym("Tab"), Some(Keysym(KEY_TAB)));
    assert_eq!(parse_keysym("space"), Some(Keysym(KEY_SPACE)));
}

#[test]
fn letters_and_digits_map_to_their_codes() {
    assert_eq!(parse_keysym("a"), Some(Keysym(0x61)));
    assert_eq!(parse_keysym("Z"), Some(Keysym(0x7A)));
    assert_eq!(parse_keysym("q"), Some(Keysym(0x71)));
    assert_eq!(parse_keysym("0"), Some(Keysym(0x30)));
    assert_eq!(parse_keysym("9"), Some(Keysym(0x39)));
}

#[test]
fn unicode_foldings_of_known_names_parse() {
    // U+212A (Kelvin sign) lowercases to 'k'
    assert_eq!(parse_keysym("\u{212A}"), Some(Keysym(0x6B)));
    assert_eq!(parse_keysym("BAC\u{212A}SPACE"), Some(Keysym(KEY_BACKSPACE)));
    // a spelling that folds to no known name still fails
    assert_eq!(parse_keysym("\u{C9}SCAPE"), None);
}

#[test]
fn unknown_keys_parse_to_none() {
    assert_eq!(parse_keysym(""), None);
    assert_eq!(parse_keysym("F1"), None);
    assert_eq!(parse_keysym("enter"), None);
    assert_eq!(parse_keysym("!"), None);
}

#[test]
fn modifiers_parse_to_single_flags() {
    let base = Modifiers { shift: false, ctrl: false, alt: false, logo: false };
    assert_eq!(parse_modifier("Shift"), Some(Modifiers { shift: true, ..base }));
    assert_eq!(parse_modifier("ctrl"), Some(Modifiers { ctrl: true, ..base }));
    assert_eq!(parse_modifier("Control"), Some(Modifiers { ctrl: true, ..base }));
    assert_eq!(parse_modifier("alt"), Some(Modifiers { alt: true, ..base }));
    assert_eq!(parse_modifier("logo"), Some(Modifiers { logo: true, ..base }));
    assert_eq!(parse_modifier("Super"), Some(Modifiers { logo: true, ..base }));
    assert_eq!(parse_modifier("win"), Some(Modifiers { logo: true, ..base }));
    assert_eq!(parse_modifier("hyper"), None);
    assert_eq!(parse_modifier(""), None);
}

#[test]
fn default_config_holds_the_two_bindings() {
    let c = Config::default();
    assert_eq!(c.keybindings.len(), 2);
    let spawn = &c.keybindings[0];
    assert_eq!(spawn.modifiers, vec!["Logo".to_string()]);
    assert_eq!(spawn.key, "Return");
    assert_eq!(spawn.action, "spawn");
    let args = spawn.args.as_ref().unwrap();
    assert_eq!(args.len(), 1);
    assert_eq!(args[0], ("command".to_string(), "alacritty".to_string()));
    let quit = &c.keybindings[1];
    assert_eq!(quit.modifiers, vec!["Logo".to_string()]);
    assert_eq!(quit.key, "q");
    assert_eq!(quit.action, "quit");
    assert!(quit.args.is_none());
}
