use hotmenu::menu::{
    assign_hotkeys, default_pool, ActionDef, EntryDef, Menu, MenuAction, MenuDef, MenuError,
    MenuStack, NavError, Prompt,
};

fn entry(hotkey: Option<char>, message: &str, action: ActionDef) -> EntryDef {
    EntryDef { hotkey, message: message.to_string(), action }
}

fn def(title: &str, message: &str, entries: Vec<EntryDef>) -> MenuDef {
    MenuDef { title: title.to_string(), message: message.to_string(), entries }
}

fn terminal(s: &str) -> ActionDef {
    ActionDef::Terminal(s.to_string())
}

fn prompt(p: &str, prefix: &str) -> ActionDef {
    ActionDef::Prompt(Prompt { prompt: p.to_string(), prefix: prefix.to_string() })
}

fn build(d: &MenuDef) -> Result<Menu, MenuError> {
    Menu::from_def(d, &default_pool())
}

fn hotkeys(m: &Menu) -> Vec<char> {
    m.entries.iter().map(|e| e.hotkey).collect()
}

#[test]
fn menu_descent() {
    let d = def(
        "Menu1",
        "Message1",
        vec![entry(
            Some('a'),
            "Message2",
            ActionDef::SubMenu(def(
                "Menu2",
                "Message3",
                vec![entry(
                    Some('b'),
                    "Message4",
                    ActionDef::SubMenu(def(
                        "Menu3",
                        "Message4",
                        vec![
                            entry(Some('c'), "Message5", terminal("DESIRED")),
                            entry(Some('d'), "Message6", prompt("my prompt", "my_prefix")),
                        ],
                    )),
                )],
            )),
        )],
    );
    let menu = build(&d).expect("failed to parse menu file");
    let submenu = match menu.get_action('a') {
        Some(MenuAction::SubMenu(inner)) => inner,
        _ => panic!("expected SubMenu at 'a'"),
    };
    let submenu = match submenu.get_action('b') {
        Some(MenuAction::SubMenu(inner)) => inner,
        _ => panic!("expected SubMenu at 'b'"),
    };
    let terminal = match submenu.get_action('c') {
        Some(MenuAction::Terminal(inner)) => inner,
        _ => panic!("expected Terminal at 'c'"),
    };
    assert_eq!(terminal, "DESIRED");
    let prompt = match submenu.get_action('d') {
        Some(MenuAction::Prompt(inner)) => inner,
        _ => panic!("expected Prompt at 'd'"),
    };
    assert_eq!(prompt.prompt, "my prompt");
    assert_eq!(prompt.prefix, "my_prefix");
}

#[test]
fn auto_hotkeys_come_from_the_back_of_the_pool() {
    let d = def(
        "T",
        "M",
        vec![entry(None, "one", terminal("1")), entry(None, "two", terminal("2"))],
    );
    let m = build(&d).unwrap();
    assert_eq!(hotkeys(&m), vec!['a', 's']);
}

#[test]
fn explicit_hotkey_is_taken_out_of_the_pool() {
    let d = def(
        "T",
        "M",
        vec![entry(Some('a'), "one", terminal("1")), entry(None, "two", terminal("2"))],
    );
    let m = build(&d).unwrap();
    assert_eq!(hotkeys(&m), vec!['a', 's']);
}

#[test]
fn mixed_hotkeys_are_distinct() {
    let d = def(
        "T",
        "M",
        vec![
            entry(None, "one", terminal("1")),
            entry(Some('s'), "two", terminal("2")),
            entry(None, "three", terminal("3")),
            entry(Some('x'), "four", terminal("4")),
            entry(None, "five", terminal("5")),
        ],
    );
    let m = build(&d).unwrap();
    let keys = hotkeys(&m);
    assert_eq!(keys, vec!['a', 's', 'd', 'x', 'f']);
    for i in 0..keys.len() {
        for j in 0..keys.len() {
            if i != j {
                assert_ne!(keys[i], keys[j]);
            }
        }
    }
}

#[test]
fn duplicate_explicit_hotkey_is_a_collision() {
    let d = def(
        "T",
        "M",
        vec![entry(Some('q'), "one", terminal("1")), entry(Some('q'), "two", terminal("2"))],
    );
    assert_eq!(build(&d).err(), Some(MenuError::HotkeyCollision));
}

#[test]
fn explicit_hotkey_after_auto_one_is_a_collision() {
    let d = def(
        "T",
        "M",
        vec![entry(None, "one", terminal("1")), entry(Some('a'), "two", terminal("2"))],
    );
    assert_eq!(build(&d).err(), Some(MenuError::HotkeyCollision));
}

#[test]
fn too_many_auto_hotkeys_exhaust_the_pool() {
    let entries: Vec<EntryDef> = (0..10).map(|i| entry(None, "x", terminal(&i.to_string()))).collect();
    assert_eq!(build(&def("T", "M", entries)).err(), Some(MenuError::HotkeyPoolExhausted));
}

#[test]
fn nine_auto_hotkeys_fit_the_pool() {
    let entries: Vec<EntryDef> = (0..9).map(|i| entry(None, "x", terminal(&i.to_string()))).collect();
    let m = build(&def("T", "M", entries)).unwrap();
    assert_eq!(hotkeys(&m), vec!['a', 's', 'd', 'f', 'g', 'h', 'j', 'k', 'l']);
}

#[test]
fn custom_pool_is_used_per_menu() {
    let inner = def(
        "In",
        "m",
        vec![entry(None, "x", terminal("1")), entry(None, "y", terminal("2"))],
    );
    let d = def(
        "Out",
        "m",
        vec![entry(None, "sub", ActionDef::SubMenu(inner)), entry(None, "z", terminal("3"))],
    );
    let m = Menu::from_def(&d, &vec!['x', 'y']).unwrap();
    assert_eq!(hotkeys(&m), vec!['y', 'x']);
    match m.get_action('y') {
        Some(MenuAction::SubMenu(s)) => assert_eq!(hotkeys(s), vec!['y', 'x']),
        _ => panic!("expected a submenu"),
    }
    let small = Menu::from_def(&d, &vec!['x']);
    assert_eq!(small.err(), Some(MenuError::HotkeyPoolExhausted));
}

#[test]
fn submenu_error_is_reported() {
    let inner = def(
        "In",
        "m",
        vec![entry(Some('k'), "x", terminal("1")), entry(Some('k'), "y", terminal("2"))],
    );
    let d = def("Out", "m", vec![entry(None, "sub", ActionDef::SubMenu(inner))]);
    assert_eq!(build(&d).err(), Some(MenuError::HotkeyCollision));
}

#[test]
fn assign_hotkeys_direct() {
    let pool = default_pool();
    assert_eq!(assign_hotkeys(&vec![None, Some('z'), None], &pool), Ok(vec!['a', 'z', 's']));
    assert_eq!(assign_hotkeys(&vec![], &pool), Ok(vec![]));
    assert_eq!(assign_hotkeys(&vec![None], &vec![]), Err(MenuError::HotkeyPoolExhausted));
    assert_eq!(assign_hotkeys(&vec![Some('a'), Some('a')], &pool), Err(MenuError::HotkeyCollision));
}

#[test]
fn lookup_of_unbound_key_is_none() {
    let d = def("T", "M", vec![entry(Some('a'), "one", terminal("1"))]);
    let m = build(&d).unwrap();
    assert!(m.get_action('z').is_none());
}

#[test]
fn resolve_follows_submenus() {
    let inner = def("In", "m", vec![entry(Some('c'), "x", terminal("1"))]);
    let d = def(
        "Out",
        "m",
        vec![entry(Some('a'), "sub", ActionDef::SubMenu(inner)), entry(Some('b'), "t", terminal("2"))],
    );
    let m = build(&d).unwrap();
    assert_eq!(m.resolve(&vec![]).unwrap().title, "Out");
    assert_eq!(m.resolve(&vec!['a']).unwrap().title, "In");
    assert_eq!(m.resolve(&vec!['b']).err(), Some(NavError::InvalidPath));
    assert_eq!(m.resolve(&vec!['z']).err(), Some(NavError::InvalidPath));
    assert_eq!(m.resolve(&vec!['a', 'c']).err(), Some(NavError::InvalidPath));
}

#[test]
fn menu_text_layout() {
    let inner = def("In", "m", vec![entry(Some('c'), "x", terminal("1"))]);
    let d = def(
        "Title",
        "Pick one",
        vec![entry(Some('a'), "Go deeper", ActionDef::SubMenu(inner)), entry(Some('b'), "Done", terminal("2"))],
    );
    let m = build(&d).unwrap();
    assert_eq!(m.entries[0].to_text(), "(a) - [M] - Go deeper");
    assert_eq!(m.entries[1].to_text(), "(b) -     - Done");
    assert_eq!(
        m.to_text(),
        "  Title\n\n  Pick one\n\n  (a) - [M] - Go deeper\n  (b) -     - Done\n"
    );
}

#[test]
fn stack_text_layout() {
    let mut s = MenuStack::new();
    assert_eq!(s.to_text(), "");
    s.push('a');
    assert_eq!(s.to_text(), "a");
    s.push('b');
    s.push('c');
    assert_eq!(s.to_text(), "a -> b -> c");
    assert_eq!(s.len(), 3);
    assert_eq!(s.pop(), Some('c'));
    assert_eq!(s.to_text(), "a -> b");
    let mut e = MenuStack::new();
    assert_eq!(e.pop(), None);
}
