use olshell::menu::{Includes, IncludeKey, IncludedFile, Menu, MenuNode};

#[test]
fn parses_flat_items() {
    let menu = Menu::parse(
        r#"
            ! a comment
            "Root Menu" TITLE
            "Terminal" exec xterm
            "Files" exec nautilus
        "#,
    )
    .unwrap();
    assert_eq!(menu.title.as_deref(), Some("Root Menu"));
    assert_eq!(menu.items.len(), 2);
    assert_eq!(menu.items[0].label(), "Terminal");
    let MenuNode::Item { command, .. } = &menu.items[0] else { panic!("expected item") };
    assert_eq!(command, "xterm");
}

#[test]
fn parses_nested_submenu() {
    let menu = Menu::parse(
        r#"
            "Programs" MENU
                "Emacs" exec emacs
                "XTerm" exec xterm
            END MENU
            "Exit" exec "true"
        "#,
    )
    .unwrap();
    assert_eq!(menu.items.len(), 2);
    let MenuNode::Submenu { label, items, .. } = &menu.items[0] else { panic!("expected submenu") };
    assert_eq!(label, "Programs");
    assert_eq!(items.len(), 2);
    assert_eq!(items[1].label(), "XTerm");
}

#[test]
fn parses_exit() {
    let menu = Menu::parse(
        r#"
            "Terminal" exec xterm
            "Exit..." EXIT
        "#,
    )
    .unwrap();
    assert_eq!(menu.items.len(), 2);
    assert_eq!(menu.items[1].label(), "Exit...");
    assert!(matches!(&menu.items[1], MenuNode::Exit { .. }));
}

#[test]
fn parses_reread_menu_file() {
    let menu = Menu::parse(
        r#"
            "Reread Menu File" REREAD_MENU_FILE
        "#,
    )
    .unwrap();
    assert_eq!(menu.items.len(), 1);
    assert_eq!(menu.items[0].label(), "Reread Menu File");
    assert!(matches!(&menu.items[0], MenuNode::ReloadMenu { .. }));
}

#[test]
fn skips_unsupported_directives() {
    let menu = Menu::parse(
        r#"
            "Weird" WINMENU
            "Bare" DEFAULT
            "Terminal" exec xterm
        "#,
    )
    .unwrap();
    // WINMENU isn't supported; "Bare" DEFAULT has no action after the
    // modifier so there's nothing to mark default -- both skipped,
    // leaving just the one real item.
    assert_eq!(menu.items.len(), 1);
    assert_eq!(menu.items[0].label(), "Terminal");
    assert_eq!(menu.default, None);
}

#[test]
fn handles_escaped_quote_in_label() {
    let menu = Menu::parse(r#""Say \"Hi\"" exec echo"#).unwrap();
    assert_eq!(menu.items[0].label(), "Say \"Hi\"");
}

#[test]
fn builtin_default_has_expandable_programs() {
    let mut menu = Menu::default_menu();
    // First item, and the menu's DEFAULT.
    assert_eq!(menu.default, Some(0));
    assert!(matches!(&menu.items[0], MenuNode::AppMenu { label } if label == "Programs"));
    // Expanding turns it into a real submenu; index 0 and the DEFAULT stay put.
    menu.expand_appmenus(&Vec::new());
    assert!(matches!(&menu.items[0], MenuNode::Submenu { label, .. } if label == "Programs"));
    assert_eq!(menu.default, Some(0));
}

#[test]
fn parses_appmenu() {
    let menu = Menu::parse(
        r#"
            "Programs" DEFAULT APPMENU
            "Exit" EXIT
        "#,
    )
    .unwrap();
    assert_eq!(menu.items.len(), 2);
    assert!(matches!(&menu.items[0], MenuNode::AppMenu { .. }));
    assert_eq!(menu.items[0].label(), "Programs");
    assert_eq!(menu.default, Some(0));
}

#[test]
fn parses_default_modifier() {
    let menu = Menu::parse(
        r#"
            "First" exec a
            "Second" DEFAULT exec b
            "Third" exec c
        "#,
    )
    .unwrap();
    assert_eq!(menu.items.len(), 3);
    assert_eq!(menu.default, Some(1));

    // DEFAULT also works on a submenu, tracked per level.
    let menu = Menu::parse(
        r#"
            "Progs" DEFAULT MENU
                "X" exec x
                "Y" DEFAULT exec y
            END
        "#,
    )
    .unwrap();
    assert_eq!(menu.default, Some(0));
    let MenuNode::Submenu { default, .. } = &menu.items[0] else { panic!("expected submenu") };
    assert_eq!(*default, Some(1));
}

/// Parses `root` (read from directory `dir`), answering each INCLUDE
/// from `files` (name relative to `dir` -> contents), as the file-reading
/// caller does.
fn parse_with_files(root: &str, dir: &str, files: &[(&str, &str)]) -> Menu {
    let mut includes = Includes { known: Vec::new(), complete: false };
    loop {
        match Menu::parse_inner(root, &Some(dir.to_string()), 0, &includes) {
            Ok(menu) => return menu,
            Err(key) => {
                let found = files.iter().find(|(name, _)| *name == key.file.as_str()).map(|(_, text)| {
                    IncludedFile { dir: Some(dir.to_string()), contents: text.to_string() }
                });
                includes.known.push((key, found));
            }
        }
    }
}

#[test]
fn parses_include() {
    let menu = parse_with_files(
        "\"Workspace\" TITLE\n\"Programs\" INCLUDE sub\n\"Exit\" EXIT\n",
        "/menus",
        &[("sub", "\"Emacs\" exec emacs\n\"Vim\" DEFAULT exec vim\n")],
    );
    assert_eq!(menu.title.as_deref(), Some("Workspace"));
    assert_eq!(menu.items.len(), 2);
    let MenuNode::Submenu { label, items, default } = &menu.items[0] else { panic!("expected submenu") };
    assert_eq!(label, "Programs");
    assert_eq!(items.len(), 2);
    assert_eq!(items[1].label(), "Vim");
    assert_eq!(*default, Some(1)); // the INCLUDEd file's own DEFAULT carries through
}

#[test]
fn include_cycle_terminates() {
    let menu = parse_with_files(
        "\"B\" INCLUDE b\n",
        "/menus",
        &[("a", "\"B\" INCLUDE b\n"), ("b", "\"A\" INCLUDE a\n")],
    );
    assert_eq!(menu.items.len(), 1);
}

#[test]
fn include_request_names_the_file() {
    let includes = Includes { known: Vec::new(), complete: false };
    let Err(key) = Menu::parse_inner("\"P\" INCLUDE  progs  \n", &Some("/etc".to_string()), 0, &includes) else {
        panic!("expected a request")
    };
    assert_eq!(key.file, "progs");
    assert_eq!(key.base_dir.as_deref(), Some("/etc"));
    let _ = IncludeKey { file: key.file.clone(), base_dir: None };
}

#[test]
fn comment_and_blank_lines_change_nothing() {
    let plain = "\"Work\" TITLE\n\"Tools\" DEFAULT MENU\n\"Edit\" exec ed\nEND\n\"Exit\" EXIT\n";
    let commented = "! header\n\"Work\" TITLE\n\n\"Tools\" DEFAULT MENU\n   ! inside\n\"Edit\" exec ed\n\t\nEND\n\"Exit\" EXIT\n! trailer\n";
    let a = Menu::parse(plain).unwrap();
    let b = Menu::parse(commented).unwrap();
    assert_eq!(format!("{a:?}"), format!("{b:?}"));
    assert_eq!(b.default, Some(0));
    assert_eq!(b.items.len(), 2);
}

#[test]
fn relative_include_without_directory_is_skipped() {
    let menu = Menu::parse("\"Sub\" DEFAULT INCLUDE nofile\n\"T\" exec t").unwrap();
    assert_eq!(menu.items.len(), 1);
    assert_eq!(menu.items[0].label(), "T");
    assert_eq!(menu.default, None);
    // An absolute path names a file without a directory; none is known.
    let menu = Menu::parse("\"Abs\" INCLUDE /etc/menu\n").unwrap();
    let MenuNode::Submenu { label, items, .. } = &menu.items[0] else { panic!("expected submenu") };
    assert_eq!(label, "Abs");
    assert!(items.is_empty());
}
