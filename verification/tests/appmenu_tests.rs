use olshell::appmenu::{section_items_by_keys, bucket_for, desktop_files, generate, generate_from, strip_field_codes, DesktopApp};
use olshell::menu::MenuNode;

/// Builds the application submenu from in-memory directories: each is a
/// directory path and its files (name, contents), in listing order.
/// TryExec binaries are looked up on disk, as the real caller does.
fn generate_from_dirs(dirs: &[(&str, &[(&str, &str)])], label: &str) -> MenuNode {
    let dir_names: Vec<String> = dirs.iter().map(|(d, _)| d.to_string()).collect();
    let listings: Vec<Vec<String>> =
        dirs.iter().map(|(_, files)| files.iter().map(|(n, _)| n.to_string()).collect()).collect();
    let mut contents: Vec<String> = Vec::new();
    let mut installed: Vec<String> = Vec::new();
    for path in desktop_files(&dir_names, &listings) {
        let text = dirs
            .iter()
            .flat_map(|(d, files)| files.iter().map(move |(n, c)| (format!("{d}/{n}"), *c)))
            .find(|(p, _)| *p == path)
            .map(|(_, c)| c)
            .unwrap();
        if let Some(DesktopApp { try_exec: Some(bin), .. }) = DesktopApp::parse(text) {
            if std::path::Path::new(&bin).is_file() {
                installed.push(bin);
            }
        }
        contents.push(text.to_string());
    }
    generate(label.to_string(), &contents, &installed)
}

/// Pulls the flat list of (section, item labels) out of a generated
/// submenu for easy assertions.
fn sections(node: &MenuNode) -> Vec<(String, Vec<String>)> {
    let MenuNode::Submenu { items, .. } = node else { panic!("expected submenu") };
    items
        .iter()
        .map(|section| {
            let MenuNode::Submenu { label, items, .. } = section else { panic!("expected section submenu") };
            (label.clone(), items.iter().map(|i| i.label().to_string()).collect())
        })
        .collect()
}

#[test]
fn groups_sorts_and_strips() {
    let files: &[(&str, &str)] = &[
        ("gimp.desktop", "[Desktop Entry]\nType=Application\nName=GIMP\nExec=gimp %U\nCategories=Graphics;2DGraphics;\n"),
        ("inkscape.desktop", "[Desktop Entry]\nType=Application\nName=Inkscape\nExec=inkscape %F\nCategories=Graphics;VectorGraphics;\n"),
        ("firefox.desktop", "[Desktop Entry]\nType=Application\nName=Firefox\nExec=firefox %u\nCategories=Network;WebBrowser;\n"),
        ("weird.desktop", "[Desktop Entry]\nType=Application\nName=Widget\nExec=widget\n"),
    ];
    let node = generate_from_dirs(&[("/basic", files)], "Programs");
    let s = sections(&node);
    assert_eq!(
        s,
        vec![
            ("Graphics".to_string(), vec!["GIMP".to_string(), "Inkscape".to_string()]),
            ("Internet".to_string(), vec!["Firefox".to_string()]),
            ("Other".to_string(), vec!["Widget".to_string()]),
        ]
    );

    // Field codes are gone from the commands.
    let MenuNode::Submenu { items, .. } = &node else { unreachable!() };
    let MenuNode::Submenu { items: graphics, .. } = &items[0] else { unreachable!() };
    let MenuNode::Item { command, .. } = &graphics[0] else { unreachable!() };
    assert_eq!(command, "gimp");
}

#[test]
fn skips_hidden_nodisplay_and_wrong_type() {
    let files: &[(&str, &str)] = &[
        ("a.desktop", "[Desktop Entry]\nType=Application\nName=Shown\nExec=a\nCategories=Utility;\n"),
        ("b.desktop", "[Desktop Entry]\nType=Application\nName=NoShow\nExec=b\nNoDisplay=true\nCategories=Utility;\n"),
        ("c.desktop", "[Desktop Entry]\nType=Application\nName=Gone\nExec=c\nHidden=true\nCategories=Utility;\n"),
        ("d.desktop", "[Desktop Entry]\nType=Link\nName=Bookmark\nURL=http://example\nCategories=Utility;\n"),
    ];
    let s = sections(&generate_from_dirs(&[("/skip", files)], "Programs"));
    assert_eq!(s, vec![("Accessories".to_string(), vec!["Shown".to_string()])]);
}

#[test]
fn tryexec_missing_binary_is_skipped() {
    let files: &[(&str, &str)] = &[(
        "ghost.desktop",
        "[Desktop Entry]\nType=Application\nName=Ghost\nExec=ghost\nTryExec=/nonexistent/olwc/ghost\nCategories=Utility;\n",
    )];
    let MenuNode::Submenu { items, .. } = generate_from_dirs(&[("/tryexec", files)], "Programs") else {
        unreachable!()
    };
    assert!(items.is_empty());
}

#[test]
fn earlier_dir_wins_by_id() {
    let first: &[(&str, &str)] = &[(
        "editor.desktop",
        "[Desktop Entry]\nType=Application\nName=Real Editor\nExec=real\nCategories=Development;\n",
    )];
    let second: &[(&str, &str)] = &[(
        "editor.desktop",
        "[Desktop Entry]\nType=Application\nName=Shadowed\nExec=shadow\nCategories=Development;\n",
    )];
    let s = sections(&generate_from_dirs(&[("/first", first), ("/second", second)], "Programs"));
    assert_eq!(s, vec![("Development".to_string(), vec!["Real Editor".to_string()])]);
}

#[test]
fn empty_when_nothing_found() {
    let MenuNode::Submenu { label, items, default } = generate_from_dirs(&[("/empty", &[])], "Programs") else {
        unreachable!()
    };
    assert_eq!(label, "Programs");
    assert!(items.is_empty());
    assert_eq!(default, None);
}

#[test]
fn strip_field_codes_cases() {
    assert_eq!(strip_field_codes("foo %U"), "foo");
    assert_eq!(strip_field_codes("foo %F --bar"), "foo --bar");
    assert_eq!(strip_field_codes("foo %%bar"), "foo %bar");
    assert_eq!(strip_field_codes("env A=1 foo %f"), "env A=1 foo");
    // Flatpak's @@ / @@u wrappers around the % codes are dropped too.
    assert_eq!(
        strip_field_codes("/usr/bin/flatpak run --command=x org.x.X @@u %U @@"),
        "/usr/bin/flatpak run --command=x org.x.X"
    );
    assert_eq!(strip_field_codes("app foo@@bar"), "app foo@@bar");
}

#[test]
fn strip_field_codes_edges() {
    assert_eq!(strip_field_codes(""), "");
    assert_eq!(strip_field_codes("  a\t\tb  "), "a b");
    assert_eq!(strip_field_codes("a %"), "a");
    assert_eq!(strip_field_codes("@@ @@u @@1 x"), "@@1 x");
    assert_eq!(strip_field_codes("%%%%"), "%%");
    // What the removals leave behind collapses to single spaces.
    assert_eq!(strip_field_codes(" %f  a \u{3000} %u\u{a0}b %F "), "a b");
}

#[test]
fn first_matching_bucket_wins() {
    let cats = |v: &[&str]| v.iter().map(|s| s.to_string()).collect::<Vec<String>>();
    // Development comes before Utility and TextEditor.
    assert_eq!(bucket_for(&cats(&["Utility", "TextEditor", "Development"])), 0);
    assert_eq!(bucket_for(&cats(&["Audio"])), 2);
    assert_eq!(bucket_for(&cats(&["Settings", "Utility"])), 8);
    assert_eq!(bucket_for(&cats(&["TextEditor"])), 10);
    assert_eq!(bucket_for(&cats(&[])), 10);
}

#[test]
fn desktop_entry_fields() {
    let app = DesktopApp::parse(
        "# comment\n[Desktop Entry]\nName = First\nName=Second\nExec=run %f\nTryExec=\nCategories=A;;B;\n[Desktop Action new]\nName=Ignored\n",
    )
    .unwrap();
    assert_eq!(app.name, "Second");
    assert_eq!(app.command, "run");
    assert_eq!(app.categories, vec!["A".to_string(), "B".to_string()]);
    assert_eq!(app.try_exec, None);
    assert!(DesktopApp::parse("[Desktop Entry]\nName=\nExec=x\n").is_none());
    assert!(DesktopApp::parse("[Desktop Entry]\nName=X\nExec=%U\n").is_none());
    assert!(DesktopApp::parse("Name=X\nExec=x\n").is_none());
    let t = DesktopApp::parse("[Desktop Entry]\nName=X\nExec=x\nTryExec=xbin\n").unwrap();
    assert_eq!(t.try_exec.as_deref(), Some("xbin"));
}

#[test]
fn sections_sort_case_insensitively_and_dedup() {
    let app = |name: &str, exec: &str| DesktopApp {
        name: name.to_string(),
        command: exec.to_string(),
        categories: vec!["Utility".to_string()],
        try_exec: None,
    };
    let apps = vec![app("beta", "b1"), app("Alpha", "a1"), app("alpha", "a2"), app("beta", "b2"), app("Gamma", "g")];
    let node = generate_from(&apps, "P".to_string());
    let MenuNode::Submenu { items, .. } = &node else { unreachable!() };
    let MenuNode::Submenu { label, items, .. } = &items[0] else { unreachable!() };
    assert_eq!(label, "Accessories");
    let got: Vec<(String, String)> = items
        .iter()
        .map(|i| match i {
            MenuNode::Item { label, command } => (label.clone(), command.clone()),
            _ => unreachable!(),
        })
        .collect();
    assert_eq!(
        got,
        vec![
            ("Alpha".to_string(), "a1".to_string()),
            ("alpha".to_string(), "a2".to_string()),
            ("beta".to_string(), "b1".to_string()),
            ("Gamma".to_string(), "g".to_string()),
        ]
    );
}

#[test]
fn sections_are_alphabetical_with_other_last() {
    let app = |cat: &str| DesktopApp {
        name: "x".to_string(),
        command: "x".to_string(),
        categories: vec![cat.to_string()],
        try_exec: None,
    };
    let cats = ["Utility", "Development", "Education", "Game", "Graphics", "Network", "Video", "Office", "Science", "System", "Nothing"];
    let apps: Vec<DesktopApp> = cats.iter().rev().map(|c| app(c)).collect();
    let s: Vec<String> = sections(&generate_from(&apps, "P".to_string())).into_iter().map(|(l, _)| l).collect();
    assert_eq!(
        s,
        vec![
            "Accessories", "Development", "Education", "Games", "Graphics", "Internet", "Multimedia", "Office",
            "Science", "System", "Other"
        ]
    );
}

#[test]
fn desktop_file_selection() {
    let dirs = vec!["/a".to_string(), "/b/".to_string()];
    let listings = vec![
        vec!["x.desktop".to_string(), ".desktop".to_string(), "readme".to_string(), "y.desktop".to_string()],
        vec!["x.desktop".to_string(), "z.desktop".to_string()],
    ];
    assert_eq!(
        desktop_files(&dirs, &listings),
        vec!["/a/x.desktop".to_string(), "/a/y.desktop".to_string(), "/b/z.desktop".to_string()]
    );
}

#[test]
fn generate_keeps_only_installed_try_exec() {
    let contents = vec![
        "[Desktop Entry]\nName=Needs Tool\nExec=tool\nTryExec=tool\nCategories=Office;\n".to_string(),
        "[Desktop Entry]\nName=Missing\nExec=gone\nTryExec=gone\nCategories=Office;\n".to_string(),
        "not a desktop file".to_string(),
        "[Desktop Entry]\nName=Plain\nExec=plain %f\n".to_string(),
    ];
    let installed = vec!["tool".to_string()];
    let node = generate("Apps".to_string(), &contents, &installed);
    let MenuNode::Submenu { label, default, .. } = &node else { panic!("expected submenu") };
    assert_eq!(label, "Apps");
    assert_eq!(*default, None);
    assert_eq!(
        sections(&node),
        vec![
            ("Office".to_string(), vec!["Needs Tool".to_string()]),
            ("Other".to_string(), vec!["Plain".to_string()]),
        ]
    );
    let none = generate("Apps".to_string(), &contents, &Vec::new());
    assert_eq!(sections(&none), vec![("Other".to_string(), vec!["Plain".to_string()])]);
}

#[test]
fn only_first_desktop_entry_group_counts() {
    let app = DesktopApp::parse("[Desktop Entry]\nName=A\nExec=a\n[Desktop Action x]\nName=X\n[Desktop Entry]\nName=B\n")
        .unwrap();
    assert_eq!(app.name, "A");
    assert_eq!(app.command, "a");
    assert!(app.categories.is_empty());
}

#[test]
fn sections_follow_the_given_keys() {
    let apps = vec![
        ("b".to_string(), "1".to_string()),
        ("a".to_string(), "2".to_string()),
        ("b".to_string(), "3".to_string()),
        ("c".to_string(), "4".to_string()),
    ];
    let keys = vec!["1".to_string(), "2".to_string(), "1".to_string(), "1".to_string()];
    // By key first ("1" before "2"), then by exact name; the first "b" wins.
    assert_eq!(
        section_items_by_keys(&apps, &keys),
        vec![
            ("b".to_string(), "1".to_string()),
            ("c".to_string(), "4".to_string()),
            ("a".to_string(), "2".to_string()),
        ]
    );
}
