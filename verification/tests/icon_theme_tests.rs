use olshell::icon_theme::{application_dirs, desktop_file_paths, desktop_icon_name, icon_base_dirs, join_path, XdgEnv};

#[test]
fn finds_desktop_icon_name() {
    let files = vec![Some("[Desktop Entry]\nName=Foo\nIcon=utilities-terminal\nExec=foo\n".to_string())];
    assert_eq!(desktop_icon_name(&files).as_deref(), Some("utilities-terminal"));
}

#[test]
fn missing_desktop_file_returns_none() {
    assert_eq!(desktop_icon_name(&vec![None]), None);
}

#[test]
fn later_file_used_when_earlier_has_no_icon() {
    let files = vec![None, Some("Name=X\n".to_string()), Some("Icon=  second  \r\nIcon=third\n".to_string())];
    assert_eq!(desktop_icon_name(&files).as_deref(), Some("second"));
}

#[test]
fn desktop_paths_join_each_dir() {
    let dirs = vec!["/usr/share/applications".to_string(), "".to_string()];
    assert_eq!(
        desktop_file_paths(&dirs, "org.example.Foo"),
        vec!["/usr/share/applications/org.example.Foo.desktop".to_string(), "org.example.Foo.desktop".to_string()]
    );
}

#[test]
fn xdg_directories() {
    let env = XdgEnv { data_home: None, home: Some("/home/u".to_string()), data_dirs: None };
    assert_eq!(
        application_dirs(&env),
        vec![
            "/home/u/.local/share/applications".to_string(),
            "/usr/local/share/applications".to_string(),
            "/usr/share/applications".to_string()
        ]
    );
    let env = XdgEnv { data_home: Some("/d".to_string()), home: None, data_dirs: Some(":/x::/y/:".to_string()) };
    assert_eq!(icon_base_dirs(&env), vec!["/d/icons".to_string(), "/x/icons".to_string(), "/y/icons".to_string()]);
    let env = XdgEnv { data_home: None, home: None, data_dirs: Some("".to_string()) };
    assert!(application_dirs(&env).is_empty());
}

#[test]
fn path_joining() {
    assert_eq!(join_path("/a", "b"), "/a/b");
    assert_eq!(join_path("/a/", "b"), "/a/b");
    assert_eq!(join_path("", "b"), "b");
    assert_eq!(join_path("/a", "/b"), "/b");
}

use olshell::icon_theme::{find_icon_file, FsKnowledge, FsQuery, IconSearch};

/// An in-memory file system: the regular files, and every directory
/// with its entry names in listing order.
struct FakeFs {
    files: Vec<&'static str>,
    dirs: Vec<(&'static str, Vec<&'static str>)>,
}

impl FakeFs {
    fn search(&self, name: &str, bases: &[&str], pixmaps: &str) -> Option<String> {
        let bases: Vec<String> = bases.iter().map(|b| b.to_string()).collect();
        let mut fs = FsKnowledge { dirs: Vec::new(), files: Vec::new(), listings: Vec::new() };
        loop {
            match find_icon_file(name, &bases, pixmaps, &fs) {
                IconSearch::Done(r) => return r,
                IconSearch::Need(FsQuery::IsDir(p)) => {
                    let d = self.dirs.iter().any(|(q, _)| *q == p);
                    fs.dirs.push((p, d));
                }
                IconSearch::Need(FsQuery::IsFile(p)) => {
                    let f = self.files.iter().any(|q| *q == p);
                    fs.files.push((p, f));
                }
                IconSearch::Need(FsQuery::ListDir(p)) => {
                    let l = self
                        .dirs
                        .iter()
                        .find(|(q, _)| *q == p)
                        .map(|(_, names)| names.iter().map(|n| n.to_string()).collect());
                    fs.listings.push((p, l));
                }
            }
        }
    }
}

#[test]
fn finds_hicolor_style_layout() {
    let fs = FakeFs {
        files: vec!["/base/hicolor/48x48/apps/myapp.png"],
        dirs: vec![
            ("/base", vec!["hicolor"]),
            ("/base/hicolor", vec!["48x48"]),
            ("/base/hicolor/48x48", vec!["apps"]),
            ("/base/hicolor/48x48/apps", vec!["myapp.png"]),
        ],
    };
    assert_eq!(fs.search("myapp", &["/base"], "/nonexistent"), Some("/base/hicolor/48x48/apps/myapp.png".to_string()));
}

#[test]
fn finds_category_first_style_layout() {
    let fs = FakeFs {
        files: vec!["/base/AdwaitaLegacy/legacy/48/utilities-terminal.png"],
        dirs: vec![
            ("/base", vec!["AdwaitaLegacy"]),
            ("/base/AdwaitaLegacy", vec!["legacy"]),
            ("/base/AdwaitaLegacy/legacy", vec!["48"]),
            ("/base/AdwaitaLegacy/legacy/48", vec!["utilities-terminal.png"]),
        ],
    };
    assert_eq!(
        fs.search("utilities-terminal", &["/base"], "/nonexistent"),
        Some("/base/AdwaitaLegacy/legacy/48/utilities-terminal.png".to_string())
    );
}

#[test]
fn falls_back_to_pixmaps() {
    let fs = FakeFs {
        files: vec!["/pixmaps/standalone.png"],
        dirs: vec![("/base", vec![]), ("/pixmaps", vec!["standalone.png"])],
    };
    assert_eq!(fs.search("standalone", &["/base"], "/pixmaps"), Some("/pixmaps/standalone.png".to_string()));
}

#[test]
fn absolute_path_used_directly() {
    let fs = FakeFs { files: vec!["/abs/icon.png"], dirs: vec![("/abs", vec!["icon.png"])] };
    assert_eq!(fs.search("/abs/icon.png", &["/base"], "/pixmaps"), Some("/abs/icon.png".to_string()));
    assert_eq!(fs.search("/abs/missing.png", &["/base"], "/pixmaps"), None);
}

#[test]
fn larger_size_and_earlier_theme_win() {
    let fs = FakeFs {
        files: vec![
            "/base/hicolor/16x16/apps/a.png",
            "/base/hicolor/64x64/apps/a.png",
            "/base/Adwaita/128x128/apps/a.png",
        ],
        dirs: vec![
            ("/base/hicolor", vec!["16x16", "64x64"]),
            ("/base/hicolor/16x16", vec!["apps"]),
            ("/base/hicolor/64x64", vec!["apps"]),
            ("/base/Adwaita", vec!["128x128"]),
            ("/base/Adwaita/128x128", vec!["apps"]),
        ],
    };
    assert_eq!(fs.search("a", &["/base"], "/p"), Some("/base/hicolor/64x64/apps/a.png".to_string()));
    assert_eq!(fs.search("zzz", &["/base"], "/p"), None);
}
