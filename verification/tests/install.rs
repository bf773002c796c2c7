use kova::install::{autostart_path, desktop_entry, desktop_path, join_path};

#[test]
fn entry_paths_under_home() {
    assert_eq!(desktop_path("/home/ana"), "/home/ana/.local/share/applications/kova.desktop");
    assert_eq!(autostart_path("/home/ana"), "/home/ana/.config/autostart/kova.desktop");
    assert_eq!(desktop_path("/home/ana/"), "/home/ana/.local/share/applications/kova.desktop");
    assert_eq!(autostart_path("."), "./.config/autostart/kova.desktop");
}

#[test]
fn join_matches_pathbuf() {
    for (base, rel) in [("/a", "b/c"), ("/a/", "b"), ("", "b"), (".", "x.desktop"), ("/", "etc")] {
        let expected = std::path::PathBuf::from(base).join(rel);
        assert_eq!(join_path(base, rel), expected.to_str().unwrap());
    }
}

#[test]
fn desktop_entry_text() {
    let e = desktop_entry("/usr/local/bin/kova");
    let expected = "[Desktop Entry]
Name=Kova
Comment=Fast GPU-accelerated terminal
Exec=/usr/local/bin/kova %u
Icon=utilities-terminal
Type=Application
Terminal=false
Categories=System;TerminalEmulator;
MimeType=inode/directory;
Actions=open-here;

[Desktop Action open-here]
Name=Open Terminal Here
Exec=/usr/local/bin/kova
";
    assert_eq!(e, expected);
}
