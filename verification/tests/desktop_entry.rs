use gitgpui_view::desktop_entry::{desktop_entry_with_exec, is_gnome_desktop};

#[test]
fn desktop_entry_runs_the_installed_program() {
    let template = "[Desktop Entry]\nName=GitGpui\nExec=gitgpui %U\r\nIcon=gitgpui\n";
    assert_eq!(
        desktop_entry_with_exec(template, "/opt/bin/gitgpui"),
        "[Desktop Entry]\nName=GitGpui\nExec=/opt/bin/gitgpui\nIcon=gitgpui\n"
    );
    assert_eq!(desktop_entry_with_exec("Name=x", "/e"), "Name=x\n");
    assert_eq!(desktop_entry_with_exec("", "/e"), "");
}

#[test]
fn gnome_sessions_are_recognised_in_any_case() {
    assert!(is_gnome_desktop("GNOME"));
    assert!(is_gnome_desktop("ubuntu:GNOME"));
    assert!(is_gnome_desktop("gnome-classic"));
    assert!(!is_gnome_desktop("KDE"));
    assert!(!is_gnome_desktop(""));
}
