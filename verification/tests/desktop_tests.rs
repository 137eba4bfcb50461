use lupa::desktop::{desktop_apps, parse_desktop_entry, App, DesktopFile, LocaleEntry};

const FIREFOX: &str = "[Desktop Entry]
Type=Application
Name=Firefox
Comment=Browse the Web
Exec=firefox %u
TryExec=firefox
Icon=firefox
Keywords=Internet;WWW;Browser;
# a comment line
Categories=Network;

[Desktop Action new-window]
Name=New Window
Exec=firefox --new-window %u

[Desktop Action private]
Name=New Private Window
Exec=firefox --private-window %u
Icon=private
";

fn parse(content: &str, desktop: &str, locales: &Vec<LocaleEntry>) -> Option<App> {
    parse_desktop_entry(content, "/usr/share/applications/firefox.desktop", desktop, false, Some(locales))
}

#[test]
fn parses_application_with_actions() {
    let app = parse(FIREFOX, "GNOME", &Vec::new()).unwrap();
    assert_eq!(app.name, "Firefox");
    assert_eq!(app.command, "firefox %u");
    assert_eq!(app.tryexec, "firefox");
    assert_eq!(app.comment.as_deref(), Some("Browse the Web"));
    assert_eq!(app.keywords, "Internet;WWW;Browser;");
    assert_eq!(app.icon.as_deref(), Some("firefox"));
    assert_eq!(app.location, "/usr/share/applications/firefox.desktop");
    assert!(!app.is_flatpak);
    assert_eq!(app.actions.len(), 2);
    assert_eq!(app.actions[0].id, " new-window");
    assert_eq!(app.actions[0].name, "New Window");
    assert_eq!(app.actions[0].command, "firefox --new-window %u");
    assert_eq!(app.actions[0].icon, None);
    assert_eq!(app.actions[1].id, " private");
    assert_eq!(app.actions[1].icon.as_deref(), Some("private"));
}

#[test]
fn localised_values_replace_plain_ones() {
    let locales = vec![
        LocaleEntry { group: "Desktop Entry".into(), key: "Name".into(), value: "Zorro".into() },
        LocaleEntry { group: "Desktop Entry".into(), key: "Comment".into(), value: "Navega".into() },
        LocaleEntry {
            group: "Desktop Action private".into(),
            key: "Name".into(),
            value: "Privada".into(),
        },
    ];
    let app = parse(FIREFOX, "GNOME", &locales).unwrap();
    assert_eq!(app.name, "Zorro");
    assert_eq!(app.comment.as_deref(), Some("Navega"));
    assert_eq!(app.actions[0].name, "New Window");
    assert_eq!(app.actions[1].name, "Privada");
}

#[test]
fn unloadable_key_file_gives_nothing() {
    assert!(parse_desktop_entry(FIREFOX, "/x.desktop", "GNOME", false, None).is_none());
}

#[test]
fn non_applications_are_rejected() {
    let link = "[Desktop Entry]\nType=Link\nName=Site\nExec=xdg-open x\n";
    assert!(parse(link, "GNOME", &Vec::new()).is_none());
    let no_type = "[Desktop Entry]\nName=Site\nExec=site\n";
    assert!(parse(no_type, "GNOME", &Vec::new()).is_none());
    let no_exec = "[Desktop Entry]\nType=Application\nName=Site\n";
    assert!(parse(no_exec, "GNOME", &Vec::new()).is_none());
}

#[test]
fn hidden_entries_are_dropped() {
    let hidden = "[Desktop Entry]\nType=Application\nName=A\nExec=a\nNoDisplay=true\n";
    assert!(parse(hidden, "GNOME", &Vec::new()).is_none());
    let shown = "[Desktop Entry]\nType=Application\nName=A\nExec=a\nNoDisplay=false\n";
    assert!(parse(shown, "GNOME", &Vec::new()).is_some());
}

#[test]
fn desktop_restrictions_apply() {
    let only = "[Desktop Entry]\nType=Application\nName=A\nExec=a\nOnlyShowIn=KDE;XFCE;\n";
    assert!(parse(only, "GNOME", &Vec::new()).is_none());
    assert!(parse(only, "KDE", &Vec::new()).is_some());
    let not = "[Desktop Entry]\nType=Application\nName=A\nExec=a\nNotShowIn=GNOME;\n";
    assert!(parse(not, "GNOME", &Vec::new()).is_none());
    assert!(parse(not, "KDE", &Vec::new()).is_some());
}

#[test]
fn keys_outside_main_section_are_ignored() {
    let other = "[Other]\nName=B\n[Desktop Entry]\r\nType=Application\r\n  Name = A  \r\nExec=a\n";
    let app = parse(other, "GNOME", &Vec::new()).unwrap();
    assert_eq!(app.name, "A");
    assert!(app.actions.is_empty());
}

#[test]
fn trailing_action_with_only_an_id_is_kept() {
    let content = "[Desktop Entry]\nType=Application\nName=A\nExec=a\n[Desktop Action x]\n";
    let app = parse(content, "GNOME", &Vec::new()).unwrap();
    assert_eq!(app.actions.len(), 1);
    assert_eq!(app.actions[0].id, " x");
    assert_eq!(app.actions[0].name, "");
}

#[test]
fn folder_apps_keep_taken_entries_in_order() {
    let file = |location: &str, content: &str, locales: Option<Vec<LocaleEntry>>| DesktopFile {
        location: location.to_string(),
        content: content.to_string(),
        locales,
    };
    let files = vec![
        file("/apps/firefox.desktop", FIREFOX, Some(Vec::new())),
        file("/apps/broken.desktop", FIREFOX, None),
        file("/apps/link.desktop", "[Desktop Entry]\nType=Link\nName=L\nExec=l\n", Some(Vec::new())),
        file("/apps/calc.desktop", "[Desktop Entry]\nType=Application\nName=Calc\nExec=calc\n", Some(Vec::new())),
    ];
    let apps = desktop_apps(&files, "GNOME", true);
    let names: Vec<(&str, &str, bool)> =
        apps.iter().map(|a| (a.name.as_str(), a.location.as_str(), a.is_flatpak)).collect();
    assert_eq!(
        names,
        vec![("Firefox", "/apps/firefox.desktop", true), ("Calc", "/apps/calc.desktop", true)]
    );
    assert!(desktop_apps(&Vec::new(), "GNOME", false).is_empty());
}

#[test]
fn last_value_of_each_key_wins() {
    let content = "[Desktop Entry]\nType=Application\nName=First\nExec=one\nName=Second\n[Other]\nName=Ignored\n[Desktop Entry]\nExec=two\n";
    let app = parse(content, "GNOME", &Vec::new()).unwrap();
    assert_eq!(app.name, "Second");
    assert_eq!(app.command, "two");
    assert!(app.actions.is_empty());
}

#[test]
fn any_wrong_type_rejects() {
    let content = "[Desktop Entry]\nType=Application\nName=A\nExec=a\nType=Link\nType=Application\n";
    assert!(parse(content, "GNOME", &Vec::new()).is_none());
}
