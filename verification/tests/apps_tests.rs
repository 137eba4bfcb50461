use lupa::apps::{
    action_icon, application_dirs, best_of, combine_app_scores, command_argv, find_app_by_name,
    is_desktop_file, pixmap_candidates, rank_apps, resolve_icon_path,
};
use lupa::desktop::App;

fn app(name: &str, tryexec: &str, keywords: &str) -> App {
    App {
        name: name.to_string(),
        tryexec: tryexec.to_string(),
        keywords: keywords.to_string(),
        command: name.to_lowercase(),
        ..Default::default()
    }
}

#[test]
fn application_dirs_cover_data_dirs_and_home() {
    let dirs = application_dirs("/usr/share:/var/lib/flatpak/exports/share/", "/home/u");
    let paths: Vec<(String, bool)> = dirs.into_iter().map(|d| (d.path, d.is_flatpak)).collect();
    assert_eq!(
        paths,
        vec![
            ("/usr/share/applications".to_string(), false),
            ("/var/lib/flatpak/exports/share/applications".to_string(), true),
            ("/home/u/.local/share/applications".to_string(), false),
        ]
    );
}

#[test]
fn application_dirs_with_empty_entry() {
    let dirs = application_dirs("", "");
    let paths: Vec<String> = dirs.into_iter().map(|d| d.path).collect();
    assert_eq!(paths, vec!["applications".to_string(), ".local/share/applications".to_string()]);
}

#[test]
fn desktop_file_names() {
    assert!(is_desktop_file("firefox.desktop"));
    assert!(is_desktop_file("odd-desktop"));
    assert!(!is_desktop_file("firefox.desktop.bak"));
}

#[test]
fn command_argv_drops_field_codes() {
    assert_eq!(command_argv("firefox %u --new-window"), vec!["firefox", "--new-window"]);
    assert_eq!(command_argv("  env  A=1\tprog %F "), vec!["env", "A=1", "prog"]);
    assert!(command_argv("%f").is_empty());
    assert!(command_argv("   ").is_empty());
}

#[test]
fn app_scores_need_coverage_and_threshold() {
    assert_eq!(combine_app_scores(true, Some(30), Some(10), &vec![Some(5)]), Some(30));
    assert_eq!(combine_app_scores(true, Some(10), Some(40), &vec![Some(50), None]), Some(50));
    assert_eq!(combine_app_scores(true, Some(24), None, &vec![Some(24)]), None);
    assert_eq!(combine_app_scores(false, Some(100), None, &vec![]), None);
    assert_eq!(combine_app_scores(true, None, Some(25), &vec![None]), Some(25));
}

#[test]
fn best_of_scores() {
    assert_eq!(best_of(&vec![]), None);
    assert_eq!(best_of(&vec![None, Some(-3), None]), Some(-3));
    assert_eq!(best_of(&vec![Some(4), Some(9), Some(2)]), Some(9));
}

#[test]
fn rank_apps_keeps_only_matches() {
    let apps = vec![app("Firefox", "firefox", "Web;Browser;"), app("Calculator", "gnome-calculator", "")];
    let shown = rank_apps(&apps, "#firefox", 10);
    assert_eq!(shown, vec!["Firefox".to_string()]);
    let none = rank_apps(&apps, "#zzzz", 10);
    assert!(none.is_empty());
    let limited = rank_apps(&apps, "firefox", 0);
    assert!(limited.is_empty());
}

#[test]
fn rank_apps_matches_keywords() {
    let apps = vec![app("Firefox", "firefox", "Web;Browser;"), app("Calculator", "gnome-calculator", "")];
    assert_eq!(rank_apps(&apps, "browser", 5), vec!["Firefox".to_string()]);
}

#[test]
fn find_app_by_name_takes_first() {
    let apps = vec![app("A", "a", ""), app("B", "b", ""), app("B", "b2", "")];
    assert_eq!(find_app_by_name(&apps, "B"), Some(1));
    assert_eq!(find_app_by_name(&apps, "C"), None);
}

#[test]
fn pixmap_candidate_files() {
    assert_eq!(pixmap_candidates("gimp"), vec!["pixmaps/gimp.svg", "pixmaps/gimp.png"]);
}

#[test]
fn icon_path_resolution() {
    let none: Vec<Option<String>> = vec![None, None];
    assert_eq!(resolve_icon_path("/opt/x.png", true, Some("t".into()), &none), Some("/opt/x.png".into()));
    assert_eq!(resolve_icon_path("/opt/x.png", false, Some("t".into()), &none), Some("t".into()));
    assert_eq!(resolve_icon_path("gimp", true, Some("t".into()), &none), Some("t".into()));
    let pix = vec![None, Some("p.png".to_string())];
    assert_eq!(resolve_icon_path("android-studio", false, Some("t".into()), &pix), Some("p.png".into()));
    assert_eq!(resolve_icon_path("gimp", false, None, &none), None);
}

#[test]
fn action_icons_default_to_link() {
    assert_eq!(action_icon(&None), "external-link-symbolic");
    assert_eq!(action_icon(&Some("go".into())), "go");
}

#[test]
fn shown_apps_are_found_and_limited() {
    let apps = vec![
        app("Files", "nautilus", "folder;manager;"),
        app("Firefox", "firefox", "Web;Browser;"),
        app("Font Viewer", "gnome-font-viewer", "fonts;"),
        app("Calculator", "gnome-calculator", ""),
    ];
    let shown = rank_apps(&apps, "#f", 2);
    assert_eq!(shown.len(), 2);
    for name in &shown {
        assert!(apps.iter().any(|a| &a.name == name));
        assert!(name.to_lowercase().contains('f'));
    }
    assert!(!shown.contains(&"Calculator".to_string()));
}
