use lupa::files::{
    file_icon, file_name, file_results, file_search, icon_for, keep_file_score, localsearch_args,
    location_to_open, name_extension, stale_keys,
};
use lupa::text::chars_of;

fn name_of(p: &str) -> Option<String> {
    file_name(&chars_of(p)).map(|v| v.into_iter().collect())
}

fn ext_of(n: &str) -> Option<String> {
    name_extension(&chars_of(n)).map(|v| v.into_iter().collect())
}

#[test]
fn file_search_requests() {
    assert!(file_search("/").is_none());
    assert!(file_search("").is_none());
    let s = file_search("/notes").unwrap();
    assert_eq!((s.term.as_str(), s.folders_only), ("notes", false));
    let s = file_search("/music/").unwrap();
    assert_eq!((s.term.as_str(), s.folders_only), ("music", true));
    let s = file_search("plain").unwrap();
    assert_eq!((s.term.as_str(), s.folders_only), ("plain", false));
    assert_eq!(localsearch_args(&file_search("/music/").unwrap()), vec!["search", "music", "--folders"]);
    assert_eq!(localsearch_args(&file_search("/notes").unwrap()), vec!["search", "notes"]);
}

#[test]
fn file_names_of_paths() {
    assert_eq!(name_of("/home/u/notes.txt"), Some("notes.txt".into()));
    assert_eq!(name_of("/home/u/music/"), Some("music".into()));
    assert_eq!(name_of("/home/u/."), Some("u".into()));
    assert_eq!(name_of("/home/.."), None);
    assert_eq!(name_of("/"), None);
    assert_eq!(name_of(""), None);
}

#[test]
fn extensions_of_names() {
    assert_eq!(ext_of("notes.txt"), Some("txt".into()));
    assert_eq!(ext_of("archive.tar.gz"), Some("gz".into()));
    assert_eq!(ext_of(".bashrc"), None);
    assert_eq!(ext_of("README"), None);
    assert_eq!(ext_of("trailing."), Some("".into()));
}

#[test]
fn file_results_decode_and_filter() {
    let output = "file:///home/u/My%20Notes.txt\nfile:///home/u/other.png\n\n";
    let r = file_results(output, "notes", 5);
    assert_eq!(r.found, vec!["/home/u/My Notes.txt".to_string()]);
    assert_eq!(r.shown, vec!["/home/u/My Notes.txt".to_string()]);
    let none = file_results(output, "notes", 0);
    assert_eq!(none.found.len(), 1);
    assert!(none.shown.is_empty());
}

#[test]
fn stale_keys_are_those_not_found() {
    let keys = vec!["a".to_string(), "b".to_string(), "c".to_string()];
    let found = vec!["b".to_string()];
    assert_eq!(stale_keys(&keys, &found), vec!["a".to_string(), "c".to_string()]);
}

#[test]
fn icons_for_files() {
    assert_eq!(file_icon("/home/u/music", true), "document-open-symbolic");
    assert_eq!(file_icon("/home/u/README", false), "folder-documents-symbolic");
    assert_eq!(file_icon("/home/u/notes.md", false), "x-office-document-symbolic");
    assert_eq!(file_icon("/home/u/photo.png", false), "image-x-generic-symbolic");
    assert_eq!(file_icon("/home/u/song.mp3", false), "folder-music-symbolic");
    assert_eq!(file_icon("/home/u/clip.mp4", false), "folder-videos-symbolic");
    assert_eq!(file_icon("/home/u/paper.pdf", false), "x-office-document-symbolic");
    assert_eq!(file_icon("/home/u/thing.unknownext", false), "folder-documents-symbolic");
}

#[test]
fn icons_from_mime_types() {
    assert_eq!(icon_for(None, None), "folder-documents-symbolic");
    assert_eq!(icon_for(Some("cmd"), Some("image/png")), "x-office-document-symbolic");
    assert_eq!(icon_for(Some("x"), Some("audio/ogg")), "folder-music-symbolic");
    assert_eq!(icon_for(Some("x"), Some("application/zip")), "folder-documents-symbolic");
    assert_eq!(icon_for(Some("x"), None), "folder-documents-symbolic");
}

#[test]
fn file_scores_kept() {
    assert_eq!(keep_file_score(Some(1)), Some(1));
    assert_eq!(keep_file_score(Some(0)), None);
    assert_eq!(keep_file_score(Some(-3)), None);
    assert_eq!(keep_file_score(None), None);
}

#[test]
fn shown_files_are_among_those_found() {
    let output = "file:///a/notes.txt\nfile:///b/notes.md\nfile:///c/nope.png\nfile:///d/n-o-t-e-s\n";
    let r = file_results(output, "notes", 2);
    assert_eq!(r.found.len(), 3);
    assert_eq!(r.shown.len(), 2);
    for s in &r.shown {
        assert!(r.found.contains(s));
    }
    let all = file_results(output, "notes", 10);
    assert_eq!(all.shown.len(), all.found.len());
}

#[test]
fn locations_to_open() {
    assert_eq!(location_to_open("/home/u/notes.txt", false), "/home/u");
    assert_eq!(location_to_open("/home/u/docs", true), "/home/u/docs");
    assert_eq!(location_to_open("notes.txt", false), "");
    assert_eq!(location_to_open("/", false), "/");
    assert_eq!(location_to_open("", false), "");
}

#[test]
fn stale_keys_are_exactly_those_not_found() {
    let keys: Vec<String> = ["/a", "/b", "/c", "/b"].iter().map(|s| s.to_string()).collect();
    let found: Vec<String> = ["/b", "/d"].iter().map(|s| s.to_string()).collect();
    let stale = stale_keys(&keys, &found);
    assert_eq!(stale, vec!["/a".to_string(), "/c".to_string()]);
    for k in &keys {
        assert_eq!(stale.contains(k), !found.contains(k));
    }
}
