use frontend::api::{FileItem, HttpMethod};
use frontend::browser::{
    breadcrumbs, code_theme_href, delete_label, initial_theme, last_segment, media_category, media_neighbor, new_entry_request,
    paste_request, rename_request, row_class, row_click, select_all, text_ext, text_neighbor, toggled_theme,
    ClipAction, MediaCategory, RowAction,
};
use frontend::selection::{full_paths, NameSet};

fn file(name: &str, path: &str, is_dir: bool) -> FileItem {
    FileItem {
        name: name.to_string(),
        path: path.to_string(),
        is_dir,
        size: 10,
        modified_at: 0,
        thumbnail: None,
        children_count: None,
    }
}

fn files(names: &[&str]) -> Vec<FileItem> {
    names.iter().map(|n| file(n, &format!("dir/{}", n), false)).collect()
}

#[test]
fn selection_toggle_twice_restores() {
    let mut s = NameSet::new();
    assert!(s.is_empty());
    s.toggle("a.txt".to_string());
    assert!(s.contains(&"a.txt".to_string()));
    assert_eq!(s.len(), 1);
    s.toggle("b.txt".to_string());
    s.toggle("a.txt".to_string());
    assert!(!s.contains(&"a.txt".to_string()));
    assert!(s.contains(&"b.txt".to_string()));
    s.toggle("a.txt".to_string());
    s.toggle("a.txt".to_string());
    assert_eq!(s.to_vec(), vec!["b.txt".to_string()]);
    s.insert("b.txt".to_string());
    assert_eq!(s.len(), 1);
    s.remove(&"b.txt".to_string());
    assert!(s.is_empty());
    s.insert("x".to_string());
    s.clear();
    assert!(s.is_empty());
}

#[test]
fn clipboard_full_paths() {
    let mut s = NameSet::new();
    s.insert("a.txt".to_string());
    s.insert("b".to_string());
    let mut p = full_paths("docs", &s);
    p.sort();
    assert_eq!(p, vec!["docs/a.txt".to_string(), "docs/b".to_string()]);
    let mut p = full_paths("", &s);
    p.sort();
    assert_eq!(p, vec!["a.txt".to_string(), "b".to_string()]);
}

#[test]
fn row_clicks() {
    let empty = NameSet::new();
    let mut some = NameSet::new();
    some.insert("x".to_string());
    assert!(matches!(row_click(&some, &file("a.mp4", "d/a.mp4", false), 0), RowAction::ToggleSelection));
    match row_click(&empty, &file("sub", "d/sub", true), 0) {
        RowAction::OpenFolder { url } => assert_eq!(url, "/d/sub"),
        _ => panic!("folder"),
    }
    match row_click(&empty, &file("Clip.MP4", "d/Clip.MP4", false), 7) {
        RowAction::OpenMedia { index } => assert_eq!(index, 7),
        _ => panic!("media"),
    }
    match row_click(&empty, &file("song.flac", "song.flac", false), 2) {
        RowAction::OpenMedia { index } => assert_eq!(index, 2),
        _ => panic!("audio"),
    }
    match row_click(&empty, &file("notes.md", "d/notes.md", false), 1) {
        RowAction::EditText { path } => assert_eq!(path, "d/notes.md"),
        _ => panic!("text"),
    }
    match row_click(&empty, &file("a b.zip", "d/a b.zip", false), 1) {
        RowAction::Download { url } => assert_eq!(url, "/api/v1/files/download?path=d%2Fa%20b.zip"),
        _ => panic!("download"),
    }
}

#[test]
fn row_classes() {
    let mut clip = NameSet::new();
    clip.insert("docs/a.txt".to_string());
    let mut sel = NameSet::new();
    sel.insert(".hidden".to_string());
    let a = "a.txt".to_string();
    let h = ".hidden".to_string();
    assert_eq!(row_class("docs", &a, Some(ClipAction::Cut), &clip, &sel), "file-item-row cut-fade");
    assert_eq!(row_class("docs", &a, Some(ClipAction::Copy), &clip, &sel), "file-item-row");
    assert_eq!(row_class("docs", &h, None, &clip, &sel), "file-item-row hidden-item-fade selected-row");
    assert_eq!(row_class("", &a, Some(ClipAction::Cut), &clip, &NameSet::new()), "file-item-row");
}

#[test]
fn media_categories_and_neighbours() {
    assert_eq!(media_category("a.MKV"), MediaCategory::Video);
    assert_eq!(media_category("a.mpd"), MediaCategory::Video);
    assert_eq!(media_category("a.aac"), MediaCategory::Audio);
    assert_eq!(media_category("a.Jpeg"), MediaCategory::Image);
    assert_eq!(media_category("a.txt"), MediaCategory::Other);
    let fs = files(&["a.mp4", "b.jpg", "c.mp4", "d.mp3", "e.mkv"]);
    assert_eq!(media_neighbor(&fs, 0, true), Some(2));
    assert_eq!(media_neighbor(&fs, 2, true), Some(4));
    assert_eq!(media_neighbor(&fs, 4, true), None);
    assert_eq!(media_neighbor(&fs, 4, false), Some(2));
    assert_eq!(media_neighbor(&fs, 1, false), None);
    assert_eq!(media_neighbor(&fs, 3, true), None);
    // Past the end, the kind is "other".
    assert_eq!(media_neighbor(&fs, 5, false), None);
    assert_eq!(media_neighbor(&fs, 9, true), None);
}

#[test]
fn text_extensions_and_neighbours() {
    assert_eq!(text_ext("README.MD"), ".md");
    assert_eq!(text_ext("Makefile"), "other");
    assert_eq!(text_ext("a.tar.gz"), ".gz");
    let fs = files(&["a.txt", "b.md", "c.txt", "d.TXT", "e.rs"]);
    assert_eq!(text_neighbor("dir/a.txt", &fs, true), Some(2));
    assert_eq!(text_neighbor("dir/c.txt", &fs, true), Some(3));
    assert_eq!(text_neighbor("dir/c.txt", &fs, false), Some(0));
    assert_eq!(text_neighbor("dir/b.md", &fs, true), None);
    assert_eq!(text_neighbor("dir/zzz.txt", &fs, true), None);
    assert_eq!(text_neighbor("a.txt", &fs, false), None);
}

#[test]
fn dialog_requests() {
    assert!(new_entry_request("folder", "docs", "  ").is_none());
    let r = new_entry_request("folder", "docs", "New").unwrap();
    assert_eq!(r.url, "/api/v1/files/folder");
    assert_eq!(r.body.unwrap(), "{\"name\":\"New\",\"path\":\"docs\"}");
    let r = new_entry_request("file", "docs", "a.txt").unwrap();
    assert_eq!(r.url, "/api/v1/files/text");
    assert_eq!(r.body.unwrap(), "{\"path\":\"docs/a.txt\",\"content\":\"\"}");
    let r = new_entry_request("file", "", "a.txt").unwrap();
    assert_eq!(r.body.unwrap(), "{\"path\":\"a.txt\",\"content\":\"\"}");
    assert!(new_entry_request("other", "docs", "x").is_none());

    let old = "a.txt".to_string();
    assert!(rename_request("d", &old, &"a.txt".to_string()).is_none());
    assert!(rename_request("d", &old, &" \t".to_string()).is_none());
    let r = rename_request("d", &old, &"b.txt".to_string()).unwrap();
    assert_eq!(r.method, HttpMethod::Put);
    assert_eq!(r.body.unwrap(), "{\"new_name\":\"b.txt\",\"old_path\":\"d/a.txt\"}");
}

#[test]
fn paste_requests() {
    let paths = vec!["a/1.txt".to_string()];
    assert!(paste_request(Some(ClipAction::Cut), Vec::new(), "b".to_string(), false, "", true, Vec::new()).is_none());
    assert!(paste_request(None, paths.clone(), "b".to_string(), false, "", true, Vec::new()).is_none());
    let r = paste_request(Some(ClipAction::Cut), paths.clone(), "b".to_string(), false, "x", true, Vec::new()).unwrap();
    assert_eq!(r.method, HttpMethod::Put);
    assert_eq!(r.url, "/api/v1/files/move");
    assert_eq!(
        r.body.unwrap(),
        "{\"dest_path\":\"b\",\"overwrite_paths\":[],\"paths\":[\"a/1.txt\"],\"smart_rename_template\":null,\"use_file_time\":true}"
    );
    let r = paste_request(Some(ClipAction::Copy), paths, "b".to_string(), true, " ", false, vec!["a/1.txt".to_string()]).unwrap();
    assert_eq!(r.method, HttpMethod::Post);
    assert_eq!(r.url, "/api/v1/files/copy");
    assert_eq!(
        r.body.unwrap(),
        "{\"dest_path\":\"b\",\"overwrite_paths\":[\"a/1.txt\"],\"paths\":[\"a/1.txt\"],\"smart_rename_template\":\"dva facebook yyyy-MM-dd HHhMM' [type]\",\"use_file_time\":false}"
    );
}

#[test]
fn breadcrumb_trail() {
    let c = breadcrumbs("Movies//2024/Trip");
    let got: Vec<(String, String)> = c.into_iter().map(|k| (k.label, k.url)).collect();
    assert_eq!(
        got,
        vec![
            ("Movies".to_string(), "/Movies".to_string()),
            ("2024".to_string(), "/Movies/2024".to_string()),
            ("Trip".to_string(), "/Movies/2024/Trip".to_string()),
        ]
    );
    assert!(breadcrumbs("").is_empty());
    assert!(breadcrumbs("///").is_empty());
}

#[test]
fn themes() {
    assert_eq!(initial_theme(None), "dark");
    assert_eq!(initial_theme(Some("light".to_string())), "light");
    assert_eq!(initial_theme(Some("blue".to_string())), "dark");
    assert_eq!(toggled_theme("dark"), "light");
    assert_eq!(toggled_theme("light"), "dark");
    assert_eq!(toggled_theme(&toggled_theme("light")), "light");
    assert_eq!(toggled_theme("anything"), "dark");
    assert!(code_theme_href("dark").ends_with("atom-one-dark.min.css"));
    assert!(code_theme_href("light").ends_with("atom-one-light.min.css"));
}

#[test]
fn delete_labels_and_select_all() {
    assert_eq!(delete_label(&vec!["a/b/c.txt".to_string()]), "c.txt");
    assert_eq!(delete_label(&vec!["a".to_string(), "b".to_string()]), "2 mục");
    assert_eq!(last_segment("x/y/z"), "z");
    assert_eq!(last_segment("plain"), "plain");
    let fs = files(&["a", "b", "a"]);
    let s = select_all(&fs);
    assert_eq!(s.len(), 2);
    assert!(s.contains(&"a".to_string()) && s.contains(&"b".to_string()));
}
