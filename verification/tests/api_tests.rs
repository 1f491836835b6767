use frontend::api::{
    copy_files_request, create_folder_request, default_auto_skip, default_playback_mode,
    default_subtitle_mode, delete_files_request, empty_trash_request, fetch_disk_usage_request,
    fetch_files_request, fetch_folder_settings_request, get_file_checksum_request,
    get_file_properties_request, get_multi_file_properties_request, get_trash_request,
    move_files_request, read_text_file_request, regen_single_thumbnail_request,
    rename_file_request, restore_trash_request, status_error_text, upload_chunk_url,
    write_text_file_request, zip_files_request, ApiRequest, HttpMethod, MultiPropertiesReq, ZipReq,
};
use serde_json::Value;

fn strings(v: &[&str]) -> Vec<String> {
    v.iter().map(|s| s.to_string()).collect()
}

fn json_strings(v: &[&str]) -> Value {
    Value::Array(v.iter().map(|s| Value::String(s.to_string())).collect())
}

/// The compact JSON text of an object, keys in serde_json's map order.
fn object(fields: Vec<(&str, Value)>) -> String {
    let mut m = serde_json::Map::new();
    for (k, v) in fields {
        m.insert(k.to_string(), v);
    }
    Value::Object(m).to_string()
}

fn body(r: &ApiRequest) -> String {
    r.body.clone().expect("a body")
}

#[test]
fn folder_settings_defaults() {
    assert_eq!(default_playback_mode(), "once");
    assert_eq!(default_subtitle_mode(), 1);
    assert!(default_auto_skip());
}

#[test]
fn listing_requests() {
    let r = fetch_files_request("");
    assert_eq!(r.method, HttpMethod::Get);
    assert_eq!(r.url, "/api/v1/files");
    assert!(r.body.is_none());
    let r = fetch_files_request("Movies/a b");
    assert_eq!(r.url, "/api/v1/files?path=Movies/a b");
    assert_eq!(fetch_disk_usage_request().url, "/api/v1/files/disk");
    assert_eq!(get_trash_request().url, "/api/v1/files/trash");
    assert_eq!(get_trash_request().method, HttpMethod::Get);
}

#[test]
fn create_folder_body_matches_serde_json() {
    let r = create_folder_request("docs", "new \"x\"\n\tend\u{1}");
    assert_eq!(r.method, HttpMethod::Post);
    assert_eq!(r.url, "/api/v1/files/folder");
    let expected = object(vec![
        ("path", Value::String("docs".to_string())),
        ("name", Value::String("new \"x\"\n\tend\u{1}".to_string())),
    ]);
    assert_eq!(body(&r), expected);
    assert_eq!(body(&r), "{\"name\":\"new \\\"x\\\"\\n\\tend\\u0001\",\"path\":\"docs\"}");
}

#[test]
fn json_strings_escape_like_serde_json() {
    let samples = ["", "plain", "back\\slash", "quote\"", "\u{8}\u{c}\r\n\t", "\u{1f}\u{7f}", "Tiếng Việt 🎬", "/slash/"];
    for s in samples {
        let r = regen_single_thumbnail_request(s);
        assert_eq!(body(&r), object(vec![("path", Value::String(s.to_string()))]), "{:?}", s);
    }
}

#[test]
fn upload_chunk_addresses() {
    assert_eq!(
        upload_chunk_url("a/b c", "x y.mp4", 0, 3, 0, Some(1700000000000)),
        "/api/v1/files/upload?path=a%2Fb%20c&name=x%20y.mp4&chunk=0&total=3&offset=0&mtime=1700000000000"
    );
    assert_eq!(
        upload_chunk_url("", "ả.txt", 2, 5, 4194304, None),
        "/api/v1/files/upload?path=&name=%E1%BA%A3.txt&chunk=2&total=5&offset=4194304"
    );
}

#[test]
fn move_and_copy_bodies() {
    let paths = strings(&["a/1.txt", "a/2.txt"]);
    let r = move_files_request(
        paths.clone(),
        "b".to_string(),
        Some("tpl [type]".to_string()),
        Some(true),
        Some(strings(&["a/2.txt"])),
    );
    assert_eq!(r.method, HttpMethod::Put);
    assert_eq!(r.url, "/api/v1/files/move");
    let expected = object(vec![
        ("paths", json_strings(&["a/1.txt", "a/2.txt"])),
        ("dest_path", Value::String("b".to_string())),
        ("smart_rename_template", Value::String("tpl [type]".to_string())),
        ("use_file_time", Value::Bool(true)),
        ("overwrite_paths", json_strings(&["a/2.txt"])),
    ]);
    assert_eq!(body(&r), expected);

    let r = copy_files_request(paths, "".to_string(), None, None, None);
    assert_eq!(r.method, HttpMethod::Post);
    assert_eq!(r.url, "/api/v1/files/copy");
    let expected = object(vec![
        ("paths", json_strings(&["a/1.txt", "a/2.txt"])),
        ("dest_path", Value::String("".to_string())),
        ("smart_rename_template", Value::Null),
        ("use_file_time", Value::Null),
        ("overwrite_paths", Value::Null),
    ]);
    assert_eq!(body(&r), expected);
}

#[test]
fn delete_and_trash_bodies() {
    let r = delete_files_request(strings(&["x", "y z"]), true);
    assert_eq!(r.method, HttpMethod::Delete);
    assert_eq!(r.url, "/api/v1/files");
    assert_eq!(body(&r), "{\"paths\":[\"x\",\"y z\"],\"permanent\":true}");
    let r = delete_files_request(Vec::new(), false);
    assert_eq!(body(&r), "{\"paths\":[],\"permanent\":false}");

    let r = restore_trash_request("t-1".to_string());
    assert_eq!(r.url, "/api/v1/files/trash/restore");
    assert_eq!(r.method, HttpMethod::Post);
    assert_eq!(body(&r), "{\"id\":\"t-1\"}");

    let r = empty_trash_request(None);
    assert_eq!(r.method, HttpMethod::Delete);
    assert_eq!(r.url, "/api/v1/files/trash");
    assert_eq!(body(&r), "{\"ids\":null}");
    let r = empty_trash_request(Some(strings(&["a", "b"])));
    assert_eq!(body(&r), object(vec![("ids", json_strings(&["a", "b"]))]));
}

#[test]
fn rename_body_order() {
    let r = rename_file_request("dir/old.txt".to_string(), "new.txt".to_string());
    assert_eq!(r.method, HttpMethod::Put);
    assert_eq!(r.url, "/api/v1/files/rename");
    assert_eq!(body(&r), "{\"new_name\":\"new.txt\",\"old_path\":\"dir/old.txt\"}");
}

#[test]
fn encoded_path_queries() {
    assert_eq!(
        get_file_properties_request("dir/ả b.txt").url,
        "/api/v1/files/properties?path=dir%2F%E1%BA%A3%20b.txt"
    );
    assert_eq!(get_file_checksum_request("a&b").url, "/api/v1/files/checksum?path=a%26b");
    assert_eq!(read_text_file_request("x(1).md").url, "/api/v1/files/text?path=x(1).md");
    assert_eq!(fetch_folder_settings_request("").url, "/api/v1/files/settings?path=");
}

#[test]
fn struct_bodies_keep_field_order() {
    let z = ZipReq { paths: strings(&["a", "b"]), output_name: "out.zip".to_string() };
    assert_eq!(z.to_json(), "{\"paths\":[\"a\",\"b\"],\"output_name\":\"out.zip\"}");
    let r = zip_files_request(strings(&["a"]), "o.zip".to_string());
    assert_eq!(r.url, "/api/v1/files/zip");
    assert_eq!(body(&r), "{\"paths\":[\"a\"],\"output_name\":\"o.zip\"}");

    let m = MultiPropertiesReq { paths: strings(&["p\"q"]) };
    assert_eq!(m.to_json(), "{\"paths\":[\"p\\\"q\"]}");
    let r = get_multi_file_properties_request(strings(&["a", "b"]));
    assert_eq!(r.url, "/api/v1/files/properties_multi");
    assert_eq!(body(&r), "{\"paths\":[\"a\",\"b\"]}");

    let r = write_text_file_request("n.txt", "line1\nline2");
    assert_eq!(r.url, "/api/v1/files/text");
    assert_eq!(r.method, HttpMethod::Post);
    assert_eq!(body(&r), "{\"path\":\"n.txt\",\"content\":\"line1\\nline2\"}");
}

#[test]
fn status_error_texts() {
    assert_eq!(status_error_text("Error fetching files", 404), "Error fetching files: 404");
    assert_eq!(status_error_text("Lỗi khi khôi phục", 500), "Lỗi khi khôi phục: 500");
    assert_eq!(status_error_text("", 0), ": 0");
}
