use frontend::api::FileItem;
use frontend::conflict::{answer_conflict, resolve_conflict, ConflictResolution, ConflictStep};
use frontend::listing::{sort_field, sort_files, sort_names, SortField};
use frontend::naming::{
    base_name, bulk_rename_plan, bulk_rename_plan_checked, copy_name, get_next_index,
    has_next_index,
};
use frontend::upload::{
    accepts, effective_template, file_kind, pick_limit, plan_upload, upload_chunks, ChunkSpan,
    Stamp, UploadFile,
};

fn strings(v: &[&str]) -> Vec<String> {
    v.iter().map(|s| s.to_string()).collect()
}

#[test]
fn next_indices() {
    assert_eq!(get_next_index("01"), "02");
    assert_eq!(get_next_index("09"), "10");
    assert_eq!(get_next_index("099"), "100");
    assert_eq!(get_next_index("99"), "100");
    assert_eq!(get_next_index("9"), "10");
    assert_eq!(get_next_index("+7"), "8");
    assert_eq!(get_next_index("a"), "b");
    assert_eq!(get_next_index("Y"), "Z");
    assert_eq!(get_next_index("z"), "z");
    assert_eq!(get_next_index("Z"), "Z");
    assert_eq!(get_next_index("ab"), "ab");
    assert_eq!(get_next_index(""), "");
    assert!(has_next_index("4294967294"));
    assert_eq!(get_next_index("4294967294"), "4294967295");
    assert!(!has_next_index("4294967295"));
    assert!(has_next_index("4294967296"));
    assert_eq!(get_next_index("4294967296"), "4294967296");
}

#[test]
fn copy_names() {
    assert_eq!(copy_name("a.txt"), "a (1).txt");
    assert_eq!(copy_name("a"), "a (1)");
    assert_eq!(copy_name("a.b.c"), "a.b (1).c");
    assert_eq!(copy_name(".env"), " (1).env");
    assert_eq!(copy_name("x."), "x (1)");
}

#[test]
fn bulk_renames() {
    let names = strings(&["b.jpg", "a.png", "c"]);
    let sorted = sort_names(names);
    assert_eq!(sorted, strings(&["a.png", "b.jpg", "c"]));
    assert_eq!(base_name(&sorted[0]), "a");
    assert_eq!(base_name("noext"), "noext");
    let plan = bulk_rename_plan(&sorted, "trip", "Trip ", "08", "Mặc định");
    let got: Vec<(String, String)> = plan.into_iter().map(|s| (s.path, s.new_name)).collect();
    assert_eq!(
        got,
        vec![
            ("trip/a.png".to_string(), "Trip 08.png".to_string()),
            ("trip/b.jpg".to_string(), "Trip 09.jpg".to_string()),
            ("trip/c".to_string(), "Trip 10".to_string()),
        ]
    );
    let plan = bulk_rename_plan(&sorted, "", "x", "a", "jpg");
    let got: Vec<String> = plan.into_iter().map(|s| s.new_name).collect();
    assert_eq!(got, strings(&["xa.jpg", "xb.jpg", "xc.jpg"]));
    let plan = bulk_rename_plan(&sorted, "", "x", "1", ".webp");
    assert_eq!(plan[2].new_name, "x3.webp");
    assert_eq!(plan[2].path, "c");
    assert!(bulk_rename_plan_checked(&sorted, "", "x", "4294967294", "").is_none());
    assert!(bulk_rename_plan_checked(&sorted, "", "x", "4294967293", "").is_none());
    assert!(bulk_rename_plan_checked(&sorted, "", "x", "4294967292", "").is_some());
}

fn item(name: &str, is_dir: bool, size: u64, t: u64) -> FileItem {
    FileItem {
        name: name.to_string(),
        path: name.to_string(),
        is_dir,
        size,
        modified_at: t,
        thumbnail: None,
        children_count: None,
    }
}

fn names(v: &[FileItem]) -> Vec<String> {
    v.iter().map(|f| f.name.clone()).collect()
}

/// The listing order as the file list writes it with `sort_by`.
fn reference_sort(mut files: Vec<FileItem>, sort_key: &str, desc: bool) -> Vec<FileItem> {
    files.sort_by(|a, b| {
        let dir_cmp = b.is_dir.cmp(&a.is_dir);
        if dir_cmp != std::cmp::Ordering::Equal {
            return dir_cmp;
        }
        let c = match sort_key {
            "size" => a.size.cmp(&b.size),
            "time" => a.modified_at.cmp(&b.modified_at),
            "type" => {
                let ext_a = a.name.rsplit('.').next().unwrap_or("").to_lowercase();
                let ext_b = b.name.rsplit('.').next().unwrap_or("").to_lowercase();
                ext_a.cmp(&ext_b).then_with(|| a.name.to_lowercase().cmp(&b.name.to_lowercase()))
            }
            _ => a.name.to_lowercase().cmp(&b.name.to_lowercase()),
        };
        if desc {
            c.reverse()
        } else {
            c
        }
    });
    files
}

#[test]
fn listing_order() {
    let files = vec![
        item("b.TXT", false, 30, 5),
        item("Zeta", true, 0, 9),
        item("a.jpg", false, 10, 7),
        item("B.txt", false, 30, 1),
        item("alpha", true, 0, 2),
        item("c", false, 20, 7),
        item("readme", false, 5, 3),
    ];
    for key in ["name", "size", "time", "type", "other"] {
        for desc in [false, true] {
            let got = sort_files(files.clone(), key, desc);
            let want = reference_sort(files.clone(), key, desc);
            assert_eq!(names(&got), names(&want), "key {} desc {}", key, desc);
        }
    }
    let got = sort_files(files.clone(), "name", false);
    assert_eq!(names(&got)[..2], ["alpha".to_string(), "Zeta".to_string()]);
    assert_eq!(sort_field("size"), SortField::Size);
    assert_eq!(sort_field("SIZE"), SortField::Name);
}

#[test]
fn conflicts() {
    let existing = strings(&["a.txt", "a (1).txt", "b"]);
    match resolve_conflict(&existing, "c.txt", None) {
        ConflictStep::Proceed { name, overwrite } => {
            assert_eq!(name, "c.txt");
            assert!(!overwrite);
        }
        _ => panic!("free name"),
    }
    match resolve_conflict(&existing, "a.txt", None) {
        ConflictStep::Ask { name } => assert_eq!(name, "a.txt"),
        _ => panic!("ask"),
    }
    assert!(matches!(resolve_conflict(&existing, "a.txt", Some(ConflictResolution::Skip)), ConflictStep::Skip));
    match resolve_conflict(&existing, "a.txt", Some(ConflictResolution::Overwrite)) {
        ConflictStep::Proceed { name, overwrite } => {
            assert_eq!(name, "a.txt");
            assert!(overwrite);
        }
        _ => panic!("overwrite"),
    }
    match resolve_conflict(&existing, "a.txt", Some(ConflictResolution::Rename)) {
        ConflictStep::Proceed { name, overwrite } => {
            assert_eq!(name, "a (1) (1).txt");
            assert!(!overwrite);
        }
        _ => panic!("rename"),
    }
    let (step, global) = answer_conflict(&existing, "b", Some((ConflictResolution::Rename, true)), None);
    assert_eq!(global, Some(ConflictResolution::Rename));
    match step {
        ConflictStep::Proceed { name, .. } => assert_eq!(name, "b (1)"),
        _ => panic!("renamed"),
    }
    let (step, global) = answer_conflict(&existing, "b", None, None);
    assert!(matches!(step, ConflictStep::Skip));
    assert_eq!(global, None);
    let (step, global) = answer_conflict(&existing, "b", Some((ConflictResolution::Overwrite, false)), None);
    assert!(matches!(step, ConflictStep::Proceed { overwrite: true, .. }));
    assert_eq!(global, None);
}

fn upload(name: &str, rel: Option<&str>) -> UploadFile {
    UploadFile {
        name: name.to_string(),
        rel_path: rel.map(|s| s.to_string()),
        stamp: Stamp { year: 2024, month: 3, day: 7, hours: 9, minutes: 5 },
    }
}

#[test]
fn upload_plans() {
    assert_eq!(effective_template("  "), "dva facebook yyyy-MM-dd HHhMM' [type]");
    assert_eq!(effective_template("x"), "x");
    assert_eq!(file_kind("MP4"), "video");
    assert_eq!(file_kind("pptx"), "document");
    assert_eq!(file_kind("7z"), "archive");
    assert_eq!(file_kind(""), "file");

    let files = vec![upload("a.mp4", None), upload("b.mp4", Some("")), upload("c.jpg", None), upload("d.txt", Some("Trip/Day1/d.txt"))];
    let plan = plan_upload("up", &files, true, "");
    let got: Vec<(String, String)> = plan.into_iter().map(|t| (t.dir, t.name)).collect();
    assert_eq!(
        got,
        vec![
            ("up".to_string(), "dva facebook 2024-03-07 09h05' video (0).mp4".to_string()),
            ("up".to_string(), "dva facebook 2024-03-07 09h05' video (1).mp4".to_string()),
            ("up".to_string(), "dva facebook 2024-03-07 09h05' image.jpg".to_string()),
            ("up/Trip/Day1".to_string(), "d.txt".to_string()),
        ]
    );
    let plan = plan_upload("", &files, false, "");
    let got: Vec<(String, String)> = plan.into_iter().map(|t| (t.dir, t.name)).collect();
    assert_eq!(got[0], ("".to_string(), "a.mp4".to_string()));
    assert_eq!(got[3], ("Trip/Day1".to_string(), "d.txt".to_string()));
    let plan = plan_upload("", &vec![upload("clip.mp4", None)], true, "[type]_HHhMM.mp4");
    assert_eq!(plan[0].name, "video_09h05.mp4");
}

#[test]
fn upload_chunking() {
    assert_eq!(upload_chunks(0), vec![ChunkSpan { index: 0, total: 1, start: 0, end: 0 }]);
    assert_eq!(upload_chunks(10), vec![ChunkSpan { index: 0, total: 1, start: 0, end: 10 }]);
    assert_eq!(upload_chunks(2097152), vec![ChunkSpan { index: 0, total: 1, start: 0, end: 2097152 }]);
    let c = upload_chunks(2097153);
    assert_eq!(
        c,
        vec![
            ChunkSpan { index: 0, total: 2, start: 0, end: 2097152 },
            ChunkSpan { index: 1, total: 2, start: 2097152, end: 2097153 },
        ]
    );
    for size in [1u64, 4194304, 4194305, 10_000_000, 123_456_789] {
        let c = upload_chunks(size);
        let chunk_size = 2_f64 * 1024.0 * 1024.0;
        let total = (size as f64 / chunk_size).ceil() as usize;
        assert_eq!(c.len(), total);
        let mut at = 0u64;
        for (k, s) in c.iter().enumerate() {
            assert_eq!(s.index, k as u64);
            assert_eq!(s.start, at);
            let end = ((k as f64 + 1.0) * chunk_size).min(size as f64) as u64;
            assert_eq!(s.end, end);
            at = s.end;
        }
        assert_eq!(at, size);
    }
}

#[test]
fn drop_zone_filter() {
    assert!(accepts("*/*", "anything", ""));
    assert!(accepts(".bin", "FW.BIN", "application/octet-stream"));
    assert!(!accepts(".bin", "fw.hex", "application/octet-stream"));
    assert!(accepts(".srt, .VTT", "sub.vtt", "text/vtt"));
    assert!(accepts("video/*", "clip.mkv", "Video/X-Matroska"));
    assert!(!accepts("video/*", "song.mp3", "audio/mpeg"));
    assert!(accepts("application/json", "x", "application/json"));
    assert!(!accepts("application/json", "x.json", "text/plain"));
    assert!(!accepts(" */* ", "x", "text/plain"));
    assert_eq!(pick_limit(5, true), 5);
    assert_eq!(pick_limit(5, false), 1);
}
