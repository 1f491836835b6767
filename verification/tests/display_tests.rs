use frontend::api::FileItem;
use frontend::display::{count_label, properties_date, remaining_text, size_with_bytes};
use frontend::display::{format_date, format_size, format_size_comma, format_time, size_column};

/// The size text as the file list computes it with floats.
fn size_by_floats(bytes: u64) -> String {
    let kb = 1024_f64;
    let mb = kb * 1024_f64;
    let gb = mb * 1024_f64;
    let b = bytes as f64;
    if b >= gb {
        format!("{:.2} GB", b / gb)
    } else if b >= mb {
        format!("{:.2} MB", b / mb)
    } else if b >= kb {
        format!("{:.2} KB", b / kb)
    } else {
        format!("{} B", bytes)
    }
}

#[test]
fn format_size_small_values() {
    assert_eq!(format_size(0), "0 B");
    assert_eq!(format_size(1), "1 B");
    assert_eq!(format_size(1023), "1023 B");
    assert_eq!(format_size(1024), "1.00 KB");
    assert_eq!(format_size(1536), "1.50 KB");
    assert_eq!(format_size(1048576), "1.00 MB");
    assert_eq!(format_size(1073741824), "1.00 GB");
}

#[test]
fn format_size_ties_round_to_even() {
    // 1152 / 1024 = 1.125 exactly: the tie goes to the even cent.
    assert_eq!(format_size(1152), "1.12 KB");
    // 1176 / 1024 = 1.1484375, rounded down.
    assert_eq!(format_size(1176), "1.15 KB");
    // 1178 / 1024 = 1.150390625
    assert_eq!(format_size(1178), "1.15 KB");
}

#[test]
fn format_size_matches_float_formatting() {
    let mut samples: Vec<u64> = Vec::new();
    for b in 0..5000u64 {
        samples.push(b);
    }
    let mut x: u64 = 1;
    while x < u64::MAX / 3 {
        samples.push(x);
        samples.push(x + 1);
        samples.push(x - 1);
        samples.push(x * 3 / 2);
        x = x * 3 + 7;
    }
    for k in 0..64u32 {
        let p = 1u64 << k;
        samples.push(p);
        samples.push(p.wrapping_sub(1));
        samples.push(p + p / 2);
    }
    samples.push(u64::MAX);
    samples.push(u64::MAX - 1);
    samples.push((1u64 << 53) + 1);
    samples.push((1u64 << 53) + 3);
    for b in samples {
        assert_eq!(format_size(b), size_by_floats(b), "bytes = {}", b);
    }
}

#[test]
fn format_size_comma_uses_decimal_comma() {
    assert_eq!(format_size_comma(1536), "1,50 KB");
    assert_eq!(format_size_comma(500), "500 B");
    assert_eq!(format_size_comma(5 * 1073741824), "5,00 GB");
    assert_eq!(format_size_comma(123456789), size_by_floats(123456789).replace('.', ","));
}

#[test]
fn format_time_texts() {
    assert_eq!(format_time(0), "00:00");
    assert_eq!(format_time(59), "00:59");
    assert_eq!(format_time(61), "01:01");
    assert_eq!(format_time(3599), "59:59");
    assert_eq!(format_time(3600), "01:00:00");
    assert_eq!(format_time(3661), "01:01:01");
    assert_eq!(format_time(360000), "100:00:00");
}

#[test]
fn format_date_texts() {
    assert_eq!(format_date(0, 5, 2024, 0, 7), "1/5/24 12:07 AM");
    assert_eq!(format_date(11, 31, 1999, 13, 5), "12/31/99 1:05 PM");
    assert_eq!(format_date(5, 15, 2001, 12, 30), "6/15/1 12:30 PM");
    assert_eq!(format_date(2, 1, 2010, 11, 59), "3/1/10 11:59 AM");
}

fn item(name: &str, is_dir: bool, size: u64, children: Option<usize>) -> FileItem {
    FileItem {
        name: name.to_string(),
        path: name.to_string(),
        is_dir,
        size,
        modified_at: 0,
        thumbnail: None,
        children_count: children,
    }
}

#[test]
fn size_column_texts() {
    assert_eq!(size_column(&item("docs", true, 4096, Some(3))), "3 mục");
    assert_eq!(size_column(&item("docs", true, 4096, None)), "0 mục");
    assert_eq!(size_column(&item("a.bin", false, 2048, None)), "2.00 KB");
}

/// The size label of a picked file as the card computes it with floats.
fn card_by_floats(bytes: u64) -> String {
    let size_bytes = bytes as f64;
    if size_bytes < 1024.0 {
        format!("{} B", size_bytes)
    } else if size_bytes < 1048576.0 {
        format!("{:.1} KB", size_bytes / 1024.0)
    } else {
        format!("{:.2} MB", size_bytes / 1048576.0)
    }
}

#[test]
fn card_size_matches_float_formatting() {
    assert_eq!(frontend::display::card_size(512), "512 B");
    assert_eq!(frontend::display::card_size(1536), "1.5 KB");
    // 1088 / 1024 = 1.0625
    assert_eq!(frontend::display::card_size(1088), "1.1 KB");
    // 1075 / 1024 = 1.0498046875
    assert_eq!(frontend::display::card_size(1075), "1.0 KB");
    assert_eq!(frontend::display::card_size(3 * 1048576 + 262144), "3.25 MB");
    let mut b: u64 = 0;
    while b < 5_000_000_000 {
        assert_eq!(frontend::display::card_size(b), card_by_floats(b), "bytes = {}", b);
        b = b * 2 + 37;
        if b % 3 == 0 {
            b += 1;
        }
    }
    for b in 0..4096u64 {
        assert_eq!(frontend::display::card_size(b), card_by_floats(b), "bytes = {}", b);
    }
    for k in 0..60u32 {
        let b = (1u64 << k) + (1u64 << k) / 2;
        assert_eq!(frontend::display::card_size(b), card_by_floats(b), "bytes = {}", b);
    }
}

#[test]
fn badge_texts() {
    assert_eq!(frontend::display::badge_text("firmware.bin"), "BIN");
    assert_eq!(frontend::display::badge_text("movie.webm4k"), "WEBM");
    assert_eq!(frontend::display::badge_text("README"), "READ");
    assert_eq!(frontend::display::badge_text("a."), "");
}

#[test]
fn dialog_texts() {
    assert_eq!(count_label(0), "0 mục");
    assert_eq!(count_label(12), "12 mục");
    assert_eq!(size_with_bytes(1536), "1.50 KB (1536 Byte)");
    assert_eq!(size_with_bytes(7), "7 B (7 Byte)");
    assert_eq!(properties_date(5, 0, 2024, 9, 3), "5/1/24 9:03");
    assert_eq!(properties_date(31, 11, 2000, 23, 59), "31/12/0 23:59");
    assert_eq!(remaining_text(3725), "Thời gian còn lại: 01:02:05");
    assert_eq!(remaining_text(0), "Thời gian còn lại: 00:00:00");
    assert_eq!(remaining_text(360000), "Thời gian còn lại: 100:00:00");
}
