use frontend::subtitles::{
    filter_vtt, lang_subtitle_url, languages_from_keys, media_src, sidecar_urls, skip_rules_url,
    subtitle_track_url, vsub_languages,
};
use frontend::uri::encode_uri_component;

/// The subtitle filter as the player writes it, with `f32` positions.
fn reference_filter(text: &str, mode: u8) -> String {
    let blocks = text.split("\n\n");
    let mut new_text = String::new();
    for block in blocks {
        if block.is_empty() {
            continue;
        }
        let mut lines: Vec<&str> = block.split('\n').collect();
        let mut is_cue = false;
        let mut text_start = 0;
        let mut timestamp_line = "";
        for (i, line) in lines.iter().enumerate() {
            if line.contains("-->") {
                is_cue = true;
                text_start = i + 1;
                timestamp_line = line;
                break;
            }
        }
        if is_cue && text_start < lines.len() {
            let mut text_lines = lines[text_start..].to_vec();
            let mut has_position = false;
            let mut is_top = timestamp_line.contains("{\\an7}")
                || timestamp_line.contains("{\\an8}")
                || timestamp_line.contains("{\\an9}");
            if let Some(idx) = timestamp_line.find("line:") {
                has_position = true;
                let rest = &timestamp_line[idx + 5..];
                let end_idx = rest.find(|c: char| !c.is_ascii_digit() && c != '.').unwrap_or(rest.len());
                let num_str = &rest[..end_idx];
                if let Ok(num) = num_str.parse::<f32>() {
                    is_top = num >= 0.0 && num < 50.0;
                }
            }
            if is_top {
                has_position = true;
            }
            if has_position {
                if mode == 2 && !is_top {
                    continue;
                } else if mode == 3 && is_top {
                    continue;
                }
            } else if text_lines.len() >= 2 {
                if mode == 2 {
                    text_lines = vec![text_lines[0]];
                } else if mode == 3 {
                    text_lines = vec![text_lines[text_lines.len() - 1]];
                }
            } else if text_lines.len() == 1 && mode == 2 {
                continue;
            }
            lines.truncate(text_start);
            lines.extend(text_lines);
        }
        new_text.push_str(&lines.join("\n"));
        new_text.push_str("\n\n");
    }
    new_text
}

fn samples() -> Vec<String> {
    let cues = [
        "WEBVTT",
        "1\n00:00:01.000 --> 00:00:02.000\nTop line\nBottom line",
        "00:00:03.000 --> 00:00:04.000 line:10%\nPlaced high",
        "00:00:05.000 --> 00:00:06.000 line:90%\nPlaced low",
        "00:00:07.000 --> 00:00:08.000 {\\an8}\nTagged top",
        "00:00:09.000 --> 00:00:10.000\nOnly one line",
        "00:00:11.000 --> 00:00:12.000 line:49.99999\nNear the middle",
        "00:00:11.000 --> 00:00:12.000 line:49.9999999\nRounds to fifty",
        "00:00:11.000 --> 00:00:12.000 line:50\nAt fifty",
        "00:00:11.000 --> 00:00:12.000 line:.5\nLeading dot",
        "00:00:11.000 --> 00:00:12.000 line:1.2.3\nTwo dots",
        "00:00:11.000 --> 00:00:12.000 line:abc {\\an7}\nNo number",
        "00:00:11.000 --> 00:00:12.000 line:0049.5\nZeros first",
        "00:00:13.000 --> 00:00:14.000",
        "NOTE no cue here\nstill none",
        "00:00:15.000 --> 00:00:16.000\nA\nB\nC",
    ];
    let mut out = Vec::new();
    out.push(cues.join("\n\n"));
    out.push(String::new());
    out.push("\n\n\n\n".to_string());
    out.push(cues[1..4].join("\n\n\n"));
    for c in cues.iter() {
        out.push(c.to_string());
        out.push(format!("{}\n\n", c));
    }
    out
}

#[test]
fn filter_matches_reference() {
    for text in samples() {
        for mode in 0..5u8 {
            assert_eq!(filter_vtt(&text, mode), reference_filter(&text, mode), "mode {} text {:?}", mode, text);
        }
    }
}

#[test]
fn filter_modes_examples() {
    let text = "00:00:01.000 --> 00:00:02.000\nTop line\nBottom line";
    assert_eq!(filter_vtt(text, 1), "00:00:01.000 --> 00:00:02.000\nTop line\nBottom line\n\n");
    assert_eq!(filter_vtt(text, 2), "00:00:01.000 --> 00:00:02.000\nTop line\n\n");
    assert_eq!(filter_vtt(text, 3), "00:00:01.000 --> 00:00:02.000\nBottom line\n\n");
    let high = "00:00:03.000 --> 00:00:04.000 line:10%\nPlaced high";
    assert_eq!(filter_vtt(high, 3), "");
    assert_eq!(filter_vtt(high, 2), format!("{}\n\n", high));
}

#[test]
fn track_urls() {
    assert_eq!(subtitle_track_url("", 1), "");
    assert_eq!(subtitle_track_url("WEBVTT", 0), "");
    let text = "WEBVTT\n\n00:00:01.000 --> 00:00:02.000\nHi there";
    let expected = format!("data:text/vtt;charset=utf-8,{}", encode_uri_component(&reference_filter(text, 1)));
    assert_eq!(subtitle_track_url(text, 1), expected);
    assert!(expected.starts_with("data:text/vtt;charset=utf-8,WEBVTT%0A%0A00%3A00%3A01.000%20--%3E"));
}

#[test]
fn encode_uri_component_examples() {
    assert_eq!(encode_uri_component("abc-_.!~*'()"), "abc-_.!~*'()");
    assert_eq!(encode_uri_component("a b/c?d=e&f"), "a%20b%2Fc%3Fd%3De%26f");
    assert_eq!(encode_uri_component("ả"), "%E1%BA%A3");
    assert_eq!(encode_uri_component("🎬"), "%F0%9F%8E%AC");
    assert_eq!(encode_uri_component(""), "");
}

#[test]
fn subtitle_addresses() {
    assert_eq!(
        lang_subtitle_url("/storages/Movies/a.b.mp4", "en"),
        "/api/v1/subtitle?file=Movies/a.b.vsub&lang=en"
    );
    assert_eq!(lang_subtitle_url("x/noext", "vi"), "/api/v1/subtitle?file=x/noext.vsub&lang=vi");
    assert_eq!(
        sidecar_urls("/storages/a/b.mp4"),
        ("/storages/a/b.vtt".to_string(), "/storages/a/b.vsub".to_string())
    );
    assert_eq!(skip_rules_url("/storages/a/b.mp4", 1700), Some("/storages/a/.vskip?t=1700".to_string()));
    assert_eq!(skip_rules_url("b.mp4", 1), None);
    assert_eq!(media_src("Phim hay/tập 1.mp4"), "/storages/Phim%20hay/t%E1%BA%ADp%201.mp4");
    assert_eq!(media_src(""), "/storages/");
}

#[test]
fn vsub_language_choice() {
    let text = "[vi]\n1 = \"x\"\n\n  [ en ]  \n1 = \"y\"\n[vi]\n";
    // A table with a repeated section does not parse.
    let c = vsub_languages(text);
    assert_eq!(c.langs.len(), 1);
    assert!(c.langs[0].starts_with("Lỗi Parse TOML: "));
    assert_eq!(c.active, Some(c.langs[0].clone()));

    let text = "[en]\na = 1\n\n[vi]\nb = 2\n";
    let c = vsub_languages(text);
    assert_eq!(c.langs, vec!["en".to_string(), "vi".to_string()]);
    assert_eq!(c.active, Some("en".to_string()));

    let text = "title = \"x\"\n";
    let c = vsub_languages(text);
    assert_eq!(c.langs, vec!["title".to_string()]);

    let keys = vec!["vi".to_string(), "en".to_string()];
    assert_eq!(
        languages_from_keys("[en]\n[fr]\n [vi] \n[en]\n", &keys),
        vec!["en".to_string(), "vi".to_string()]
    );
    assert_eq!(languages_from_keys("no sections", &keys), keys);
    assert_eq!(languages_from_keys("[\n]\n", &keys), keys);
}
