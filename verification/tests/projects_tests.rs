use frontend::preview::{preview, Preview};
use frontend::projects::{
    count_text, firmware_link, full_project_id, jspb_report, new_project_ready, next_version,
    next_version_checked, project_id_for, socket_url, tab_class, version_numbers,
    visible_projects, Project, UpdateType, UserProfile,
};
use frontend::ui::{
    follow_title, press_dislike, press_like, ring_wrapper_class, save_class, ButtonVariant,
    LikeState, RingState,
};

fn project(name: &str, starred: bool) -> Project {
    Project {
        id: 1,
        user_id: 2,
        project_id: name.to_lowercase(),
        name: name.to_string(),
        created_at: "2024-01-01".to_string(),
        version: None,
        is_starred: starred,
    }
}

#[test]
fn project_filters() {
    let ps = vec![project("A", true), project("B", false), project("C", true)];
    let all = visible_projects(ps, "all");
    assert_eq!(all.len(), 3);
    let ps = vec![project("A", true), project("B", false), project("C", true)];
    let starred: Vec<String> = visible_projects(ps, "starred").into_iter().map(|p| p.name).collect();
    assert_eq!(starred, vec!["A".to_string(), "C".to_string()]);
    assert!(visible_projects(vec![project("B", false)], "starred").is_empty());
    assert_eq!(count_text(3), "1 – 3 trên 3");
}

#[test]
fn sign_in_state() {
    let me = UserProfile { id: None, name: Some("An".to_string()), picture: None, error: None };
    assert!(me.is_signed_in());
    let me = UserProfile { id: None, name: Some("An".to_string()), picture: None, error: Some("x".to_string()) };
    assert!(!me.is_signed_in());
    let me = UserProfile { id: None, name: None, picture: None, error: None };
    assert!(!me.is_signed_in());
}

#[test]
fn project_ids_and_links() {
    assert_eq!(project_id_for("My Cool  Project"), "my-cool--project");
    assert_eq!(project_id_for("ĐÈN Led"), "đèn-led");
    assert!(new_project_ready("a", "b"));
    assert!(!new_project_ready("", "b"));
    assert!(!new_project_ready("a", ""));
    assert_eq!(full_project_id("u1", "p1"), "u1-p1");
    assert_eq!(firmware_link("u1", "p1"), "http://localhost:7424/api/firmware/u1-p1");
    assert_eq!(tab_class("versions", "versions"), "sidebar-item active");
    assert_eq!(tab_class("dashboard", "versions"), "sidebar-item");
}

#[test]
fn firmware_versions() {
    assert_eq!(version_numbers("Lamp_V1.2.3"), (1, 2, 3));
    assert_eq!(version_numbers("Lamp_v4.5.6"), (4, 5, 6));
    assert_eq!(version_numbers("Lamp_V1.2"), (0, 0, 0));
    assert_eq!(version_numbers("Lamp_V1.x.3"), (1, 0, 3));
    assert_eq!(version_numbers("V-1.+2.3"), (-1, 2, 3));
    assert_eq!(version_numbers("no mark"), (0, 0, 0));
    // The last 'V' wins over any 'v'.
    assert_eq!(version_numbers("aV1.1.1v2.2.2"), (0, 0, 0));
    assert_eq!(version_numbers("v9.9.9_V1.0.0"), (1, 0, 0));

    assert_eq!(next_version("Lamp", Some("Lamp_V1.2.3"), UpdateType::Patch), "Lamp_V1.2.4");
    assert_eq!(next_version("Lamp", Some("Lamp_V1.2.3"), UpdateType::Minor), "Lamp_V1.3.0");
    assert_eq!(next_version("Lamp", Some("Lamp_V1.2.3"), UpdateType::Major), "Lamp_V2.0.0");
    assert_eq!(next_version("Lamp", None, UpdateType::Patch), "Lamp_V0.0.1");
    assert_eq!(next_version("X", Some("V-5.-1.0"), UpdateType::Minor), "X_V-5.0.0");
    assert_eq!(next_version_checked("X", Some("V2147483647.0.0"), UpdateType::Major), None);
    assert_eq!(
        next_version_checked("X", Some("V2147483647.0.0"), UpdateType::Minor),
        Some("X_V2147483647.1.0".to_string())
    );
}

#[test]
fn test_cards() {
    assert_eq!(socket_url("localhost:3000", "ws://localhost:5000/api/v1/ws", "/api/v1/ws"), "ws://localhost:5000/api/v1/ws");
    assert_eq!(socket_url("127.0.0.1", "L", "/p"), "L");
    assert_eq!(socket_url("example.com", "L", "/api/v1/ws"), "wss://example.com/api/v1/ws");
    assert_eq!(jspb_report(")]}',\n[1,2]"), "Raw Text:\n)]}',\n[1,2]\n\nParsed JSON:\n[1,2]");
    assert_eq!(jspb_report("[1]"), "Không nhận diện được chuẩn JSPB:\n[1]");
}

#[test]
fn markdown_preview() {
    let html_of = |text: &str| {
        let mut options = pulldown_cmark::Options::empty();
        options.insert(pulldown_cmark::Options::ENABLE_TABLES);
        options.insert(pulldown_cmark::Options::ENABLE_STRIKETHROUGH);
        options.insert(pulldown_cmark::Options::ENABLE_TASKLISTS);
        options.insert(pulldown_cmark::Options::ENABLE_SMART_PUNCTUATION);
        let parser = pulldown_cmark::Parser::new_ext(text, options);
        let mut out = String::new();
        pulldown_cmark::html::push_html(&mut out, parser);
        out
    };
    match preview("# Title\n\n- [x] done ~~old~~ \"q\"", "MD") {
        Preview::Markdown(h) => {
            assert_eq!(h, html_of("# Title\n\n- [x] done ~~old~~ \"q\""));
            assert!(h.starts_with("<h1>Title</h1>"));
            assert!(h.contains("<del>old</del>"));
        }
        Preview::Plain(_) => panic!("markdown expected"),
    }
    match preview("# Title", "txt") {
        Preview::Plain(t) => assert_eq!(t, "# Title"),
        Preview::Markdown(_) => panic!("plain expected"),
    }
}

#[test]
fn interface_pieces() {
    assert_eq!(ButtonVariant::Primary.as_class(), "atm-btn--primary");
    assert_eq!(ButtonVariant::Flat.as_class(), "atm-btn--ghost");
    assert_eq!(RingState::Loading(40).as_class(), "is-loading");
    assert_eq!(RingState::Loading(140).progress_text(), "100");
    assert_eq!(RingState::Loading(7).progress_text(), "7");
    assert_eq!(RingState::Success.progress_text(), "");
    assert_eq!(ring_wrapper_class(RingState::Error), "atm-status-ring is-error");
    assert_eq!(save_class(true), "yt-pill-btn standalone yt-save-atom is-success");
    assert_eq!(follow_title(false), "Theo dõi");

    let s = LikeState { liked: false, disliked: true, count: 12400 };
    let a = press_like(s);
    assert_eq!(a, LikeState { liked: true, disliked: false, count: 12401 });
    let b = press_like(a);
    assert_eq!(b, LikeState { liked: false, disliked: false, count: 12400 });
    // Disliking takes the like back but leaves the count.
    let c = press_dislike(a);
    assert_eq!(c, LikeState { liked: false, disliked: true, count: 12401 });
    assert_eq!(press_dislike(c), LikeState { liked: false, disliked: false, count: 12401 });
}
