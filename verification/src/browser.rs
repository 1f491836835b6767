//! The rules of the file list: what a click on a row does, how a row is
//! marked, which file the text editor and the media viewer go to next,
//! and which request the dialogs send.
use vstd::prelude::*;

use crate::api::{
    copy_files_request, create_folder_body, create_folder_request, move_files_request,
    rename_body, rename_file_request, request_is, transfer_body, write_text_body,
    write_text_file_request, ApiRequest, FileItem, HttpMethod,
};
use crate::json::string_views;
use crate::upload::{effective_template, spec_effective_template};
use crate::selection::NameSet;
use crate::text::{
    after_last, after_last_chars, blank_chars, chars_of, ends_with, ends_with_chars, eq_chars,
    extend_chars, is_blank, join_path, last_index, last_index_of, lit, lowercase, slice_chars,
    spec_join_path, split_chars, split_on, string_of, to_lower, trim,
};
use crate::uri::{encode_chars, spec_encode_uri_component};

verus! {

/// `s` ends with one of the suffixes.
pub open spec fn ends_with_any(s: Seq<char>, suffixes: Seq<Seq<char>>) -> bool {
    exists|i: int| 0 <= i < suffixes.len() && ends_with(s, #[trigger] suffixes[i])
}

fn ends_with_any_chars(s: &Vec<char>, suffixes: &Vec<Vec<char>>) -> (r: bool)
    ensures
        r == ends_with_any(s@, suffixes@.map_values(|v: Vec<char>| v@)),
{
    let ghost l = suffixes@.map_values(|v: Vec<char>| v@);
    let mut k: usize = 0;
    while k < suffixes.len()
        invariant
            0 <= k <= suffixes.len(),
            l == suffixes@.map_values(|v: Vec<char>| v@),
            forall|m: int| 0 <= m < k ==> !ends_with(s@, #[trigger] l[m]),
        decreases suffixes.len() - k,
    {
        if ends_with_chars(s, &suffixes[k]) {
            assert(ends_with(s@, l[k as int]));
            return true;
        }
        k = k + 1;
    }
    false
}

pub open spec fn video_suffixes() -> Seq<Seq<char>> {
    seq![".mp4"@, ".mkv"@, ".webm"@, ".avi"@, ".mov"@, ".flv"@, ".wmv"@, ".mpd"@]
}

pub open spec fn audio_suffixes() -> Seq<Seq<char>> {
    seq![".mp3"@, ".wav"@, ".flac"@, ".aac"@]
}

pub open spec fn image_suffixes() -> Seq<Seq<char>> {
    seq![".jpg"@, ".jpeg"@, ".png"@, ".webp"@, ".gif"@, ".bmp"@, ".ico"@, ".svg"@]
}

pub open spec fn text_suffixes() -> Seq<Seq<char>> {
    seq![
        ".txt"@,
        ".md"@,
        ".rs"@,
        ".js"@,
        ".css"@,
        ".html"@,
        ".json"@,
        ".env"@,
        ".scss"@,
        ".yaml"@,
        ".toml"@,
        ".xml"@,
        ".vskip"@,
        ".srt"@,
        ".vtt"@,
        ".ass"@,
        ".ssa"@,
        ".sub"@,
        ".vsub"@,
    ]
}

fn video_list() -> (r: Vec<Vec<char>>)
    ensures
        r@.map_values(|v: Vec<char>| v@) == video_suffixes(),
{
    let r = vec![
        lit(".mp4"),
        lit(".mkv"),
        lit(".webm"),
        lit(".avi"),
        lit(".mov"),
        lit(".flv"),
        lit(".wmv"),
        lit(".mpd"),
    ];
    assert(r@.map_values(|v: Vec<char>| v@) =~= video_suffixes());
    r
}

fn audio_list() -> (r: Vec<Vec<char>>)
    ensures
        r@.map_values(|v: Vec<char>| v@) == audio_suffixes(),
{
    let r = vec![lit(".mp3"), lit(".wav"), lit(".flac"), lit(".aac")];
    assert(r@.map_values(|v: Vec<char>| v@) =~= audio_suffixes());
    r
}

fn image_list() -> (r: Vec<Vec<char>>)
    ensures
        r@.map_values(|v: Vec<char>| v@) == image_suffixes(),
{
    let r = vec![
        lit(".jpg"),
        lit(".jpeg"),
        lit(".png"),
        lit(".webp"),
        lit(".gif"),
        lit(".bmp"),
        lit(".ico"),
        lit(".svg"),
    ];
    assert(r@.map_values(|v: Vec<char>| v@) =~= image_suffixes());
    r
}

fn text_list() -> (r: Vec<Vec<char>>)
    ensures
        r@.map_values(|v: Vec<char>| v@) == text_suffixes(),
{
    let r = vec![
        lit(".txt"),
        lit(".md"),
        lit(".rs"),
        lit(".js"),
        lit(".css"),
        lit(".html"),
        lit(".json"),
        lit(".env"),
        lit(".scss"),
        lit(".yaml"),
        lit(".toml"),
        lit(".xml"),
        lit(".vskip"),
        lit(".srt"),
        lit(".vtt"),
        lit(".ass"),
        lit(".ssa"),
        lit(".sub"),
        lit(".vsub"),
    ];
    assert(r@.map_values(|v: Vec<char>| v@) =~= text_suffixes());
    r
}

// ---------------------------------------------------------------------------
// Kinds of media
// ---------------------------------------------------------------------------

#[derive(Clone, Copy, Debug, PartialEq, Eq, Structural)]
pub enum MediaCategory {
    Video,
    Audio,
    Image,
    Other,
}

/// The kind of a media file, by the lower-cased end of its name.
pub open spec fn spec_media_category(name: Seq<char>) -> MediaCategory {
    let lower = lowercase(name);
    if ends_with_any(lower, video_suffixes()) {
        MediaCategory::Video
    } else if ends_with_any(lower, audio_suffixes()) {
        MediaCategory::Audio
    } else if ends_with_any(lower, image_suffixes()) {
        MediaCategory::Image
    } else {
        MediaCategory::Other
    }
}

pub fn media_category(name: &str) -> (r: MediaCategory)
    ensures
        r == spec_media_category(name@),
{
    let lower = to_lower(&chars_of(name));
    if ends_with_any_chars(&lower, &video_list()) {
        MediaCategory::Video
    } else if ends_with_any_chars(&lower, &audio_list()) {
        MediaCategory::Audio
    } else if ends_with_any_chars(&lower, &image_list()) {
        MediaCategory::Image
    } else {
        MediaCategory::Other
    }
}

/// The first index after `from` whose key is `key`.
pub open spec fn first_after<K>(keys: Seq<K>, key: K, from: int) -> Option<int>
    decreases keys.len() - from,
{
    if from + 1 >= keys.len() {
        None
    } else if keys[from + 1] == key {
        Some(from + 1)
    } else {
        first_after(keys, key, from + 1)
    }
}

/// The last index before `before` whose key is `key`.
pub open spec fn last_before<K>(keys: Seq<K>, key: K, before: int) -> Option<int>
    decreases before,
{
    if before <= 0 {
        None
    } else if keys[before - 1] == key {
        Some(before - 1)
    } else {
        last_before(keys, key, before - 1)
    }
}

pub open spec fn categories(names: Seq<Seq<char>>) -> Seq<MediaCategory> {
    names.map_values(|n: Seq<char>| spec_media_category(n))
}

pub open spec fn item_names(files: Seq<FileItem>) -> Seq<Seq<char>> {
    files.map_values(|f: FileItem| f.name@)
}

/// The file the media viewer goes to from the one at `idx`: the next (or
/// previous) one of the same kind; a position past the list counts as kind
/// `Other`.
pub open spec fn spec_media_neighbor(names: Seq<Seq<char>>, idx: int, forward: bool) -> Option<int> {
    let cat = if idx < names.len() {
        spec_media_category(names[idx])
    } else {
        MediaCategory::Other
    };
    if forward {
        first_after(categories(names), cat, idx)
    } else {
        last_before(categories(names), cat, idx)
    }
}

pub fn media_neighbor(files: &Vec<FileItem>, idx: usize, forward: bool) -> (r: Option<usize>)
    requires
        forward || idx <= files@.len(),
    ensures
        match r {
            Some(i) => spec_media_neighbor(item_names(files@), idx as int, forward) == Some(
                i as int,
            ),
            None => spec_media_neighbor(item_names(files@), idx as int, forward) is None,
        },
{
    let ghost names = item_names(files@);
    let ghost cats = categories(names);
    let cat = if idx < files.len() {
        media_category(files[idx].name.as_str())
    } else {
        MediaCategory::Other
    };
    assert(names.len() == files@.len());
    assert(idx < files@.len() ==> names[idx as int] == files@[idx as int].name@);
    if forward {
        if idx >= files.len() {
            return None;
        }
        let mut i: usize = idx + 1;
        while i < files.len()
            invariant
                idx < i <= files@.len(),
                forward,
                names == item_names(files@),
                cats == categories(names),
                cat == (if idx < names.len() {
                    spec_media_category(names[idx as int])
                } else {
                    MediaCategory::Other
                }),
                first_after(cats, cat, idx as int) == first_after(cats, cat, i - 1),
            decreases files.len() - i,
        {
            let c = media_category(files[i].name.as_str());
            assert(names[i as int] == files@[i as int].name@);
            assert(cats[i as int] == c);
            if c == cat {
                assert(first_after(cats, cat, i - 1) == Some(i as int));
                return Some(i);
            }
            i = i + 1;
        }
        None
    } else {
        let mut i: usize = idx;
        while i > 0
            invariant
                i <= idx <= files@.len(),
                !forward,
                names == item_names(files@),
                cats == categories(names),
                cat == (if idx < names.len() {
                    spec_media_category(names[idx as int])
                } else {
                    MediaCategory::Other
                }),
                last_before(cats, cat, idx as int) == last_before(cats, cat, i as int),
            decreases i,
        {
            let c = media_category(files[i - 1].name.as_str());
            assert(names[i - 1] == files@[i - 1].name@);
            assert(cats[i - 1] == c);
            if c == cat {
                assert(last_before(cats, cat, i as int) == Some(i - 1));
                return Some(i - 1);
            }
            i = i - 1;
        }
        None
    }
}

// ---------------------------------------------------------------------------
// The text editor's neighbours
// ---------------------------------------------------------------------------

/// The extension the text editor groups files by: from the last `.` of the
/// lower-cased name, dot included, or `other`.
pub open spec fn spec_text_ext(name: Seq<char>) -> Seq<char> {
    let lower = lowercase(name);
    match last_index_of(lower, '.') {
        Some(i) => lower.skip(i),
        None => "other"@,
    }
}

pub fn text_ext(name: &str) -> (r: String)
    ensures
        r@ == spec_text_ext(name@),
{
    let lower = to_lower(&chars_of(name));
    match last_index(&lower, '.') {
        Some(i) => {
            proof {
                crate::text::lemma_last_index_of(lower@, '.');
            }
            let r = slice_chars(&lower, i, lower.len());
            assert(r@ =~= lower@.skip(i as int));
            string_of(&r)
        },
        None => "other".to_string(),
    }
}

/// The first index whose name is `name`.
pub open spec fn first_index(names: Seq<Seq<char>>, name: Seq<char>) -> Option<int> {
    first_after(names, name, -1)
}

pub open spec fn text_exts(names: Seq<Seq<char>>) -> Seq<Seq<char>> {
    names.map_values(|n: Seq<char>| spec_text_ext(n))
}

/// The file the text editor goes to from the file at `path`: the next (or
/// previous) file of the list with the same extension, counted from the
/// first entry named as the file; none when no entry has its name.
pub open spec fn spec_text_neighbor(path: Seq<char>, names: Seq<Seq<char>>, forward: bool) -> Option<
    int,
> {
    let n = after_last(path, '/');
    match first_index(names, n) {
        Some(idx) => if forward {
            first_after(text_exts(names), spec_text_ext(n), idx)
        } else {
            last_before(text_exts(names), spec_text_ext(n), idx)
        },
        None => None,
    }
}

proof fn lemma_first_after_bounds<K>(keys: Seq<K>, key: K, from: int)
    requires
        from >= -1,
    ensures
        match first_after(keys, key, from) {
            Some(i) => from < i < keys.len() && keys[i] == key,
            None => true,
        },
    decreases keys.len() - from,
{
    if from + 1 < keys.len() && keys[from + 1] != key {
        lemma_first_after_bounds(keys, key, from + 1);
    }
}

fn find_name(files: &Vec<FileItem>, name: &String) -> (r: Option<usize>)
    ensures
        match r {
            Some(i) => first_index(item_names(files@), name@) == Some(i as int),
            None => first_index(item_names(files@), name@) is None,
        },
{
    let ghost names = item_names(files@);
    let mut i: usize = 0;
    while i < files.len()
        invariant
            0 <= i <= files@.len(),
            names == item_names(files@),
            first_index(names, name@) == first_after(names, name@, i - 1),
        decreases files.len() - i,
    {
        if files[i].name == *name {
            assert(names[i as int] == name@);
            return Some(i);
        }
        i = i + 1;
    }
    None
}

pub fn text_neighbor(path: &str, files: &Vec<FileItem>, forward: bool) -> (r: Option<usize>)
    ensures
        match r {
            Some(i) => spec_text_neighbor(path@, item_names(files@), forward) == Some(i as int),
            None => spec_text_neighbor(path@, item_names(files@), forward) is None,
        },
{
    let ghost names = item_names(files@);
    let ghost exts = text_exts(names);
    let name = string_of(&after_last_chars(&chars_of(path), '/'));
    let ext = text_ext(name.as_str());
    match find_name(files, &name) {
        None => None,
        Some(idx) => {
            proof {
                lemma_first_after_bounds(names, name@, -1);
            }
            assert(names.len() == files@.len());
            let n = files.len();
            assert(idx < n);
            if forward {
                let mut i: usize = idx + 1;
                while i < files.len()
                    invariant
                        idx < i <= files@.len(),
                        forward,
                        first_index(names, name@) == Some(idx as int),
                        name@ == after_last(path@, '/'),
                        ext@ == spec_text_ext(name@),
                        names == item_names(files@),
                        exts == text_exts(names),
                        first_after(exts, ext@, idx as int) == first_after(exts, ext@, i - 1),
                    decreases files.len() - i,
                {
                    let e = text_ext(files[i].name.as_str());
                    assert(names[i as int] == files@[i as int].name@);
                    assert(exts[i as int] == e@);
                    if e == ext {
                        assert(first_after(exts, ext@, i - 1) == Some(i as int));
                        return Some(i);
                    }
                    i = i + 1;
                }
                None
            } else {
                let mut i: usize = idx;
                while i > 0
                    invariant
                        i <= idx < files@.len(),
                        !forward,
                        first_index(names, name@) == Some(idx as int),
                        name@ == after_last(path@, '/'),
                        ext@ == spec_text_ext(name@),
                        names == item_names(files@),
                        exts == text_exts(names),
                        last_before(exts, ext@, idx as int) == last_before(exts, ext@, i as int),
                    decreases i,
                {
                    let e = text_ext(files[i - 1].name.as_str());
                    assert(names[i - 1] == files@[i - 1].name@);
                    assert(exts[i - 1] == e@);
                    if e == ext {
                        assert(last_before(exts, ext@, i as int) == Some(i - 1));
                        return Some(i - 1);
                    }
                    i = i - 1;
                }
                None
            }
        },
    }
}

/// The last part of a path: the name of the file it leads to.
pub fn last_segment(path: &str) -> (r: String)
    ensures
        r@ == after_last(path@, '/'),
{
    string_of(&after_last_chars(&chars_of(path), '/'))
}

/// What the delete dialog names: the file, when there is one, else the
/// number of entries.
pub open spec fn spec_delete_label(paths: Seq<Seq<char>>) -> Seq<char> {
    if paths.len() == 1 {
        after_last(paths[0], '/')
    } else {
        crate::display::spec_count_label(paths.len() as usize)
    }
}

pub fn delete_label(paths: &Vec<String>) -> (r: String)
    ensures
        r@ == spec_delete_label(string_views(paths@)),
{
    if paths.len() == 1 {
        last_segment(paths[0].as_str())
    } else {
        crate::display::count_label(paths.len())
    }
}

/// Every entry of the listing, selected.
pub fn select_all(files: &Vec<FileItem>) -> (r: NameSet)
    ensures
        r@ == item_names(files@).to_set(),
{
    let mut s = NameSet::new();
    let mut k: usize = 0;
    while k < files.len()
        invariant
            0 <= k <= files@.len(),
            s@ == item_names(files@).take(k as int).to_set(),
        decreases files.len() - k,
    {
        s.insert(files[k].name.clone());
        proof {
            let names = item_names(files@);
            assert(names.take(k + 1) =~= names.take(k as int).push(names[k as int]));
            assert(names.take(k as int).push(names[k as int]).to_set() =~= names.take(k as int).to_set().insert(names[k as int])) by {
                assert forall|e: Seq<char>| #[trigger] names.take(k as int).push(names[k as int]).to_set().contains(e) <==> names.take(k as int).to_set().insert(names[k as int]).contains(e) by {
                    let t = names.take(k as int);
                    if t.push(names[k as int]).to_set().contains(e) {
                        let i = choose|i: int| 0 <= i < t.push(names[k as int]).len() && t.push(names[k as int])[i] == e;
                        if i < t.len() {
                            assert(t[i] == e);
                        }
                    }
                    if t.to_set().contains(e) {
                        let i = choose|i: int| 0 <= i < t.len() && t[i] == e;
                        assert(t.push(names[k as int])[i] == e);
                    }
                    if e == names[k as int] {
                        assert(t.push(names[k as int])[t.len() as int] == e);
                    }
                }
            }
        }
        k = k + 1;
    }
    assert(item_names(files@).take(files@.len() as int) =~= item_names(files@));
    s
}

// ---------------------------------------------------------------------------
// Rows of the list
// ---------------------------------------------------------------------------

/// What a click on a row does.
pub enum RowAction {
    /// Some files are selected: the row's name joins or leaves the selection.
    ToggleSelection,
    /// Go to the folder's page.
    OpenFolder { url: String },
    /// Show the media file at this position in the viewer.
    OpenMedia { index: usize },
    /// Open the text file in the editor.
    EditText { path: String },
    /// Download the file, in a new tab.
    Download { url: String },
}

pub enum RowActionView {
    ToggleSelection,
    OpenFolder(Seq<char>),
    OpenMedia(usize),
    EditText(Seq<char>),
    Download(Seq<char>),
}

pub open spec fn row_action_view(a: RowAction) -> RowActionView {
    match a {
        RowAction::ToggleSelection => RowActionView::ToggleSelection,
        RowAction::OpenFolder { url } => RowActionView::OpenFolder(url@),
        RowAction::OpenMedia { index } => RowActionView::OpenMedia(index),
        RowAction::EditText { path } => RowActionView::EditText(path@),
        RowAction::Download { url } => RowActionView::Download(url@),
    }
}

/// The name ends like a media file (video, picture or sound).
pub open spec fn is_media_name(lower: Seq<char>) -> bool {
    ends_with_any(lower, video_suffixes()) || ends_with_any(lower, image_suffixes())
        || ends_with_any(lower, audio_suffixes())
}

pub open spec fn spec_row_click(selection_empty: bool, item: FileItem, index: usize) -> RowActionView {
    if !selection_empty {
        RowActionView::ToggleSelection
    } else if item.is_dir {
        RowActionView::OpenFolder("/"@ + item.path@)
    } else {
        let lower = lowercase(item.name@);
        if is_media_name(lower) {
            RowActionView::OpenMedia(index)
        } else if ends_with_any(lower, text_suffixes()) {
            RowActionView::EditText(item.path@)
        } else {
            RowActionView::Download(
                "/api/v1/files/download?path="@ + spec_encode_uri_component(item.path@),
            )
        }
    }
}

pub fn row_click(selected: &NameSet, item: &FileItem, index: usize) -> (r: RowAction)
    ensures
        row_action_view(r) == spec_row_click(selected@ == Set::<Seq<char>>::empty(), *item, index),
{
    if !selected.is_empty() {
        return RowAction::ToggleSelection;
    }
    if item.is_dir {
        let mut url = lit("/");
        extend_chars(&mut url, &chars_of(item.path.as_str()));
        return RowAction::OpenFolder { url: string_of(&url) };
    }
    let lower = to_lower(&chars_of(item.name.as_str()));
    if ends_with_any_chars(&lower, &video_list()) || ends_with_any_chars(&lower, &image_list())
        || ends_with_any_chars(&lower, &audio_list()) {
        RowAction::OpenMedia { index }
    } else if ends_with_any_chars(&lower, &text_list()) {
        RowAction::EditText { path: item.path.clone() }
    } else {
        let mut url = lit("/api/v1/files/download?path=");
        extend_chars(&mut url, &encode_chars(item.path.as_str()));
        RowAction::Download { url: string_of(&url) }
    }
}

#[derive(Clone, Copy, Debug, PartialEq, Eq, Structural)]
pub enum ClipAction {
    Cut,
    Copy,
}

/// The classes of a row: faded while cut to the clipboard, or else when
/// hidden (its name starts with `.`), and marked while selected.
pub open spec fn spec_row_class(
    dir: Seq<char>,
    name: Seq<char>,
    action: Option<ClipAction>,
    clipboard: Set<Seq<char>>,
    selected: Set<Seq<char>>,
) -> Seq<char> {
    "file-item-row"@ + (if action == Some(ClipAction::Cut) && clipboard.contains(
        spec_join_path(dir, name),
    ) {
        " cut-fade"@
    } else if name.len() > 0 && name[0] == '.' {
        " hidden-item-fade"@
    } else {
        Seq::<char>::empty()
    }) + (if selected.contains(name) {
        " selected-row"@
    } else {
        Seq::<char>::empty()
    })
}

pub fn row_class(
    dir: &str,
    name: &String,
    action: Option<ClipAction>,
    clipboard: &NameSet,
    selected: &NameSet,
) -> (r: String)
    ensures
        r@ == spec_row_class(dir@, name@, action, clipboard@, selected@),
{
    let mut out = lit("file-item-row");
    let ghost base = out@;
    let full = join_path(dir, name.as_str());
    let cut = match action {
        Some(ClipAction::Cut) => clipboard.contains(&full),
        _ => false,
    };
    let n = chars_of(name.as_str());
    if cut {
        extend_chars(&mut out, &lit(" cut-fade"));
    } else if n.len() > 0 && n[0] == '.' {
        extend_chars(&mut out, &lit(" hidden-item-fade"));
    } else {
        assert(out@ =~= base + Seq::<char>::empty());
    }
    let ghost mid = out@;
    if selected.contains(name) {
        extend_chars(&mut out, &lit(" selected-row"));
    } else {
        assert(out@ =~= mid + Seq::<char>::empty());
    }
    string_of(&out)
}

// ---------------------------------------------------------------------------
// Dialogs
// ---------------------------------------------------------------------------

/// What the "new" dialog sends for a name typed in it: a folder is created
/// with the name, a file is written empty at the name's path; nothing is
/// sent for a blank name or another mode.
pub open spec fn spec_new_entry_request(mode: Seq<char>, dir: Seq<char>, name: Seq<char>) -> Option<
    (HttpMethod, Seq<char>, Seq<char>),
> {
    if is_blank(name) {
        None
    } else if mode == "folder"@ {
        Some((HttpMethod::Post, "/api/v1/files/folder"@, create_folder_body(dir, name)))
    } else if mode == "file"@ {
        Some(
            (
                HttpMethod::Post,
                "/api/v1/files/text"@,
                write_text_body(spec_join_path(dir, name), Seq::empty()),
            ),
        )
    } else {
        None
    }
}

pub open spec fn request_triple_is(r: ApiRequest, t: (HttpMethod, Seq<char>, Seq<char>)) -> bool {
    request_is(r, t.0, t.1, Some(t.2))
}

pub fn new_entry_request(mode: &str, dir: &str, name: &str) -> (r: Option<ApiRequest>)
    ensures
        match r {
            Some(req) => spec_new_entry_request(mode@, dir@, name@) matches Some(t)
                && request_triple_is(req, t),
            None => spec_new_entry_request(mode@, dir@, name@) is None,
        },
{
    if blank_chars(&chars_of(name)) {
        return None;
    }
    let m = chars_of(mode);
    if eq_chars(&m, &lit("folder")) {
        Some(create_folder_request(dir, name))
    } else if eq_chars(&m, &lit("file")) {
        let full = join_path(dir, name);
        proof {
            reveal_strlit("");
        }
        Some(write_text_file_request(full.as_str(), ""))
    } else {
        None
    }
}

/// The rename dialog: nothing is sent for a blank name or an unchanged one;
/// otherwise the file at `dir/old_name` is renamed.
pub open spec fn spec_rename_request(dir: Seq<char>, old_name: Seq<char>, new_name: Seq<char>) -> Option<
    (HttpMethod, Seq<char>, Seq<char>),
> {
    if is_blank(new_name) || new_name == old_name {
        None
    } else {
        Some(
            (
                HttpMethod::Put,
                "/api/v1/files/rename"@,
                rename_body(spec_join_path(dir, old_name), new_name),
            ),
        )
    }
}

pub fn rename_request(dir: &str, old_name: &String, new_name: &String) -> (r: Option<ApiRequest>)
    ensures
        match r {
            Some(req) => spec_rename_request(dir@, old_name@, new_name@) matches Some(t)
                && request_triple_is(req, t),
            None => spec_rename_request(dir@, old_name@, new_name@) is None,
        },
{
    if blank_chars(&chars_of(new_name.as_str())) || *new_name == *old_name {
        return None;
    }
    let full = join_path(dir, old_name.as_str());
    Some(rename_file_request(full, new_name.clone()))
}

/// The template a paste sends: the effective template with smart rename
/// on, none otherwise.
pub open spec fn spec_paste_template(smart: bool, template: Seq<char>) -> Option<Seq<char>> {
    if smart {
        Some(spec_effective_template(template))
    } else {
        None
    }
}

/// What a paste of the clipboard into `dest` sends, once the conflicts are
/// settled: nothing when no path is left or no action is pending; a move
/// for a cut and a copy for a copy, with the template, the file-time flag
/// and the paths to overwrite.
pub open spec fn spec_paste_request(
    action: Option<ClipAction>,
    paths: Seq<Seq<char>>,
    dest: Seq<char>,
    smart: bool,
    template: Seq<char>,
    use_file_time: bool,
    overwrite: Seq<Seq<char>>,
) -> Option<(HttpMethod, Seq<char>, Seq<char>)> {
    let body = transfer_body(
        paths,
        dest,
        spec_paste_template(smart, template),
        Some(use_file_time),
        Some(overwrite),
    );
    if paths.len() == 0 {
        None
    } else {
        match action {
            Some(ClipAction::Cut) => Some((HttpMethod::Put, "/api/v1/files/move"@, body)),
            Some(ClipAction::Copy) => Some((HttpMethod::Post, "/api/v1/files/copy"@, body)),
            None => None,
        }
    }
}

pub fn paste_request(
    action: Option<ClipAction>,
    paths: Vec<String>,
    dest: String,
    smart: bool,
    template: &str,
    use_file_time: bool,
    overwrite: Vec<String>,
) -> (r: Option<ApiRequest>)
    ensures
        match r {
            Some(req) => spec_paste_request(
                action,
                string_views(paths@),
                dest@,
                smart,
                template@,
                use_file_time,
                string_views(overwrite@),
            ) matches Some(t) && request_triple_is(req, t),
            None => spec_paste_request(
                action,
                string_views(paths@),
                dest@,
                smart,
                template@,
                use_file_time,
                string_views(overwrite@),
            ) is None,
        },
{
    if paths.len() == 0 {
        assert(string_views(paths@).len() == 0);
        return None;
    }
    let t = if smart {
        Some(effective_template(template))
    } else {
        None
    };
    match action {
        Some(ClipAction::Cut) => Some(
            move_files_request(paths, dest, t, Some(use_file_time), Some(overwrite)),
        ),
        Some(ClipAction::Copy) => Some(
            copy_files_request(paths, dest, t, Some(use_file_time), Some(overwrite)),
        ),
        None => None,
    }
}

// ---------------------------------------------------------------------------
// Breadcrumbs
// ---------------------------------------------------------------------------

/// The non-empty pieces of a path.
pub open spec fn path_parts(parts: Seq<Seq<char>>) -> Seq<Seq<char>>
    decreases parts.len(),
{
    if parts.len() == 0 {
        Seq::empty()
    } else if parts.last().len() == 0 {
        path_parts(parts.drop_last())
    } else {
        path_parts(parts.drop_last()).push(parts.last())
    }
}

/// The pieces joined back with `/`.
pub open spec fn joined(parts: Seq<Seq<char>>) -> Seq<char>
    decreases parts.len(),
{
    if parts.len() == 0 {
        Seq::empty()
    } else if parts.len() == 1 {
        parts[0]
    } else {
        joined(parts.drop_last()) + seq!['/'] + parts.last()
    }
}

/// The crumbs of a folder path: each non-empty piece, with the address of
/// the folder it ends.
pub open spec fn spec_breadcrumbs(path: Seq<char>) -> Seq<(Seq<char>, Seq<char>)> {
    let parts = path_parts(split_on(path, '/'));
    Seq::new(parts.len(), |k: int| (parts[k], "/"@ + joined(parts.take(k + 1))))
}

pub struct Crumb {
    pub label: String,
    pub url: String,
}

pub fn breadcrumbs(path: &str) -> (r: Vec<Crumb>)
    ensures
        r@.len() == spec_breadcrumbs(path@).len(),
        forall|k: int|
            0 <= k < r@.len() ==> (#[trigger] r@[k]).label@ == spec_breadcrumbs(path@)[k].0
                && r@[k].url@ == spec_breadcrumbs(path@)[k].1,
{
    let pieces = split_chars(&chars_of(path), '/');
    let ghost all = split_on(path@, '/');
    let mut out: Vec<Crumb> = Vec::new();
    let mut acc: Vec<char> = Vec::new();
    let ghost mut kept: Seq<Seq<char>> = Seq::empty();
    let mut i: usize = 0;
    assert(all.take(0) =~= Seq::<Seq<char>>::empty());
    while i < pieces.len()
        invariant
            0 <= i <= pieces@.len(),
            pieces@.len() == all.len(),
            forall|m: int| 0 <= m < pieces@.len() ==> #[trigger] pieces@[m]@ == all[m],
            kept == path_parts(all.take(i as int)),
            forall|k: int| 0 <= k < kept.len() ==> (#[trigger] kept[k]).len() > 0,
            acc@ == joined(kept),
            out@.len() == kept.len(),
            forall|k: int|
                0 <= k < out@.len() ==> (#[trigger] out@[k]).label@ == kept[k] && out@[k].url@
                    == "/"@ + joined(kept.take(k + 1)),
        decreases pieces.len() - i,
    {
        assert(all.take(i + 1).drop_last() =~= all.take(i as int));
        if pieces[i].len() > 0 {
            let ghost old_kept = kept;
            if acc.len() > 0 {
                acc.push('/');
            }
            extend_chars(&mut acc, &pieces[i]);
            proof {
                kept = kept.push(all[i as int]);
                if old_kept.len() == 0 {
                    assert(joined(old_kept) =~= Seq::<char>::empty());
                    assert(acc@ =~= all[i as int]);
                } else {
                    assert(kept.drop_last() =~= old_kept);
                    assert(joined(old_kept).len() > 0) by {
                        lemma_joined_nonempty(old_kept);
                    }
                    assert(acc@ =~= joined(old_kept) + seq!['/'] + all[i as int]);
                }
                assert(kept.take(kept.len() as int) =~= kept);
                assert forall|k: int| 0 <= k < old_kept.len() implies #[trigger] kept.take(k + 1)
                    =~= old_kept.take(k + 1) by {}
            }
            let mut url = lit("/");
            extend_chars(&mut url, &acc);
            out.push(Crumb { label: string_of(&pieces[i]), url: string_of(&url) });
        }
        i = i + 1;
    }
    assert(all.take(pieces.len() as int) =~= all);
    out
}

proof fn lemma_joined_nonempty(parts: Seq<Seq<char>>)
    requires
        parts.len() > 0,
        forall|k: int| 0 <= k < parts.len() ==> (#[trigger] parts[k]).len() > 0,
    ensures
        joined(parts).len() > 0,
    decreases parts.len(),
{
    if parts.len() > 1 {
        lemma_joined_nonempty(parts.drop_last());
    }
}

// ---------------------------------------------------------------------------
// Theme
// ---------------------------------------------------------------------------

/// The theme at start: the stored one when it is `light` or `dark`, else `dark`.
pub open spec fn spec_initial_theme(stored: Option<Seq<char>>) -> Seq<char> {
    match stored {
        Some(s) => if s == "light"@ || s == "dark"@ {
            s
        } else {
            "dark"@
        },
        None => "dark"@,
    }
}

pub fn initial_theme(stored: Option<String>) -> (r: String)
    ensures
        r@ == spec_initial_theme(crate::json::opt_string_view(stored)),
{
    match stored {
        Some(s) => {
            let c = chars_of(s.as_str());
            if eq_chars(&c, &lit("light")) || eq_chars(&c, &lit("dark")) {
                s
            } else {
                "dark".to_string()
            }
        },
        None => "dark".to_string(),
    }
}

/// The theme after the switch: `light` from `dark`, `dark` from anything else.
pub open spec fn spec_toggled_theme(t: Seq<char>) -> Seq<char> {
    if t == "dark"@ {
        "light"@
    } else {
        "dark"@
    }
}

pub fn toggled_theme(t: &str) -> (r: String)
    ensures
        r@ == spec_toggled_theme(t@),
{
    if eq_chars(&chars_of(t), &lit("dark")) {
        "light".to_string()
    } else {
        "dark".to_string()
    }
}

/// The highlight.js style sheet of a theme.
pub open spec fn spec_code_theme_href(t: Seq<char>) -> Seq<char> {
    if t == "dark"@ {
        "https://cdnjs.cloudflare.com/ajax/libs/highlight.js/11.9.0/styles/atom-one-dark.min.css"@
    } else {
        "https://cdnjs.cloudflare.com/ajax/libs/highlight.js/11.9.0/styles/atom-one-light.min.css"@
    }
}

pub fn code_theme_href(t: &str) -> (r: String)
    ensures
        r@ == spec_code_theme_href(t@),
{
    if eq_chars(&chars_of(t), &lit("dark")) {
        "https://cdnjs.cloudflare.com/ajax/libs/highlight.js/11.9.0/styles/atom-one-dark.min.css".to_string()
    } else {
        "https://cdnjs.cloudflare.com/ajax/libs/highlight.js/11.9.0/styles/atom-one-light.min.css".to_string()
    }
}

/// Switching the theme twice from `light` or `dark` gives it back.
pub proof fn lemma_theme_toggle_twice(t: Seq<char>)
    requires
        t == "light"@ || t == "dark"@,
    ensures
        spec_toggled_theme(spec_toggled_theme(t)) == t,
{
    reveal_strlit("light");
    reveal_strlit("dark");
}

} // verus!
