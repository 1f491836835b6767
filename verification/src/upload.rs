//! Where each uploaded file goes and under which name: files dropped with
//! their folders keep their relative folder, and with smart rename on, the
//! other files are named from a template filled with their date and kind.
use vstd::prelude::*;

use crate::number::{decimal, decimal_chars, pad_zeros, pad_zeros_chars, two_digit_chars, two_digits};
use crate::text::{
    after_last, after_last_chars, blank_chars, chars_of, ends_with, ends_with_chars, eq_chars,
    extend_chars, is_blank, join_path_chars, join_with, last_index, last_index_of, lit, lowercase,
    replace_all, replace_chars, slice_chars, spec_join_path, split_chars, split_on, string_of,
    to_lower,
};

verus! {

/// The template used when the smart-rename template is left blank.
pub open spec fn default_template() -> Seq<char> {
    "dva facebook yyyy-MM-dd HHhMM' [type]"@
}

/// The template in force: the user's, or the default when it is blank.
pub open spec fn spec_effective_template(t: Seq<char>) -> Seq<char> {
    if is_blank(t) {
        default_template()
    } else {
        t
    }
}

pub fn effective_template(t: &str) -> (r: String)
    ensures
        r@ == spec_effective_template(t@),
{
    let v = chars_of(t);
    if blank_chars(&v) {
        "dva facebook yyyy-MM-dd HHhMM' [type]".to_owned()
    } else {
        t.to_owned()
    }
}

/// The extension of a name for smart rename: what follows its last `.`
/// (`rsplitn(2, '.')`), or nothing when it has no `.`.
pub open spec fn spec_ext(name: Seq<char>) -> Seq<char> {
    match last_index_of(name, '.') {
        Some(i) => name.skip(i + 1),
        None => Seq::empty(),
    }
}

pub open spec fn video_exts() -> Seq<Seq<char>> {
    seq!["mp4"@, "mkv"@, "avi"@, "mov"@, "webm"@, "flv"@, "wmv"@]
}

pub open spec fn audio_exts() -> Seq<Seq<char>> {
    seq!["mp3"@, "wav"@, "flac"@, "ogg"@, "m4a"@, "aac"@]
}

pub open spec fn image_exts() -> Seq<Seq<char>> {
    seq!["png"@, "jpg"@, "jpeg"@, "gif"@, "webp"@, "svg"@, "bmp"@, "ico"@]
}

pub open spec fn document_exts() -> Seq<Seq<char>> {
    seq!["pdf"@, "doc"@, "docx"@, "txt"@, "xlsx"@, "xls"@, "csv"@, "ppt"@, "pptx"@]
}

pub open spec fn archive_exts() -> Seq<Seq<char>> {
    seq!["zip"@, "rar"@, "7z"@, "tar"@, "gz"@]
}

/// The kind of file named by `[type]`, from its lower-cased extension.
pub open spec fn spec_file_kind(ext: Seq<char>) -> Seq<char> {
    let e = lowercase(ext);
    if video_exts().contains(e) {
        "video"@
    } else if audio_exts().contains(e) {
        "audio"@
    } else if image_exts().contains(e) {
        "image"@
    } else if document_exts().contains(e) {
        "document"@
    } else if archive_exts().contains(e) {
        "archive"@
    } else {
        "file"@
    }
}

fn member(x: &Vec<char>, list: &Vec<Vec<char>>) -> (r: bool)
    ensures
        r == list@.map_values(|v: Vec<char>| v@).contains(x@),
{
    let ghost l = list@.map_values(|v: Vec<char>| v@);
    let mut k: usize = 0;
    while k < list.len()
        invariant
            0 <= k <= list.len(),
            l == list@.map_values(|v: Vec<char>| v@),
            forall|m: int| 0 <= m < k ==> l[m] != x@,
        decreases list.len() - k,
    {
        if eq_chars(&list[k], x) {
            assert(l[k as int] == x@);
            return true;
        }
        k = k + 1;
    }
    false
}

/// The kind of file named by `[type]` (`"video"`, `"audio"`, `"image"`,
/// `"document"`, `"archive"` or `"file"`).
pub fn file_kind(ext: &str) -> (r: String)
    ensures
        r@ == spec_file_kind(ext@),
{
    let e = to_lower(&chars_of(ext));
    let video = vec![lit("mp4"), lit("mkv"), lit("avi"), lit("mov"), lit("webm"), lit("flv"), lit("wmv")];
    let audio = vec![lit("mp3"), lit("wav"), lit("flac"), lit("ogg"), lit("m4a"), lit("aac")];
    let image = vec![lit("png"), lit("jpg"), lit("jpeg"), lit("gif"), lit("webp"), lit("svg"), lit("bmp"), lit("ico")];
    let document = vec![lit("pdf"), lit("doc"), lit("docx"), lit("txt"), lit("xlsx"), lit("xls"), lit("csv"), lit("ppt"), lit("pptx")];
    let archive = vec![lit("zip"), lit("rar"), lit("7z"), lit("tar"), lit("gz")];
    assert(video@.map_values(|v: Vec<char>| v@) =~= video_exts());
    assert(audio@.map_values(|v: Vec<char>| v@) =~= audio_exts());
    assert(image@.map_values(|v: Vec<char>| v@) =~= image_exts());
    assert(document@.map_values(|v: Vec<char>| v@) =~= document_exts());
    assert(archive@.map_values(|v: Vec<char>| v@) =~= archive_exts());
    if member(&e, &video) {
        "video".to_owned()
    } else if member(&e, &audio) {
        "audio".to_owned()
    } else if member(&e, &image) {
        "image".to_owned()
    } else if member(&e, &document) {
        "document".to_owned()
    } else if member(&e, &archive) {
        "archive".to_owned()
    } else {
        "file".to_owned()
    }
}


/// Each extension list names its own kind word, whatever the case of the
/// extension: `[type]` reads `video`, `audio`, `image`, `document` or
/// `archive` exactly for the extensions of that list, and `file` for any other.
#[verifier::spinoff_prover]
pub proof fn lemma_kind_of_extension(ext: Seq<char>)
    ensures
        ({
            let e = lowercase(ext);
            let k = spec_file_kind(ext);
            &&& k == "video"@ <==> (
                e == "mp4"@ ||
                e == "mkv"@ ||
                e == "avi"@ ||
                e == "mov"@ ||
                e == "webm"@ ||
                e == "flv"@ ||
                e == "wmv"@
            )
            &&& k == "audio"@ <==> (
                e == "mp3"@ ||
                e == "wav"@ ||
                e == "flac"@ ||
                e == "ogg"@ ||
                e == "m4a"@ ||
                e == "aac"@
            )
            &&& k == "image"@ <==> (
                e == "png"@ ||
                e == "jpg"@ ||
                e == "jpeg"@ ||
                e == "gif"@ ||
                e == "webp"@ ||
                e == "svg"@ ||
                e == "bmp"@ ||
                e == "ico"@
            )
            &&& k == "document"@ <==> (
                e == "pdf"@ ||
                e == "doc"@ ||
                e == "docx"@ ||
                e == "txt"@ ||
                e == "xlsx"@ ||
                e == "xls"@ ||
                e == "csv"@ ||
                e == "ppt"@ ||
                e == "pptx"@
            )
            &&& k == "archive"@ <==> (
                e == "zip"@ ||
                e == "rar"@ ||
                e == "7z"@ ||
                e == "tar"@ ||
                e == "gz"@
            )
            &&& k == "file"@ <==> !(
                e == "mp4"@ ||
                e == "mkv"@ ||
                e == "avi"@ ||
                e == "mov"@ ||
                e == "webm"@ ||
                e == "flv"@ ||
                e == "wmv"@ ||
                e == "mp3"@ ||
                e == "wav"@ ||
                e == "flac"@ ||
                e == "ogg"@ ||
                e == "m4a"@ ||
                e == "aac"@ ||
                e == "png"@ ||
                e == "jpg"@ ||
                e == "jpeg"@ ||
                e == "gif"@ ||
                e == "webp"@ ||
                e == "svg"@ ||
                e == "bmp"@ ||
                e == "ico"@ ||
                e == "pdf"@ ||
                e == "doc"@ ||
                e == "docx"@ ||
                e == "txt"@ ||
                e == "xlsx"@ ||
                e == "xls"@ ||
                e == "csv"@ ||
                e == "ppt"@ ||
                e == "pptx"@ ||
                e == "zip"@ ||
                e == "rar"@ ||
                e == "7z"@ ||
                e == "tar"@ ||
                e == "gz"@
            )
        }),
{
    reveal_strlit("video");
    reveal_strlit("audio");
    reveal_strlit("image");
    reveal_strlit("document");
    reveal_strlit("archive");
    reveal_strlit("file");
    reveal_strlit("mp4");
    reveal_strlit("mkv");
    reveal_strlit("avi");
    reveal_strlit("mov");
    reveal_strlit("webm");
    reveal_strlit("flv");
    reveal_strlit("wmv");
    reveal_strlit("mp3");
    reveal_strlit("wav");
    reveal_strlit("flac");
    reveal_strlit("ogg");
    reveal_strlit("m4a");
    reveal_strlit("aac");
    reveal_strlit("png");
    reveal_strlit("jpg");
    reveal_strlit("jpeg");
    reveal_strlit("gif");
    reveal_strlit("webp");
    reveal_strlit("svg");
    reveal_strlit("bmp");
    reveal_strlit("ico");
    reveal_strlit("pdf");
    reveal_strlit("doc");
    reveal_strlit("docx");
    reveal_strlit("txt");
    reveal_strlit("xlsx");
    reveal_strlit("xls");
    reveal_strlit("csv");
    reveal_strlit("ppt");
    reveal_strlit("pptx");
    reveal_strlit("zip");
    reveal_strlit("rar");
    reveal_strlit("7z");
    reveal_strlit("tar");
    reveal_strlit("gz");
    // The kind words differ from each other, and no extension of one list is
    // spelled like one of another list.
    assert("video"@[0] != "audio"@[0]);
    assert("video"@[0] != "image"@[0]);
    assert("video"@.len() != "document"@.len());
    assert("video"@.len() != "archive"@.len());
    assert("video"@.len() != "file"@.len());
    assert("audio"@[0] != "image"@[0]);
    assert("audio"@.len() != "document"@.len());
    assert("audio"@.len() != "archive"@.len());
    assert("audio"@.len() != "file"@.len());
    assert("image"@.len() != "document"@.len());
    assert("image"@.len() != "archive"@.len());
    assert("image"@.len() != "file"@.len());
    assert("document"@.len() != "archive"@.len());
    assert("document"@.len() != "file"@.len());
    assert("archive"@.len() != "file"@.len());
    assert("mp4"@[2] != "mp3"@[2]);
    assert("mp4"@[0] != "wav"@[0]);
    assert("mp4"@.len() != "flac"@.len());
    assert("mp4"@[0] != "ogg"@[0]);
    assert("mp4"@[1] != "m4a"@[1]);
    assert("mp4"@[0] != "aac"@[0]);
    assert("mp4"@[0] != "png"@[0]);
    assert("mp4"@[0] != "jpg"@[0]);
    assert("mp4"@.len() != "jpeg"@.len());
    assert("mp4"@[0] != "gif"@[0]);
    assert("mp4"@.len() != "webp"@.len());
    assert("mp4"@[0] != "svg"@[0]);
    assert("mp4"@[0] != "bmp"@[0]);
    assert("mp4"@[0] != "ico"@[0]);
    assert("mp4"@[0] != "pdf"@[0]);
    assert("mp4"@[0] != "doc"@[0]);
    assert("mp4"@.len() != "docx"@.len());
    assert("mp4"@[0] != "txt"@[0]);
    assert("mp4"@.len() != "xlsx"@.len());
    assert("mp4"@[0] != "xls"@[0]);
    assert("mp4"@[0] != "csv"@[0]);
    assert("mp4"@[0] != "ppt"@[0]);
    assert("mp4"@.len() != "pptx"@.len());
    assert("mp4"@[0] != "zip"@[0]);
    assert("mp4"@[0] != "rar"@[0]);
    assert("mp4"@.len() != "7z"@.len());
    assert("mp4"@[0] != "tar"@[0]);
    assert("mp4"@.len() != "gz"@.len());
    assert("mkv"@[1] != "mp3"@[1]);
    assert("mkv"@[0] != "wav"@[0]);
    assert("mkv"@.len() != "flac"@.len());
    assert("mkv"@[0] != "ogg"@[0]);
    assert("mkv"@[1] != "m4a"@[1]);
    assert("mkv"@[0] != "aac"@[0]);
    assert("mkv"@[0] != "png"@[0]);
    assert("mkv"@[0] != "jpg"@[0]);
    assert("mkv"@.len() != "jpeg"@.len());
    assert("mkv"@[0] != "gif"@[0]);
    assert("mkv"@.len() != "webp"@.len());
    assert("mkv"@[0] != "svg"@[0]);
    assert("mkv"@[0] != "bmp"@[0]);
    assert("mkv"@[0] != "ico"@[0]);
    assert("mkv"@[0] != "pdf"@[0]);
    assert("mkv"@[0] != "doc"@[0]);
    assert("mkv"@.len() != "docx"@.len());
    assert("mkv"@[0] != "txt"@[0]);
    assert("mkv"@.len() != "xlsx"@.len());
    assert("mkv"@[0] != "xls"@[0]);
    assert("mkv"@[0] != "csv"@[0]);
    assert("mkv"@[0] != "ppt"@[0]);
    assert("mkv"@.len() != "pptx"@.len());
    assert("mkv"@[0] != "zip"@[0]);
    assert("mkv"@[0] != "rar"@[0]);
    assert("mkv"@.len() != "7z"@.len());
    assert("mkv"@[0] != "tar"@[0]);
    assert("mkv"@.len() != "gz"@.len());
    assert("avi"@[0] != "mp3"@[0]);
    assert("avi"@[0] != "wav"@[0]);
    assert("avi"@.len() != "flac"@.len());
    assert("avi"@[0] != "ogg"@[0]);
    assert("avi"@[0] != "m4a"@[0]);
    assert("avi"@[1] != "aac"@[1]);
    assert("avi"@[0] != "png"@[0]);
    assert("avi"@[0] != "jpg"@[0]);
    assert("avi"@.len() != "jpeg"@.len());
    assert("avi"@[0] != "gif"@[0]);
    assert("avi"@.len() != "webp"@.len());
    assert("avi"@[0] != "svg"@[0]);
    assert("avi"@[0] != "bmp"@[0]);
    assert("avi"@[0] != "ico"@[0]);
    assert("avi"@[0] != "pdf"@[0]);
    assert("avi"@[0] != "doc"@[0]);
    assert("avi"@.len() != "docx"@.len());
    assert("avi"@[0] != "txt"@[0]);
    assert("avi"@.len() != "xlsx"@.len());
    assert("avi"@[0] != "xls"@[0]);
    assert("avi"@[0] != "csv"@[0]);
    assert("avi"@[0] != "ppt"@[0]);
    assert("avi"@.len() != "pptx"@.len());
    assert("avi"@[0] != "zip"@[0]);
    assert("avi"@[0] != "rar"@[0]);
    assert("avi"@.len() != "7z"@.len());
    assert("avi"@[0] != "tar"@[0]);
    assert("avi"@.len() != "gz"@.len());
    assert("mov"@[1] != "mp3"@[1]);
    assert("mov"@[0] != "wav"@[0]);
    assert("mov"@.len() != "flac"@.len());
    assert("mov"@[0] != "ogg"@[0]);
    assert("mov"@[1] != "m4a"@[1]);
    assert("mov"@[0] != "aac"@[0]);
    assert("mov"@[0] != "png"@[0]);
    assert("mov"@[0] != "jpg"@[0]);
    assert("mov"@.len() != "jpeg"@.len());
    assert("mov"@[0] != "gif"@[0]);
    assert("mov"@.len() != "webp"@.len());
    assert("mov"@[0] != "svg"@[0]);
    assert("mov"@[0] != "bmp"@[0]);
    assert("mov"@[0] != "ico"@[0]);
    assert("mov"@[0] != "pdf"@[0]);
    assert("mov"@[0] != "doc"@[0]);
    assert("mov"@.len() != "docx"@.len());
    assert("mov"@[0] != "txt"@[0]);
    assert("mov"@.len() != "xlsx"@.len());
    assert("mov"@[0] != "xls"@[0]);
    assert("mov"@[0] != "csv"@[0]);
    assert("mov"@[0] != "ppt"@[0]);
    assert("mov"@.len() != "pptx"@.len());
    assert("mov"@[0] != "zip"@[0]);
    assert("mov"@[0] != "rar"@[0]);
    assert("mov"@.len() != "7z"@.len());
    assert("mov"@[0] != "tar"@[0]);
    assert("mov"@.len() != "gz"@.len());
    assert("webm"@.len() != "mp3"@.len());
    assert("webm"@.len() != "wav"@.len());
    assert("webm"@[0] != "flac"@[0]);
    assert("webm"@.len() != "ogg"@.len());
    assert("webm"@.len() != "m4a"@.len());
    assert("webm"@.len() != "aac"@.len());
    assert("webm"@.len() != "png"@.len());
    assert("webm"@.len() != "jpg"@.len());
    assert("webm"@[0] != "jpeg"@[0]);
    assert("webm"@.len() != "gif"@.len());
    assert("webm"@[3] != "webp"@[3]);
    assert("webm"@.len() != "svg"@.len());
    assert("webm"@.len() != "bmp"@.len());
    assert("webm"@.len() != "ico"@.len());
    assert("webm"@.len() != "pdf"@.len());
    assert("webm"@.len() != "doc"@.len());
    assert("webm"@[0] != "docx"@[0]);
    assert("webm"@.len() != "txt"@.len());
    assert("webm"@[0] != "xlsx"@[0]);
    assert("webm"@.len() != "xls"@.len());
    assert("webm"@.len() != "csv"@.len());
    assert("webm"@.len() != "ppt"@.len());
    assert("webm"@[0] != "pptx"@[0]);
    assert("webm"@.len() != "zip"@.len());
    assert("webm"@.len() != "rar"@.len());
    assert("webm"@.len() != "7z"@.len());
    assert("webm"@.len() != "tar"@.len());
    assert("webm"@.len() != "gz"@.len());
    assert("flv"@[0] != "mp3"@[0]);
    assert("flv"@[0] != "wav"@[0]);
    assert("flv"@.len() != "flac"@.len());
    assert("flv"@[0] != "ogg"@[0]);
    assert("flv"@[0] != "m4a"@[0]);
    assert("flv"@[0] != "aac"@[0]);
    assert("flv"@[0] != "png"@[0]);
    assert("flv"@[0] != "jpg"@[0]);
    assert("flv"@.len() != "jpeg"@.len());
    assert("flv"@[0] != "gif"@[0]);
    assert("flv"@.len() != "webp"@.len());
    assert("flv"@[0] != "svg"@[0]);
    assert("flv"@[0] != "bmp"@[0]);
    assert("flv"@[0] != "ico"@[0]);
    assert("flv"@[0] != "pdf"@[0]);
    assert("flv"@[0] != "doc"@[0]);
    assert("flv"@.len() != "docx"@.len());
    assert("flv"@[0] != "txt"@[0]);
    assert("flv"@.len() != "xlsx"@.len());
    assert("flv"@[0] != "xls"@[0]);
    assert("flv"@[0] != "csv"@[0]);
    assert("flv"@[0] != "ppt"@[0]);
    assert("flv"@.len() != "pptx"@.len());
    assert("flv"@[0] != "zip"@[0]);
    assert("flv"@[0] != "rar"@[0]);
    assert("flv"@.len() != "7z"@.len());
    assert("flv"@[0] != "tar"@[0]);
    assert("flv"@.len() != "gz"@.len());
    assert("wmv"@[0] != "mp3"@[0]);
    assert("wmv"@[1] != "wav"@[1]);
    assert("wmv"@.len() != "flac"@.len());
    assert("wmv"@[0] != "ogg"@[0]);
    assert("wmv"@[0] != "m4a"@[0]);
    assert("wmv"@[0] != "aac"@[0]);
    assert("wmv"@[0] != "png"@[0]);
    assert("wmv"@[0] != "jpg"@[0]);
    assert("wmv"@.len() != "jpeg"@.len());
    assert("wmv"@[0] != "gif"@[0]);
    assert("wmv"@.len() != "webp"@.len());
    assert("wmv"@[0] != "svg"@[0]);
    assert("wmv"@[0] != "bmp"@[0]);
    assert("wmv"@[0] != "ico"@[0]);
    assert("wmv"@[0] != "pdf"@[0]);
    assert("wmv"@[0] != "doc"@[0]);
    assert("wmv"@.len() != "docx"@.len());
    assert("wmv"@[0] != "txt"@[0]);
    assert("wmv"@.len() != "xlsx"@.len());
    assert("wmv"@[0] != "xls"@[0]);
    assert("wmv"@[0] != "csv"@[0]);
    assert("wmv"@[0] != "ppt"@[0]);
    assert("wmv"@.len() != "pptx"@.len());
    assert("wmv"@[0] != "zip"@[0]);
    assert("wmv"@[0] != "rar"@[0]);
    assert("wmv"@.len() != "7z"@.len());
    assert("wmv"@[0] != "tar"@[0]);
    assert("wmv"@.len() != "gz"@.len());
    assert("mp3"@[0] != "png"@[0]);
    assert("mp3"@[0] != "jpg"@[0]);
    assert("mp3"@.len() != "jpeg"@.len());
    assert("mp3"@[0] != "gif"@[0]);
    assert("mp3"@.len() != "webp"@.len());
    assert("mp3"@[0] != "svg"@[0]);
    assert("mp3"@[0] != "bmp"@[0]);
    assert("mp3"@[0] != "ico"@[0]);
    assert("mp3"@[0] != "pdf"@[0]);
    assert("mp3"@[0] != "doc"@[0]);
    assert("mp3"@.len() != "docx"@.len());
    assert("mp3"@[0] != "txt"@[0]);
    assert("mp3"@.len() != "xlsx"@.len());
    assert("mp3"@[0] != "xls"@[0]);
    assert("mp3"@[0] != "csv"@[0]);
    assert("mp3"@[0] != "ppt"@[0]);
    assert("mp3"@.len() != "pptx"@.len());
    assert("mp3"@[0] != "zip"@[0]);
    assert("mp3"@[0] != "rar"@[0]);
    assert("mp3"@.len() != "7z"@.len());
    assert("mp3"@[0] != "tar"@[0]);
    assert("mp3"@.len() != "gz"@.len());
    assert("wav"@[0] != "png"@[0]);
    assert("wav"@[0] != "jpg"@[0]);
    assert("wav"@.len() != "jpeg"@.len());
    assert("wav"@[0] != "gif"@[0]);
    assert("wav"@.len() != "webp"@.len());
    assert("wav"@[0] != "svg"@[0]);
    assert("wav"@[0] != "bmp"@[0]);
    assert("wav"@[0] != "ico"@[0]);
    assert("wav"@[0] != "pdf"@[0]);
    assert("wav"@[0] != "doc"@[0]);
    assert("wav"@.len() != "docx"@.len());
    assert("wav"@[0] != "txt"@[0]);
    assert("wav"@.len() != "xlsx"@.len());
    assert("wav"@[0] != "xls"@[0]);
    assert("wav"@[0] != "csv"@[0]);
    assert("wav"@[0] != "ppt"@[0]);
    assert("wav"@.len() != "pptx"@.len());
    assert("wav"@[0] != "zip"@[0]);
    assert("wav"@[0] != "rar"@[0]);
    assert("wav"@.len() != "7z"@.len());
    assert("wav"@[0] != "tar"@[0]);
    assert("wav"@.len() != "gz"@.len());
    assert("flac"@.len() != "png"@.len());
    assert("flac"@.len() != "jpg"@.len());
    assert("flac"@[0] != "jpeg"@[0]);
    assert("flac"@.len() != "gif"@.len());
    assert("flac"@[0] != "webp"@[0]);
    assert("flac"@.len() != "svg"@.len());
    assert("flac"@.len() != "bmp"@.len());
    assert("flac"@.len() != "ico"@.len());
    assert("flac"@.len() != "pdf"@.len());
    assert("flac"@.len() != "doc"@.len());
    assert("flac"@[0] != "docx"@[0]);
    assert("flac"@.len() != "txt"@.len());
    assert("flac"@[0] != "xlsx"@[0]);
    assert("flac"@.len() != "xls"@.len());
    assert("flac"@.len() != "csv"@.len());
    assert("flac"@.len() != "ppt"@.len());
    assert("flac"@[0] != "pptx"@[0]);
    assert("flac"@.len() != "zip"@.len());
    assert("flac"@.len() != "rar"@.len());
    assert("flac"@.len() != "7z"@.len());
    assert("flac"@.len() != "tar"@.len());
    assert("flac"@.len() != "gz"@.len());
    assert("ogg"@[0] != "png"@[0]);
    assert("ogg"@[0] != "jpg"@[0]);
    assert("ogg"@.len() != "jpeg"@.len());
    assert("ogg"@[0] != "gif"@[0]);
    assert("ogg"@.len() != "webp"@.len());
    assert("ogg"@[0] != "svg"@[0]);
    assert("ogg"@[0] != "bmp"@[0]);
    assert("ogg"@[0] != "ico"@[0]);
    assert("ogg"@[0] != "pdf"@[0]);
    assert("ogg"@[0] != "doc"@[0]);
    assert("ogg"@.len() != "docx"@.len());
    assert("ogg"@[0] != "txt"@[0]);
    assert("ogg"@.len() != "xlsx"@.len());
    assert("ogg"@[0] != "xls"@[0]);
    assert("ogg"@[0] != "csv"@[0]);
    assert("ogg"@[0] != "ppt"@[0]);
    assert("ogg"@.len() != "pptx"@.len());
    assert("ogg"@[0] != "zip"@[0]);
    assert("ogg"@[0] != "rar"@[0]);
    assert("ogg"@.len() != "7z"@.len());
    assert("ogg"@[0] != "tar"@[0]);
    assert("ogg"@.len() != "gz"@.len());
    assert("m4a"@[0] != "png"@[0]);
    assert("m4a"@[0] != "jpg"@[0]);
    assert("m4a"@.len() != "jpeg"@.len());
    assert("m4a"@[0] != "gif"@[0]);
    assert("m4a"@.len() != "webp"@.len());
    assert("m4a"@[0] != "svg"@[0]);
    assert("m4a"@[0] != "bmp"@[0]);
    assert("m4a"@[0] != "ico"@[0]);
    assert("m4a"@[0] != "pdf"@[0]);
    assert("m4a"@[0] != "doc"@[0]);
    assert("m4a"@.len() != "docx"@.len());
    assert("m4a"@[0] != "txt"@[0]);
    assert("m4a"@.len() != "xlsx"@.len());
    assert("m4a"@[0] != "xls"@[0]);
    assert("m4a"@[0] != "csv"@[0]);
    assert("m4a"@[0] != "ppt"@[0]);
    assert("m4a"@.len() != "pptx"@.len());
    assert("m4a"@[0] != "zip"@[0]);
    assert("m4a"@[0] != "rar"@[0]);
    assert("m4a"@.len() != "7z"@.len());
    assert("m4a"@[0] != "tar"@[0]);
    assert("m4a"@.len() != "gz"@.len());
    assert("aac"@[0] != "png"@[0]);
    assert("aac"@[0] != "jpg"@[0]);
    assert("aac"@.len() != "jpeg"@.len());
    assert("aac"@[0] != "gif"@[0]);
    assert("aac"@.len() != "webp"@.len());
    assert("aac"@[0] != "svg"@[0]);
    assert("aac"@[0] != "bmp"@[0]);
    assert("aac"@[0] != "ico"@[0]);
    assert("aac"@[0] != "pdf"@[0]);
    assert("aac"@[0] != "doc"@[0]);
    assert("aac"@.len() != "docx"@.len());
    assert("aac"@[0] != "txt"@[0]);
    assert("aac"@.len() != "xlsx"@.len());
    assert("aac"@[0] != "xls"@[0]);
    assert("aac"@[0] != "csv"@[0]);
    assert("aac"@[0] != "ppt"@[0]);
    assert("aac"@.len() != "pptx"@.len());
    assert("aac"@[0] != "zip"@[0]);
    assert("aac"@[0] != "rar"@[0]);
    assert("aac"@.len() != "7z"@.len());
    assert("aac"@[0] != "tar"@[0]);
    assert("aac"@.len() != "gz"@.len());
    assert("png"@[1] != "pdf"@[1]);
    assert("png"@[0] != "doc"@[0]);
    assert("png"@.len() != "docx"@.len());
    assert("png"@[0] != "txt"@[0]);
    assert("png"@.len() != "xlsx"@.len());
    assert("png"@[0] != "xls"@[0]);
    assert("png"@[0] != "csv"@[0]);
    assert("png"@[1] != "ppt"@[1]);
    assert("png"@.len() != "pptx"@.len());
    assert("png"@[0] != "zip"@[0]);
    assert("png"@[0] != "rar"@[0]);
    assert("png"@.len() != "7z"@.len());
    assert("png"@[0] != "tar"@[0]);
    assert("png"@.len() != "gz"@.len());
    assert("jpg"@[0] != "pdf"@[0]);
    assert("jpg"@[0] != "doc"@[0]);
    assert("jpg"@.len() != "docx"@.len());
    assert("jpg"@[0] != "txt"@[0]);
    assert("jpg"@.len() != "xlsx"@.len());
    assert("jpg"@[0] != "xls"@[0]);
    assert("jpg"@[0] != "csv"@[0]);
    assert("jpg"@[0] != "ppt"@[0]);
    assert("jpg"@.len() != "pptx"@.len());
    assert("jpg"@[0] != "zip"@[0]);
    assert("jpg"@[0] != "rar"@[0]);
    assert("jpg"@.len() != "7z"@.len());
    assert("jpg"@[0] != "tar"@[0]);
    assert("jpg"@.len() != "gz"@.len());
    assert("jpeg"@.len() != "pdf"@.len());
    assert("jpeg"@.len() != "doc"@.len());
    assert("jpeg"@[0] != "docx"@[0]);
    assert("jpeg"@.len() != "txt"@.len());
    assert("jpeg"@[0] != "xlsx"@[0]);
    assert("jpeg"@.len() != "xls"@.len());
    assert("jpeg"@.len() != "csv"@.len());
    assert("jpeg"@.len() != "ppt"@.len());
    assert("jpeg"@[0] != "pptx"@[0]);
    assert("jpeg"@.len() != "zip"@.len());
    assert("jpeg"@.len() != "rar"@.len());
    assert("jpeg"@.len() != "7z"@.len());
    assert("jpeg"@.len() != "tar"@.len());
    assert("jpeg"@.len() != "gz"@.len());
    assert("gif"@[0] != "pdf"@[0]);
    assert("gif"@[0] != "doc"@[0]);
    assert("gif"@.len() != "docx"@.len());
    assert("gif"@[0] != "txt"@[0]);
    assert("gif"@.len() != "xlsx"@.len());
    assert("gif"@[0] != "xls"@[0]);
    assert("gif"@[0] != "csv"@[0]);
    assert("gif"@[0] != "ppt"@[0]);
    assert("gif"@.len() != "pptx"@.len());
    assert("gif"@[0] != "zip"@[0]);
    assert("gif"@[0] != "rar"@[0]);
    assert("gif"@.len() != "7z"@.len());
    assert("gif"@[0] != "tar"@[0]);
    assert("gif"@.len() != "gz"@.len());
    assert("webp"@.len() != "pdf"@.len());
    assert("webp"@.len() != "doc"@.len());
    assert("webp"@[0] != "docx"@[0]);
    assert("webp"@.len() != "txt"@.len());
    assert("webp"@[0] != "xlsx"@[0]);
    assert("webp"@.len() != "xls"@.len());
    assert("webp"@.len() != "csv"@.len());
    assert("webp"@.len() != "ppt"@.len());
    assert("webp"@[0] != "pptx"@[0]);
    assert("webp"@.len() != "zip"@.len());
    assert("webp"@.len() != "rar"@.len());
    assert("webp"@.len() != "7z"@.len());
    assert("webp"@.len() != "tar"@.len());
    assert("webp"@.len() != "gz"@.len());
    assert("svg"@[0] != "pdf"@[0]);
    assert("svg"@[0] != "doc"@[0]);
    assert("svg"@.len() != "docx"@.len());
    assert("svg"@[0] != "txt"@[0]);
    assert("svg"@.len() != "xlsx"@.len());
    assert("svg"@[0] != "xls"@[0]);
    assert("svg"@[0] != "csv"@[0]);
    assert("svg"@[0] != "ppt"@[0]);
    assert("svg"@.len() != "pptx"@.len());
    assert("svg"@[0] != "zip"@[0]);
    assert("svg"@[0] != "rar"@[0]);
    assert("svg"@.len() != "7z"@.len());
    assert("svg"@[0] != "tar"@[0]);
    assert("svg"@.len() != "gz"@.len());
    assert("bmp"@[0] != "pdf"@[0]);
    assert("bmp"@[0] != "doc"@[0]);
    assert("bmp"@.len() != "docx"@.len());
    assert("bmp"@[0] != "txt"@[0]);
    assert("bmp"@.len() != "xlsx"@.len());
    assert("bmp"@[0] != "xls"@[0]);
    assert("bmp"@[0] != "csv"@[0]);
    assert("bmp"@[0] != "ppt"@[0]);
    assert("bmp"@.len() != "pptx"@.len());
    assert("bmp"@[0] != "zip"@[0]);
    assert("bmp"@[0] != "rar"@[0]);
    assert("bmp"@.len() != "7z"@.len());
    assert("bmp"@[0] != "tar"@[0]);
    assert("bmp"@.len() != "gz"@.len());
    assert("ico"@[0] != "pdf"@[0]);
    assert("ico"@[0] != "doc"@[0]);
    assert("ico"@.len() != "docx"@.len());
    assert("ico"@[0] != "txt"@[0]);
    assert("ico"@.len() != "xlsx"@.len());
    assert("ico"@[0] != "xls"@[0]);
    assert("ico"@[0] != "csv"@[0]);
    assert("ico"@[0] != "ppt"@[0]);
    assert("ico"@.len() != "pptx"@.len());
    assert("ico"@[0] != "zip"@[0]);
    assert("ico"@[0] != "rar"@[0]);
    assert("ico"@.len() != "7z"@.len());
    assert("ico"@[0] != "tar"@[0]);
    assert("ico"@.len() != "gz"@.len());
    assert("pdf"@[0] != "zip"@[0]);
    assert("pdf"@[0] != "rar"@[0]);
    assert("pdf"@.len() != "7z"@.len());
    assert("pdf"@[0] != "tar"@[0]);
    assert("pdf"@.len() != "gz"@.len());
    assert("doc"@[0] != "zip"@[0]);
    assert("doc"@[0] != "rar"@[0]);
    assert("doc"@.len() != "7z"@.len());
    assert("doc"@[0] != "tar"@[0]);
    assert("doc"@.len() != "gz"@.len());
    assert("docx"@.len() != "zip"@.len());
    assert("docx"@.len() != "rar"@.len());
    assert("docx"@.len() != "7z"@.len());
    assert("docx"@.len() != "tar"@.len());
    assert("docx"@.len() != "gz"@.len());
    assert("txt"@[0] != "zip"@[0]);
    assert("txt"@[0] != "rar"@[0]);
    assert("txt"@.len() != "7z"@.len());
    assert("txt"@[1] != "tar"@[1]);
    assert("txt"@.len() != "gz"@.len());
    assert("xlsx"@.len() != "zip"@.len());
    assert("xlsx"@.len() != "rar"@.len());
    assert("xlsx"@.len() != "7z"@.len());
    assert("xlsx"@.len() != "tar"@.len());
    assert("xlsx"@.len() != "gz"@.len());
    assert("xls"@[0] != "zip"@[0]);
    assert("xls"@[0] != "rar"@[0]);
    assert("xls"@.len() != "7z"@.len());
    assert("xls"@[0] != "tar"@[0]);
    assert("xls"@.len() != "gz"@.len());
    assert("csv"@[0] != "zip"@[0]);
    assert("csv"@[0] != "rar"@[0]);
    assert("csv"@.len() != "7z"@.len());
    assert("csv"@[0] != "tar"@[0]);
    assert("csv"@.len() != "gz"@.len());
    assert("ppt"@[0] != "zip"@[0]);
    assert("ppt"@[0] != "rar"@[0]);
    assert("ppt"@.len() != "7z"@.len());
    assert("ppt"@[0] != "tar"@[0]);
    assert("ppt"@.len() != "gz"@.len());
    assert("pptx"@.len() != "zip"@.len());
    assert("pptx"@.len() != "rar"@.len());
    assert("pptx"@.len() != "7z"@.len());
    assert("pptx"@.len() != "tar"@.len());
    assert("pptx"@.len() != "gz"@.len());
    let e = lowercase(ext);
    assert(video_exts().contains(e) <==> (e == "mp4"@ || e == "mkv"@ || e == "avi"@ || e == "mov"@ || e == "webm"@ || e == "flv"@ || e == "wmv"@)) by {
        let l = video_exts();
        assert(l[0] == "mp4"@);
        assert(l[1] == "mkv"@);
        assert(l[2] == "avi"@);
        assert(l[3] == "mov"@);
        assert(l[4] == "webm"@);
        assert(l[5] == "flv"@);
        assert(l[6] == "wmv"@);
        if video_exts().contains(e) {
            let i = choose|i: int| 0 <= i < l.len() && l[i] == e;
            assert(i == 0 || i == 1 || i == 2 || i == 3 || i == 4 || i == 5 || i == 6);
        }
    }
    assert(audio_exts().contains(e) <==> (e == "mp3"@ || e == "wav"@ || e == "flac"@ || e == "ogg"@ || e == "m4a"@ || e == "aac"@)) by {
        let l = audio_exts();
        assert(l[0] == "mp3"@);
        assert(l[1] == "wav"@);
        assert(l[2] == "flac"@);
        assert(l[3] == "ogg"@);
        assert(l[4] == "m4a"@);
        assert(l[5] == "aac"@);
        if audio_exts().contains(e) {
            let i = choose|i: int| 0 <= i < l.len() && l[i] == e;
            assert(i == 0 || i == 1 || i == 2 || i == 3 || i == 4 || i == 5);
        }
    }
    assert(image_exts().contains(e) <==> (e == "png"@ || e == "jpg"@ || e == "jpeg"@ || e == "gif"@ || e == "webp"@ || e == "svg"@ || e == "bmp"@ || e == "ico"@)) by {
        let l = image_exts();
        assert(l[0] == "png"@);
        assert(l[1] == "jpg"@);
        assert(l[2] == "jpeg"@);
        assert(l[3] == "gif"@);
        assert(l[4] == "webp"@);
        assert(l[5] == "svg"@);
        assert(l[6] == "bmp"@);
        assert(l[7] == "ico"@);
        if image_exts().contains(e) {
            let i = choose|i: int| 0 <= i < l.len() && l[i] == e;
            assert(i == 0 || i == 1 || i == 2 || i == 3 || i == 4 || i == 5 || i == 6 || i == 7);
        }
    }
    assert(document_exts().contains(e) <==> (e == "pdf"@ || e == "doc"@ || e == "docx"@ || e == "txt"@ || e == "xlsx"@ || e == "xls"@ || e == "csv"@ || e == "ppt"@ || e == "pptx"@)) by {
        let l = document_exts();
        assert(l[0] == "pdf"@);
        assert(l[1] == "doc"@);
        assert(l[2] == "docx"@);
        assert(l[3] == "txt"@);
        assert(l[4] == "xlsx"@);
        assert(l[5] == "xls"@);
        assert(l[6] == "csv"@);
        assert(l[7] == "ppt"@);
        assert(l[8] == "pptx"@);
        if document_exts().contains(e) {
            let i = choose|i: int| 0 <= i < l.len() && l[i] == e;
            assert(i == 0 || i == 1 || i == 2 || i == 3 || i == 4 || i == 5 || i == 6 || i == 7 || i == 8);
        }
    }
    assert(archive_exts().contains(e) <==> (e == "zip"@ || e == "rar"@ || e == "7z"@ || e == "tar"@ || e == "gz"@)) by {
        let l = archive_exts();
        assert(l[0] == "zip"@);
        assert(l[1] == "rar"@);
        assert(l[2] == "7z"@);
        assert(l[3] == "tar"@);
        assert(l[4] == "gz"@);
        if archive_exts().contains(e) {
            let i = choose|i: int| 0 <= i < l.len() && l[i] == e;
            assert(i == 0 || i == 1 || i == 2 || i == 3 || i == 4);
        }
    }
}

/// The date and time a smart name is made from, in local time.
#[derive(Clone, Copy, Debug, PartialEq, Eq, Structural)]
pub struct Stamp {
    pub year: u32,
    pub month: u32,
    pub day: u32,
    pub hours: u32,
    pub minutes: u32,
}

/// `yyyy-MM-dd` filled in (`{:04}-{:02}-{:02}`).
pub open spec fn spec_date_text(s: Stamp) -> Seq<char> {
    pad_zeros(decimal(s.year as nat), 4) + seq!['-'] + two_digits(s.month as nat) + seq!['-']
        + two_digits(s.day as nat)
}

/// `HHhMM` filled in.
pub open spec fn spec_time_text(s: Stamp) -> Seq<char> {
    two_digits(s.hours as nat) + seq!['h'] + two_digits(s.minutes as nat)
}

/// The smart name of a file, before any ` (n)` is added: the template with
/// `yyyy-MM-dd`, `HHhMM'`, `HHhMM` and `[type]` replaced in that order, and a
/// trailing `.ext` of the file's own extension removed.
pub open spec fn spec_smart_base(template: Seq<char>, stamp: Stamp, ext: Seq<char>) -> Seq<char> {
    let g = replace_all(
        replace_all(
            replace_all(
                replace_all(template, "yyyy-MM-dd"@, spec_date_text(stamp)),
                "HHhMM'"@,
                spec_time_text(stamp) + seq!['\''],
            ),
            "HHhMM"@,
            spec_time_text(stamp),
        ),
        "[type]"@,
        spec_file_kind(ext),
    );
    if ext.len() > 0 && ends_with(g, seq!['.'] + ext) {
        g.take(g.len() - ext.len() - 1)
    } else {
        g
    }
}

fn smart_base_chars(template: &Vec<char>, stamp: Stamp, ext: &Vec<char>) -> (r: Vec<char>)
    ensures
        r@ == spec_smart_base(template@, stamp, ext@),
{
    let mut date = pad_zeros_chars(&decimal_chars(stamp.year as u64), 4);
    date.push('-');
    extend_chars(&mut date, &two_digit_chars(stamp.month as u64));
    date.push('-');
    extend_chars(&mut date, &two_digit_chars(stamp.day as u64));
    let mut time = two_digit_chars(stamp.hours as u64);
    time.push('h');
    extend_chars(&mut time, &two_digit_chars(stamp.minutes as u64));
    let mut time_q = time.clone();
    time_q.push('\'');
    let p1 = lit("yyyy-MM-dd");
    let p2 = lit("HHhMM'");
    let p3 = lit("HHhMM");
    let p4 = lit("[type]");
    proof {
        reveal_strlit("yyyy-MM-dd");
        reveal_strlit("HHhMM'");
        reveal_strlit("HHhMM");
        reveal_strlit("[type]");
        assert(date@ =~= spec_date_text(stamp));
        assert(time@ =~= spec_time_text(stamp));
        assert(time_q@ =~= spec_time_text(stamp) + seq!['\'']);
    }
    let kind = chars_of(file_kind(&string_of(ext)).as_str());
    let g1 = replace_chars(template, &p1, &date);
    let g2 = replace_chars(&g1, &p2, &time_q);
    let g3 = replace_chars(&g2, &p3, &time);
    let g = replace_chars(&g3, &p4, &kind);
    if ext.len() > 0 {
        let mut dot_ext: Vec<char> = Vec::new();
        dot_ext.push('.');
        extend_chars(&mut dot_ext, ext);
        if ends_with_chars(&g, &dot_ext) {
            let r = slice_chars(&g, 0, g.len() - ext.len() - 1);
            assert(r@ =~= g@.take(g@.len() - ext@.len() - 1));
            return r;
        }
    }
    g
}

fn ext_chars(name: &Vec<char>) -> (r: Vec<char>)
    ensures
        r@ == spec_ext(name@),
{
    match last_index(name, '.') {
        Some(i) => {
            proof {
                crate::text::lemma_last_index_of(name@, '.');
            }
            assert(i < name.len());
            let r = slice_chars(name, i + 1, name.len());
            assert(r@ =~= name@.skip(i + 1));
            r
        },
        None => Vec::new(),
    }
}

/// What follows the last `.` of a name or path, or nothing (`rsplitn(2, '.')`):
/// the extension the text preview is chosen by.
pub fn extension_of(name: &str) -> (r: String)
    ensures
        r@ == spec_ext(name@),
{
    string_of(&ext_chars(&chars_of(name)))
}

/// A file picked for upload: its name, the relative path it was dropped or
/// picked with (if any), and its date (the file's own or the current time).
pub struct UploadFile {
    pub name: String,
    pub rel_path: Option<String>,
    pub stamp: Stamp,
}

/// Whether a file came inside a folder: its relative path has a `/`.
pub open spec fn in_subfolder(f: UploadFile) -> bool {
    match f.rel_path {
        Some(r) => r@.len() > 0 && split_on(r@, '/').len() > 1,
        None => false,
    }
}

/// The smart name of a file before numbering, or `None` when it keeps its name.
pub open spec fn spec_base_of(f: UploadFile, smart: bool, template: Seq<char>) -> Option<
    Seq<char>,
> {
    let t = spec_effective_template(template);
    if smart && !is_blank(t) && !in_subfolder(f) {
        Some(spec_smart_base(t, f.stamp, spec_ext(f.name@)))
    } else {
        None
    }
}

/// How many of the first `upto` files got the smart name `g`.
pub open spec fn count_base(bases: Seq<Option<Seq<char>>>, g: Seq<char>, upto: int) -> nat
    decreases upto,
{
    if upto <= 0 {
        0
    } else {
        count_base(bases, g, upto - 1) + (if bases[upto - 1] == Some(g) {
            1nat
        } else {
            0nat
        })
    }
}

pub open spec fn bases_of(files: Seq<UploadFile>, smart: bool, template: Seq<char>) -> Seq<
    Option<Seq<char>>,
> {
    files.map_values(|f: UploadFile| spec_base_of(f, smart, template))
}

/// The folder a file goes to: the current folder, joined with the folders
/// of its relative path when it came inside one.
pub open spec fn spec_target_dir(path: Seq<char>, f: UploadFile) -> Seq<char> {
    if in_subfolder(f) {
        let parts = split_on(f.rel_path->0@, '/');
        spec_join_path(path, join_with(parts.drop_last(), seq!['/']))
    } else {
        path
    }
}

/// The name a file is sent under. A smart name shared by several files of
/// the batch gets ` (k)`, `k` counting from 0 in batch order; the file's
/// extension follows. Other files keep their name, or the last part of their
/// relative path.
pub open spec fn spec_target_name(
    files: Seq<UploadFile>,
    i: int,
    smart: bool,
    template: Seq<char>,
) -> Seq<char> {
    let f = files[i];
    let bases = bases_of(files, smart, template);
    match bases[i] {
        Some(g) => {
            let freq = count_base(bases, g, files.len() as int);
            let idx = if freq > 1 {
                seq![' ', '('] + decimal(count_base(bases, g, i)) + seq![')']
            } else {
                Seq::empty()
            };
            let ext = spec_ext(f.name@);
            if ext.len() == 0 {
                g + idx
            } else {
                g + idx + seq!['.'] + ext
            }
        },
        None => if in_subfolder(f) {
            split_on(f.rel_path->0@, '/').last()
        } else {
            f.name@
        },
    }
}

/// Where one file goes.
pub struct UploadTarget {
    pub dir: String,
    pub name: String,
}

fn subfolder_parts(f: &UploadFile) -> (r: Option<Vec<Vec<char>>>)
    ensures
        match r {
            Some(parts) => in_subfolder(*f) && parts@.len() == split_on(f.rel_path->0@, '/').len()
                && forall|k: int|
                0 <= k < parts@.len() ==> #[trigger] parts@[k]@ == split_on(f.rel_path->0@, '/')[k],
            None => !in_subfolder(*f),
        },
{
    match &f.rel_path {
        Some(r) => {
            let rv = chars_of(r.as_str());
            if rv.len() == 0 {
                return None;
            }
            let parts = split_chars(&rv, '/');
            if parts.len() > 1 {
                Some(parts)
            } else {
                None
            }
        },
        None => None,
    }
}

fn join_parts(parts: &Vec<Vec<char>>, upto: usize) -> (r: Vec<char>)
    requires
        upto <= parts.len(),
    ensures
        r@ == join_with(parts@.map_values(|p: Vec<char>| p@).take(upto as int), seq!['/']),
{
    let ghost all = parts@.map_values(|p: Vec<char>| p@);
    let mut r: Vec<char> = Vec::new();
    let mut k: usize = 0;
    assert(all.take(0) =~= Seq::<Seq<char>>::empty());
    while k < upto
        invariant
            0 <= k <= upto <= parts.len(),
            all == parts@.map_values(|p: Vec<char>| p@),
            r@ == join_with(all.take(k as int), seq!['/']),
        decreases upto - k,
    {
        assert(all.take(k + 1).drop_last() =~= all.take(k as int));
        if k > 0 {
            r.push('/');
        }
        extend_chars(&mut r, &parts[k]);
        k = k + 1;
        proof {
            if k == 1 {
                assert(all.take(1) =~= seq![all[0]]);
                assert(r@ =~= all[0]);
            }
        }
    }
    r
}

/// Where each file of an upload batch into `path` goes.
pub fn plan_upload(path: &str, files: &Vec<UploadFile>, smart: bool, template: &str) -> (r: Vec<
    UploadTarget,
>)
    ensures
        r.len() == files.len(),
        forall|i: int|
            0 <= i < r.len() ==> (#[trigger] r@[i]).dir@ == spec_target_dir(path@, files@[i])
                && r@[i].name@ == spec_target_name(files@, i, smart, template@),
{
    let p = chars_of(path);
    let t = chars_of(effective_template(template).as_str());
    let n = files.len();
    let ghost bases_spec = bases_of(files@, smart, template@);
    // Smart names before numbering.
    let mut bases: Vec<Option<Vec<char>>> = Vec::new();
    let mut k: usize = 0;
    while k < n
        invariant
            0 <= k <= n == files.len(),
            t@ == spec_effective_template(template@),
            bases_spec == bases_of(files@, smart, template@),
            bases.len() == k,
            forall|m: int|
                0 <= m < k ==> match #[trigger] bases@[m] {
                    Some(g) => bases_spec[m] == Some(g@),
                    None => bases_spec[m] is None,
                },
        decreases n - k,
    {
        let f = &files[k];
        let sub = subfolder_parts(f);
        if smart && !blank_chars(&t) && sub.is_none() {
            let name = chars_of(f.name.as_str());
            let ext = ext_chars(&name);
            bases.push(Some(smart_base_chars(&t, f.stamp, &ext)));
        } else {
            bases.push(None);
        }
        k = k + 1;
    }
    proof {
        assert forall|m: int| 0 <= m < n implies bases@.map_values(
            |b: Option<Vec<char>>| opt_view(b),
        )[m] == bases_spec[m] by {
            match bases@[m] {
                Some(g) => {},
                None => {},
            }
        }
        assert(bases@.map_values(|b: Option<Vec<char>>| opt_view(b)) =~= bases_spec);
    }
    // Targets.
    let mut out: Vec<UploadTarget> = Vec::new();
    let mut i: usize = 0;
    while i < n
        invariant
            0 <= i <= n == files.len(),
            n == bases.len(),
            p@ == path@,
            bases_spec == bases_of(files@, smart, template@),
            bases@.map_values(|b: Option<Vec<char>>| opt_view(b)) == bases_spec,
            forall|m: int|
                0 <= m < n ==> match #[trigger] bases@[m] {
                    Some(g) => bases_spec[m] == Some(g@),
                    None => bases_spec[m] is None,
                },
            out.len() == i,
            forall|m: int|
                0 <= m < i ==> (#[trigger] out@[m]).dir@ == spec_target_dir(path@, files@[m])
                    && out@[m].name@ == spec_target_name(files@, m, smart, template@),
        decreases n - i,
    {
        let f = &files[i];
        let name = chars_of(f.name.as_str());
        let sub = subfolder_parts(f);
        let dir = match &sub {
            Some(parts) => {
                let joined = join_parts(parts, parts.len() - 1);
                proof {
                    let all = parts@.map_values(|q: Vec<char>| q@);
                    assert(all.take(parts.len() - 1) =~= split_on(f.rel_path->0@, '/').drop_last());
                }
                join_path_chars(&p, &joined)
            },
            None => p.clone(),
        };
        let target_name = match &bases[i] {
            Some(g) => {
                let freq = count_chars_base(&bases, g, n);
                let before = count_chars_base(&bases, g, i);
                let mut r = g.clone();
                if freq > 1 {
                    r.push(' ');
                    r.push('(');
                    extend_chars(&mut r, &decimal_chars(before as u64));
                    r.push(')');
                }
                let ext = ext_chars(&name);
                if ext.len() > 0 {
                    r.push('.');
                    extend_chars(&mut r, &ext);
                }
                proof {
                    assert(bases_spec[i as int] == Some(g@));
                    let idx = if freq > 1 {
                        seq![' ', '('] + decimal(before as nat) + seq![')']
                    } else {
                        Seq::empty()
                    };
                    if ext.len() > 0 {
                        assert(r@ =~= g@ + idx + seq!['.'] + ext@);
                    } else {
                        assert(r@ =~= g@ + idx);
                    }
                }
                r
            },
            None => match &sub {
                Some(parts) => {
                    let last = parts.len() - 1;
                    parts[last].clone()
                },
                None => name,
            },
        };
        out.push(UploadTarget { dir: string_of(&dir), name: string_of(&target_name) });
        i = i + 1;
    }
    out
}

/// How many of the first `upto` smart names equal `g`.
fn count_chars_base(bases: &Vec<Option<Vec<char>>>, g: &Vec<char>, upto: usize) -> (r: usize)
    requires
        upto <= bases.len(),
    ensures
        r == count_base(bases@.map_values(|b: Option<Vec<char>>| opt_view(b)), g@, upto as int),
        r <= upto,
{
    let ghost bs = bases@.map_values(|b: Option<Vec<char>>| opt_view(b));
    let mut c: usize = 0;
    let mut k: usize = 0;
    while k < upto
        invariant
            0 <= k <= upto <= bases.len(),
            bs == bases@.map_values(|b: Option<Vec<char>>| opt_view(b)),
            c == count_base(bs, g@, k as int),
            c <= k,
        decreases upto - k,
    {
        match &bases[k] {
            Some(b) => {
                if eq_chars(b, g) {
                    c = c + 1;
                }
            },
            None => {},
        }
        k = k + 1;
    }
    c
}

pub open spec fn opt_view(b: Option<Vec<char>>) -> Option<Seq<char>> {
    match b {
        Some(v) => Some(v@),
        None => None,
    }
}

proof fn lemma_count_base_mono(bases: Seq<Option<Seq<char>>>, g: Seq<char>, a: int, b: int)
    requires
        0 <= a <= b,
    ensures
        count_base(bases, g, a) <= count_base(bases, g, b),
    decreases b - a,
{
    if a < b {
        lemma_count_base_mono(bases, g, a, b - 1);
    }
}

/// Two files of a batch that get the same smart name and have the same
/// extension are still sent under different names: each carries its own
/// number.
pub proof fn lemma_smart_names_distinct(
    files: Seq<UploadFile>,
    i: int,
    j: int,
    smart: bool,
    template: Seq<char>,
)
    requires
        0 <= i < j < files.len(),
        bases_of(files, smart, template)[i] is Some,
        bases_of(files, smart, template)[i] == bases_of(files, smart, template)[j],
        spec_ext(files[i].name@) == spec_ext(files[j].name@),
    ensures
        spec_target_name(files, i, smart, template) != spec_target_name(files, j, smart, template),
{
    let bases = bases_of(files, smart, template);
    let g = bases[i]->0;
    let n = files.len() as int;
    lemma_count_base_mono(bases, g, i + 1, j);
    lemma_count_base_mono(bases, g, j + 1, n);
    let a = count_base(bases, g, i);
    let b = count_base(bases, g, j);
    assert(count_base(bases, g, i + 1) == a + 1);
    assert(count_base(bases, g, j + 1) == b + 1);
    assert(a < b);
    assert(count_base(bases, g, n) > 1);
    let da = decimal(a);
    let db = decimal(b);
    crate::number::lemma_decimal_digits(a);
    crate::number::lemma_decimal_digits(b);
    let ext = spec_ext(files[i].name@);
    let tail = if ext.len() == 0 {
        Seq::<char>::empty()
    } else {
        seq!['.'] + ext
    };
    let na = spec_target_name(files, i, smart, template);
    let nb = spec_target_name(files, j, smart, template);
    assert(na =~= g + seq![' ', '('] + da + seq![')'] + tail);
    assert(nb =~= g + seq![' ', '('] + db + seq![')'] + tail);
    if na == nb {
        if da.len() == db.len() {
            let s: int = g.len() as int + 2;
            assert(na.subrange(s, s + da.len() as int) =~= da);
            assert(nb.subrange(s, s + db.len() as int) =~= db);
            assert(da == db);
        } else {
            assert(na.len() != nb.len());
        }
    }
}

// ---------------------------------------------------------------------------
// The drop zone's filter
// ---------------------------------------------------------------------------

/// `s` without its trailing `*`s.
pub open spec fn strip_stars(s: Seq<char>) -> Seq<char>
    decreases s.len(),
{
    if s.len() > 0 && s.last() == '*' {
        strip_stars(s.drop_last())
    } else {
        s
    }
}

/// Whether one entry of an `accept` list (lower-cased and trimmed) lets a
/// file through: `.ext` by the end of its lower-cased name, `type/*` by the
/// start of its lower-cased MIME type, anything else by that type exactly.
pub open spec fn entry_accepts(entry: Seq<char>, name: Seq<char>, mime: Seq<char>) -> bool {
    if entry.len() > 0 && entry[0] == '.' {
        ends_with(name, entry)
    } else if ends_with(entry, "/*"@) {
        crate::text::starts_with(mime, strip_stars(entry))
    } else {
        mime == entry
    }
}

/// The entries of an `accept` list: the pieces between `,`, trimmed and
/// lower-cased.
pub open spec fn accept_entries(accept: Seq<char>) -> Seq<Seq<char>> {
    split_on(accept, ',').map_values(|e: Seq<char>| lowercase(crate::text::trim(e)))
}

/// Whether the drop zone takes a file: every file for `*/*`, otherwise a
/// file that some entry of the list lets through.
pub open spec fn spec_accepts(accept: Seq<char>, name: Seq<char>, mime: Seq<char>) -> bool {
    accept == "*/*"@ || exists|i: int|
        0 <= i < accept_entries(accept).len() && entry_accepts(
            #[trigger] accept_entries(accept)[i],
            lowercase(name),
            lowercase(mime),
        )
}

fn strip_stars_chars(s: &Vec<char>) -> (r: Vec<char>)
    ensures
        r@ == strip_stars(s@),
{
    let mut n = s.len();
    assert(s@.take(n as int) =~= s@);
    while n > 0 && s[n - 1] == '*'
        invariant
            n <= s.len(),
            strip_stars(s@) == strip_stars(s@.take(n as int)),
        decreases n,
    {
        assert(s@.take(n as int).drop_last() =~= s@.take(n - 1));
        n = n - 1;
    }
    let r = slice_chars(s, 0, n);
    assert(r@ =~= s@.take(n as int));
    r
}

/// Whether the drop zone takes a file named `name` of MIME type `mime`.
pub fn accepts(accept: &str, name: &str, mime: &str) -> (r: bool)
    ensures
        r == spec_accepts(accept@, name@, mime@),
{
    let a = chars_of(accept);
    proof {
        reveal_strlit("*/*");
    }
    if eq_chars(&a, &lit("*/*")) {
        return true;
    }
    let lname = to_lower(&chars_of(name));
    let lmime = to_lower(&chars_of(mime));
    let parts = split_chars(&a, ',');
    let ghost entries = accept_entries(accept@);
    let slash_star = lit("/*");
    let mut k: usize = 0;
    while k < parts.len()
        invariant
            0 <= k <= parts@.len(),
            parts@.len() == split_on(accept@, ',').len(),
            forall|m: int| 0 <= m < parts@.len() ==> #[trigger] parts@[m]@ == split_on(accept@, ',')[m],
            entries == accept_entries(accept@),
            lname@ == lowercase(name@),
            lmime@ == lowercase(mime@),
            slash_star@ == "/*"@,
            forall|m: int| 0 <= m < k ==> !entry_accepts(#[trigger] entries[m], lname@, lmime@),
        decreases parts.len() - k,
    {
        let e = to_lower(&crate::text::trim_chars(&parts[k]));
        assert(e@ == entries[k as int]);
        let ok = if e.len() > 0 && e[0] == '.' {
            ends_with_chars(&lname, &e)
        } else if ends_with_chars(&e, &slash_star) {
            crate::text::starts_with_chars(&lmime, &strip_stars_chars(&e))
        } else {
            eq_chars(&lmime, &e)
        };
        if ok {
            assert(entry_accepts(entries[k as int], lname@, lmime@));
            return true;
        }
        k = k + 1;
    }
    false
}

/// The files the drop zone keeps from a pick of `count`: all of them when it
/// takes several, else the first.
pub fn pick_limit(count: u32, multiple: bool) -> (r: u32)
    ensures
        r == (if multiple {
            count
        } else {
            1
        }),
{
    if multiple {
        count
    } else {
        1
    }
}

// ---------------------------------------------------------------------------
// Chunks
// ---------------------------------------------------------------------------

/// Files are sent in chunks of 2 MiB.
pub open spec fn chunk_size() -> nat {
    2097152
}

/// How many chunks a file of `size` bytes is cut into (the size divided by
/// the chunk size, rounded up).
pub open spec fn chunk_count(size: nat) -> nat {
    ((size + chunk_size() - 1) as nat) / chunk_size()
}

/// One chunk of a file: its number, how many there are, and the bytes
/// `start..end` it carries.
#[derive(Clone, Copy, Debug, PartialEq, Eq, Structural)]
pub struct ChunkSpan {
    pub index: u64,
    pub total: u64,
    pub start: u64,
    pub end: u64,
}

/// The chunks of a file of `size` bytes: an empty file is sent as one empty
/// chunk; otherwise chunk `k` carries the bytes from `k` chunk sizes on, up
/// to the next chunk or the end of the file.
pub open spec fn chunks_ok(size: u64, r: Seq<ChunkSpan>) -> bool {
    if size == 0 {
        r == seq![ChunkSpan { index: 0, total: 1, start: 0, end: 0 }]
    } else {
        &&& r.len() == chunk_count(size as nat)
        &&& forall|k: int|
            0 <= k < r.len() ==> {
                &&& (#[trigger] r[k]).index == k
                &&& r[k].total == r.len()
                &&& r[k].start == k * chunk_size()
                &&& r[k].end == if (k + 1) * chunk_size() < size {
                    (k + 1) * chunk_size()
                } else {
                    size as int
                }
            }
    }
}

pub fn upload_chunks(size: u64) -> (r: Vec<ChunkSpan>)
    ensures
        chunks_ok(size, r@),
{
    let mut out: Vec<ChunkSpan> = Vec::new();
    if size == 0 {
        out.push(ChunkSpan { index: 0, total: 1, start: 0, end: 0 });
        assert(out@ =~= seq![ChunkSpan { index: 0, total: 1, start: 0, end: 0 }]);
        return out;
    }
    let total_u64: u64 = size / 2097152 + if size % 2097152 == 0 {
        0
    } else {
        1
    };
    assert(total_u64 == chunk_count(size as nat)) by (nonlinear_arith)
        requires
            total_u64 == size / 2097152 + if size % 2097152 == 0 {
                0int
            } else {
                1int
            },
            size > 0,
    ;
    let total = total_u64;
    let mut k: u64 = 0;
    let mut start: u64 = 0;
    while k < total
        invariant
            0 <= k <= total,
            total == chunk_count(size as nat),
            size > 0,
            k < total ==> start == k * 2097152,
            out@.len() == k,
            forall|m: int|
                0 <= m < k ==> {
                    &&& (#[trigger] out@[m]).index == m
                    &&& out@[m].total == total
                    &&& out@[m].start == m * chunk_size()
                    &&& out@[m].end == if (m + 1) * chunk_size() < size {
                        (m + 1) * chunk_size()
                    } else {
                        size as int
                    }
                },
        decreases total - k,
    {
        assert(start < size) by (nonlinear_arith)
            requires
                start == k * 2097152,
                k < total,
                total == (size + 2097152 - 1) / 2097152,
        ;
        let next: u64 = if size - start > 2097152 {
            start + 2097152
        } else {
            size
        };
        out.push(ChunkSpan { index: k, total, start, end: next });
        k = k + 1;
        start = next;
        proof {
            if next == size {
                if k < total {
                    assert(false) by (nonlinear_arith)
                        requires
                            size <= k * 2097152,
                            k < total,
                            total == (size + 2097152 - 1) / 2097152,
                    ;
                }
            }
        }
    }
    proof {
        assert(out@.len() == chunk_count(size as nat));
    }
    out
}

/// The chunks of a non-empty file follow each other without gap from its
/// first byte to its end, and each carries between one byte and a chunk size.
pub proof fn lemma_chunks_cover(size: u64, r: Seq<ChunkSpan>)
    requires
        size > 0,
        chunks_ok(size, r),
    ensures
        r.len() > 0,
        r[0].start == 0,
        r[r.len() - 1].end == size,
        forall|k: int| 0 <= k < r.len() - 1 ==> #[trigger] r[k].end == r[k + 1].start,
        forall|k: int|
            0 <= k < r.len() ==> r[k].start < #[trigger] r[k].end && r[k].end - r[k].start
                <= chunk_size(),
{
    assert(r.len() > 0) by (nonlinear_arith)
        requires
            r.len() == (size + 2097152 - 1) / 2097152,
            size > 0,
    ;
    let n = r.len() as int;
    assert(r[n - 1].end == size) by (nonlinear_arith)
        requires
            n == (size + 2097152 - 1) / 2097152,
            r[n - 1].end == if n * 2097152 < size {
                n * 2097152
            } else {
                size as int
            },
            size > 0,
    ;
    assert forall|k: int| 0 <= k < r.len() implies r[k].start < #[trigger] r[k].end && r[k].end
        - r[k].start <= chunk_size() by {
        assert(r[k].start < r[k].end) by (nonlinear_arith)
            requires
                0 <= k < n,
                n == (size + 2097152 - 1) / 2097152,
                r[k].start == k * 2097152,
                r[k].end == if (k + 1) * 2097152 < size {
                    (k + 1) * 2097152
                } else {
                    size as int
                },
        ;
    }
    assert forall|k: int| 0 <= k < r.len() - 1 implies #[trigger] r[k].end == r[k + 1].start by {
        assert((k + 1) * 2097152 < size) by (nonlinear_arith)
            requires
                0 <= k < n - 1,
                n == (size + 2097152 - 1) / 2097152,
        ;
    }
}

} // verus!
