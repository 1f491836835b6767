//! The file server's data and the requests made to it. Sending a request
//! and reading its answer is I/O and stays with the caller; what is sent
//! (method, address and JSON body) is built and proved here.
use vstd::prelude::*;

use crate::json::{
    json_array, json_bool, json_opt_array, json_opt_bool, json_opt_str, json_quoted,
    opt_string_view, opt_strings_view, push_json_array, push_json_bool, push_json_opt_array,
    push_json_opt_bool, push_json_opt_str, push_json_str, string_views,
};
use crate::number::{decimal, decimal_chars};
use crate::text::{chars_of, extend_chars, lit, string_of};
use crate::uri::{encode_chars, spec_encode_uri_component};

verus! {

/// An entry of a folder listing, as the server describes it.
#[derive(Clone, Debug, PartialEq)]
pub struct FileItem {
    pub name: String,
    pub path: String,
    pub is_dir: bool,
    pub size: u64,
    pub modified_at: u64,
    pub thumbnail: Option<String>,
    pub children_count: Option<usize>,
}

/// Space on the storage disk, in bytes.
#[derive(Clone, Debug, PartialEq)]
pub struct DiskUsageInfo {
    pub total_space: u64,
    pub used_space: u64,
}

/// An entry of the trash.
#[derive(Debug, Clone, PartialEq)]
pub struct TrashItem {
    pub id: String,
    pub original_path: String,
    pub original_name: String,
    pub deleted_at: String,
    pub size: u64,
    pub is_dir: bool,
}

/// What the server reports of one file, or of several together.
#[derive(Clone, PartialEq)]
pub struct FileProperties {
    pub file_type: String,
    pub path: String,
    pub contains: Option<String>,
    pub size: u64,
    pub allocated_size: u64,
    pub modified_at: u64,
    pub resolution: Option<String>,
    pub is_readable: bool,
    pub is_writable: bool,
    pub is_hidden: bool,
}

/// The digests of a file.
#[derive(Clone)]
pub struct ChecksumResponse {
    pub md5: String,
    pub sha1: String,
}

/// A request to pack files into an archive.
pub struct ZipReq {
    pub paths: Vec<String>,
    pub output_name: String,
}

/// A request for the properties of several files together.
pub struct MultiPropertiesReq {
    pub paths: Vec<String>,
}

/// The playback mode of a folder whose settings do not name one.
pub fn default_playback_mode() -> (r: String)
    ensures
        r@ == "once"@,
{
    "once".to_string()
}

/// The subtitle mode of a folder whose settings do not name one.
pub fn default_subtitle_mode() -> (r: u8)
    ensures
        r == 1,
{
    1
}

/// Whether skipping is on for a folder whose settings do not say.
pub fn default_auto_skip() -> (r: bool)
    ensures
        r,
{
    true
}

// ---------------------------------------------------------------------------
// Requests
// ---------------------------------------------------------------------------

#[derive(Clone, Copy, Debug, PartialEq, Eq, Structural)]
pub enum HttpMethod {
    Get,
    Post,
    Put,
    Delete,
}

/// A request to the server: a body, when there is one, is JSON.
#[derive(Clone, Debug)]
pub struct ApiRequest {
    pub method: HttpMethod,
    pub url: String,
    pub body: Option<String>,
}

/// `r` is the request with this method, address and body.
pub open spec fn request_is(
    r: ApiRequest,
    method: HttpMethod,
    url: Seq<char>,
    body: Option<Seq<char>>,
) -> bool {
    &&& r.method == method
    &&& r.url@ == url
    &&& opt_string_view(r.body) == body
}

fn request(method: HttpMethod, url: Vec<char>, body: Option<Vec<char>>) -> (r: ApiRequest)
    ensures
        r.method == method,
        r.url@ == url@,
        opt_string_view(r.body) == match body {
            Some(b) => Some(b@),
            None => None::<Seq<char>>,
        },
{
    let b = match body {
        Some(b) => Some(string_of(&b)),
        None => None,
    };
    ApiRequest { method, url: string_of(&url), body: b }
}

/// The address of `base` with `?path=` and the path `encodeURIComponent`-ed.
pub open spec fn path_query(base: Seq<char>, path: Seq<char>) -> Seq<char> {
    base + "?path="@ + spec_encode_uri_component(path)
}

fn path_query_chars(base: &str, path: &str) -> (r: Vec<char>)
    ensures
        r@ == path_query(base@, path@),
{
    let mut out = lit(base);
    extend_chars(&mut out, &lit("?path="));
    extend_chars(&mut out, &encode_chars(path));
    out
}

/// The listing of a folder; the path goes into the address as it is.
pub fn fetch_files_request(path: &str) -> (r: ApiRequest)
    ensures
        request_is(
            r,
            HttpMethod::Get,
            if path@.len() == 0 {
                "/api/v1/files"@
            } else {
                "/api/v1/files?path="@ + path@
            },
            None,
        ),
{
    let p = chars_of(path);
    let url = if p.len() == 0 {
        lit("/api/v1/files")
    } else {
        let mut u = lit("/api/v1/files?path=");
        extend_chars(&mut u, &p);
        u
    };
    request(HttpMethod::Get, url, None)
}

pub fn fetch_disk_usage_request() -> (r: ApiRequest)
    ensures
        request_is(r, HttpMethod::Get, "/api/v1/files/disk"@, None),
{
    request(HttpMethod::Get, lit("/api/v1/files/disk"), None)
}

pub open spec fn create_folder_body(path: Seq<char>, name: Seq<char>) -> Seq<char> {
    "{\"name\":"@ + json_quoted(name) + ",\"path\":"@ + json_quoted(path) + "}"@
}

pub fn create_folder_request(path: &str, name: &str) -> (r: ApiRequest)
    ensures
        request_is(
            r,
            HttpMethod::Post,
            "/api/v1/files/folder"@,
            Some(create_folder_body(path@, name@)),
        ),
{
    let mut b = lit("{\"name\":");
    push_json_str(&mut b, name);
    extend_chars(&mut b, &lit(",\"path\":"));
    push_json_str(&mut b, path);
    extend_chars(&mut b, &lit("}"));
    request(HttpMethod::Post, lit("/api/v1/files/folder"), Some(b))
}

/// The address a chunk of an upload is sent to; `mtime` is the file's
/// modification time in whole milliseconds, when it is known.
pub open spec fn upload_chunk_address(
    path: Seq<char>,
    name: Seq<char>,
    chunk: u64,
    total: u64,
    offset: u64,
    mtime: Option<u64>,
) -> Seq<char> {
    "/api/v1/files/upload?path="@ + spec_encode_uri_component(path) + "&name="@
        + spec_encode_uri_component(name) + "&chunk="@ + decimal(chunk as nat) + "&total="@
        + decimal(total as nat) + "&offset="@ + decimal(offset as nat) + match mtime {
        Some(t) => "&mtime="@ + decimal(t as nat),
        None => Seq::<char>::empty(),
    }
}

pub fn upload_chunk_url(
    path: &str,
    name: &str,
    chunk: u64,
    total: u64,
    offset: u64,
    mtime: Option<u64>,
) -> (r: String)
    ensures
        r@ == upload_chunk_address(path@, name@, chunk, total, offset, mtime),
{
    let mut u = lit("/api/v1/files/upload?path=");
    extend_chars(&mut u, &encode_chars(path));
    extend_chars(&mut u, &lit("&name="));
    extend_chars(&mut u, &encode_chars(name));
    extend_chars(&mut u, &lit("&chunk="));
    extend_chars(&mut u, &decimal_chars(chunk));
    extend_chars(&mut u, &lit("&total="));
    extend_chars(&mut u, &decimal_chars(total));
    extend_chars(&mut u, &lit("&offset="));
    extend_chars(&mut u, &decimal_chars(offset));
    let ghost before = u@;
    match mtime {
        Some(t) => {
            extend_chars(&mut u, &lit("&mtime="));
            extend_chars(&mut u, &decimal_chars(t));
        },
        None => {
            assert(u@ =~= before + Seq::<char>::empty());
        },
    }
    string_of(&u)
}

/// The body of a move or a copy.
pub open spec fn transfer_body(
    paths: Seq<Seq<char>>,
    dest_path: Seq<char>,
    template: Option<Seq<char>>,
    use_file_time: Option<bool>,
    overwrite: Option<Seq<Seq<char>>>,
) -> Seq<char> {
    "{\"dest_path\":"@ + json_quoted(dest_path) + ",\"overwrite_paths\":"@ + json_opt_array(
        overwrite,
    ) + ",\"paths\":"@ + json_array(paths) + ",\"smart_rename_template\":"@ + json_opt_str(
        template,
    ) + ",\"use_file_time\":"@ + json_opt_bool(use_file_time) + "}"@
}

fn transfer_body_chars(
    paths: &Vec<String>,
    dest_path: &String,
    template: &Option<String>,
    use_file_time: Option<bool>,
    overwrite: &Option<Vec<String>>,
) -> (r: Vec<char>)
    ensures
        r@ == transfer_body(
            string_views(paths@),
            dest_path@,
            opt_string_view(*template),
            use_file_time,
            opt_strings_view(*overwrite),
        ),
{
    let mut b = lit("{\"dest_path\":");
    push_json_str(&mut b, dest_path.as_str());
    extend_chars(&mut b, &lit(",\"overwrite_paths\":"));
    push_json_opt_array(&mut b, overwrite);
    extend_chars(&mut b, &lit(",\"paths\":"));
    push_json_array(&mut b, paths);
    extend_chars(&mut b, &lit(",\"smart_rename_template\":"));
    push_json_opt_str(&mut b, template);
    extend_chars(&mut b, &lit(",\"use_file_time\":"));
    push_json_opt_bool(&mut b, use_file_time);
    extend_chars(&mut b, &lit("}"));
    b
}

pub fn move_files_request(
    paths: Vec<String>,
    dest_path: String,
    smart_rename_template: Option<String>,
    use_file_time: Option<bool>,
    overwrite_paths: Option<Vec<String>>,
) -> (r: ApiRequest)
    ensures
        request_is(
            r,
            HttpMethod::Put,
            "/api/v1/files/move"@,
            Some(
                transfer_body(
                    string_views(paths@),
                    dest_path@,
                    opt_string_view(smart_rename_template),
                    use_file_time,
                    opt_strings_view(overwrite_paths),
                ),
            ),
        ),
{
    let b = transfer_body_chars(
        &paths,
        &dest_path,
        &smart_rename_template,
        use_file_time,
        &overwrite_paths,
    );
    request(HttpMethod::Put, lit("/api/v1/files/move"), Some(b))
}

pub fn copy_files_request(
    paths: Vec<String>,
    dest_path: String,
    smart_rename_template: Option<String>,
    use_file_time: Option<bool>,
    overwrite_paths: Option<Vec<String>>,
) -> (r: ApiRequest)
    ensures
        request_is(
            r,
            HttpMethod::Post,
            "/api/v1/files/copy"@,
            Some(
                transfer_body(
                    string_views(paths@),
                    dest_path@,
                    opt_string_view(smart_rename_template),
                    use_file_time,
                    opt_strings_view(overwrite_paths),
                ),
            ),
        ),
{
    let b = transfer_body_chars(
        &paths,
        &dest_path,
        &smart_rename_template,
        use_file_time,
        &overwrite_paths,
    );
    request(HttpMethod::Post, lit("/api/v1/files/copy"), Some(b))
}

pub open spec fn delete_body(paths: Seq<Seq<char>>, permanent: bool) -> Seq<char> {
    "{\"paths\":"@ + json_array(paths) + ",\"permanent\":"@ + json_bool(permanent) + "}"@
}

pub fn delete_files_request(paths: Vec<String>, permanent: bool) -> (r: ApiRequest)
    ensures
        request_is(
            r,
            HttpMethod::Delete,
            "/api/v1/files"@,
            Some(delete_body(string_views(paths@), permanent)),
        ),
{
    let mut b = lit("{\"paths\":");
    push_json_array(&mut b, &paths);
    extend_chars(&mut b, &lit(",\"permanent\":"));
    push_json_bool(&mut b, permanent);
    extend_chars(&mut b, &lit("}"));
    request(HttpMethod::Delete, lit("/api/v1/files"), Some(b))
}

pub fn get_trash_request() -> (r: ApiRequest)
    ensures
        request_is(r, HttpMethod::Get, "/api/v1/files/trash"@, None),
{
    request(HttpMethod::Get, lit("/api/v1/files/trash"), None)
}

pub fn restore_trash_request(id: String) -> (r: ApiRequest)
    ensures
        request_is(
            r,
            HttpMethod::Post,
            "/api/v1/files/trash/restore"@,
            Some("{\"id\":"@ + json_quoted(id@) + "}"@),
        ),
{
    let mut b = lit("{\"id\":");
    push_json_str(&mut b, id.as_str());
    extend_chars(&mut b, &lit("}"));
    request(HttpMethod::Post, lit("/api/v1/files/trash/restore"), Some(b))
}

pub fn empty_trash_request(ids: Option<Vec<String>>) -> (r: ApiRequest)
    ensures
        request_is(
            r,
            HttpMethod::Delete,
            "/api/v1/files/trash"@,
            Some("{\"ids\":"@ + json_opt_array(opt_strings_view(ids)) + "}"@),
        ),
{
    let mut b = lit("{\"ids\":");
    push_json_opt_array(&mut b, &ids);
    extend_chars(&mut b, &lit("}"));
    request(HttpMethod::Delete, lit("/api/v1/files/trash"), Some(b))
}

pub open spec fn rename_body(old_path: Seq<char>, new_name: Seq<char>) -> Seq<char> {
    "{\"new_name\":"@ + json_quoted(new_name) + ",\"old_path\":"@ + json_quoted(old_path)
        + "}"@
}

pub fn rename_file_request(old_path: String, new_name: String) -> (r: ApiRequest)
    ensures
        request_is(
            r,
            HttpMethod::Put,
            "/api/v1/files/rename"@,
            Some(rename_body(old_path@, new_name@)),
        ),
{
    let mut b = lit("{\"new_name\":");
    push_json_str(&mut b, new_name.as_str());
    extend_chars(&mut b, &lit(",\"old_path\":"));
    push_json_str(&mut b, old_path.as_str());
    extend_chars(&mut b, &lit("}"));
    request(HttpMethod::Put, lit("/api/v1/files/rename"), Some(b))
}

pub fn get_file_properties_request(path: &str) -> (r: ApiRequest)
    ensures
        request_is(r, HttpMethod::Get, path_query("/api/v1/files/properties"@, path@), None),
{
    request(HttpMethod::Get, path_query_chars("/api/v1/files/properties", path), None)
}

pub fn get_file_checksum_request(path: &str) -> (r: ApiRequest)
    ensures
        request_is(r, HttpMethod::Get, path_query("/api/v1/files/checksum"@, path@), None),
{
    request(HttpMethod::Get, path_query_chars("/api/v1/files/checksum", path), None)
}

impl ZipReq {
    /// The fields in their order of declaration.
    pub open spec fn json(&self) -> Seq<char> {
        "{\"paths\":"@ + json_array(string_views(self.paths@)) + ",\"output_name\":"@
            + json_quoted(self.output_name@) + "}"@
    }

    pub fn to_json(&self) -> (r: String)
        ensures
            r@ == self.json(),
    {
        let mut b = lit("{\"paths\":");
        push_json_array(&mut b, &self.paths);
        extend_chars(&mut b, &lit(",\"output_name\":"));
        push_json_str(&mut b, self.output_name.as_str());
        extend_chars(&mut b, &lit("}"));
        string_of(&b)
    }
}

impl MultiPropertiesReq {
    pub open spec fn json(&self) -> Seq<char> {
        "{\"paths\":"@ + json_array(string_views(self.paths@)) + "}"@
    }

    pub fn to_json(&self) -> (r: String)
        ensures
            r@ == self.json(),
    {
        let mut b = lit("{\"paths\":");
        push_json_array(&mut b, &self.paths);
        extend_chars(&mut b, &lit("}"));
        string_of(&b)
    }
}

pub fn zip_files_request(paths: Vec<String>, output_name: String) -> (r: ApiRequest)
    ensures
        request_is(
            r,
            HttpMethod::Post,
            "/api/v1/files/zip"@,
            Some(ZipReq { paths, output_name }.json()),
        ),
{
    let req = ZipReq { paths, output_name };
    let b = req.to_json();
    ApiRequest { method: HttpMethod::Post, url: "/api/v1/files/zip".to_string(), body: Some(b) }
}

pub fn get_multi_file_properties_request(paths: Vec<String>) -> (r: ApiRequest)
    ensures
        request_is(
            r,
            HttpMethod::Post,
            "/api/v1/files/properties_multi"@,
            Some(MultiPropertiesReq { paths }.json()),
        ),
{
    let req = MultiPropertiesReq { paths };
    let b = req.to_json();
    ApiRequest {
        method: HttpMethod::Post,
        url: "/api/v1/files/properties_multi".to_string(),
        body: Some(b),
    }
}

pub fn read_text_file_request(path: &str) -> (r: ApiRequest)
    ensures
        request_is(r, HttpMethod::Get, path_query("/api/v1/files/text"@, path@), None),
{
    request(HttpMethod::Get, path_query_chars("/api/v1/files/text", path), None)
}

pub open spec fn write_text_body(path: Seq<char>, content: Seq<char>) -> Seq<char> {
    "{\"path\":"@ + json_quoted(path) + ",\"content\":"@ + json_quoted(content) + "}"@
}

pub fn write_text_file_request(path: &str, content: &str) -> (r: ApiRequest)
    ensures
        request_is(
            r,
            HttpMethod::Post,
            "/api/v1/files/text"@,
            Some(write_text_body(path@, content@)),
        ),
{
    let mut b = lit("{\"path\":");
    push_json_str(&mut b, path);
    extend_chars(&mut b, &lit(",\"content\":"));
    push_json_str(&mut b, content);
    extend_chars(&mut b, &lit("}"));
    request(HttpMethod::Post, lit("/api/v1/files/text"), Some(b))
}

pub fn regen_single_thumbnail_request(path: &str) -> (r: ApiRequest)
    ensures
        request_is(
            r,
            HttpMethod::Post,
            "/api/v1/files/regen-single-thumbnail"@,
            Some("{\"path\":"@ + json_quoted(path@) + "}"@),
        ),
{
    let mut b = lit("{\"path\":");
    push_json_str(&mut b, path);
    extend_chars(&mut b, &lit("}"));
    request(HttpMethod::Post, lit("/api/v1/files/regen-single-thumbnail"), Some(b))
}

pub fn fetch_folder_settings_request(path: &str) -> (r: ApiRequest)
    ensures
        request_is(r, HttpMethod::Get, path_query("/api/v1/files/settings"@, path@), None),
{
    request(HttpMethod::Get, path_query_chars("/api/v1/files/settings", path), None)
}

/// The error a failed request reports: what was being done, and the status.
pub open spec fn status_error(context: Seq<char>, status: u16) -> Seq<char> {
    context + ": "@ + decimal(status as nat)
}

pub fn status_error_text(context: &str, status: u16) -> (r: String)
    ensures
        r@ == status_error(context@, status),
{
    let mut out = lit(context);
    extend_chars(&mut out, &lit(": "));
    extend_chars(&mut out, &decimal_chars(status as u64));
    string_of(&out)
}

} // verus!
