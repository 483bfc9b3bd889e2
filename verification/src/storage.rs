//! The decisions of the PDF file store: where files live, what they are
//! called, how storage requests are addressed and authorised, how storage
//! answers are read, and which old local files are removed.

use vstd::prelude::*;
use vstd::string::StringExecFns;
use crate::error::AppError;
use crate::strings::{
    chars_of, str_equals,
    ascii_lowercase, concat, contains_seq, is_trim_end_of, is_trim_of, lowercase_contains, trim,
    trim_end_char,
};

verus! {

/// A lower-case hexadecimal digit.
pub open spec fn hex_lower(d: nat) -> char {
    if d < 10 {
        (48 + d) as char
    } else {
        (87 + d) as char
    }
}

/// The last `n` hexadecimal digits of `v`, most significant first.
pub open spec fn hex_digits(v: nat, n: nat) -> Seq<char>
    decreases n,
{
    if n == 0 {
        seq![]
    } else {
        hex_digits(v / 16, (n - 1) as nat).push(hex_lower(v % 16))
    }
}

/// The hyphenated lower-case text of the UUID whose 128-bit big-endian
/// value is `id`: 32 hexadecimal digits grouped 8-4-4-4-12.
pub open spec fn uuid_text(id: u128) -> Seq<char> {
    let d = hex_digits(id as nat, 32);
    d.subrange(0, 8) + seq!['-'] + d.subrange(8, 12) + seq!['-'] + d.subrange(12, 16) + seq!['-']
        + d.subrange(16, 20) + seq!['-'] + d.subrange(20, 32)
}

/// Formats `uuid::Uuid::from_u128(id)` with its `Display` impl. Claimed, as
/// the crate documents and implements it: the hyphenated lower-case form of
/// the big-endian value.
#[verifier::external_body]
fn uuid_string(id: u128) -> (s: String)
    ensures
        s@ == uuid_text(id),
{
    uuid::Uuid::from_u128(id).to_string()
}

proof fn lemma_hex_digits_len(v: nat, n: nat)
    ensures
        hex_digits(v, n).len() == n,
    decreases n,
{
    if n > 0 {
        lemma_hex_digits_len(v / 16, (n - 1) as nat);
    }
}

/// A file's stored name is 40 characters long: 36 for the UUID and 4 for
/// `.pdf`, with hyphens after the 8th, 12th, 16th and 20th digit.
pub proof fn lemma_object_name_shape(id: u128)
    ensures
        uuid_text(id).len() == 36,
        object_name_text(id).len() == 40,
        uuid_text(id)[8] == '-' && uuid_text(id)[13] == '-' && uuid_text(id)[18] == '-'
            && uuid_text(id)[23] == '-',
{
    lemma_hex_digits_len(id as nat, 32);
    reveal_strlit(".pdf");
}

/// The name under which a file is stored: `{id}.pdf`.
pub open spec fn object_name_text(id: u128) -> Seq<char> {
    uuid_text(id) + ".pdf"@
}

/// The name under which the file `file_id` is stored, locally and in the
/// storage bucket: the hyphenated UUID followed by `.pdf`.
pub fn supabase_object_name(file_id: u128) -> (name: String)
    ensures
        name@ == object_name_text(file_id),
{
    let id = uuid_string(file_id);
    concat(id.as_str(), ".pdf")
}

/// The text of the error for a file that does not exist.
pub open spec fn not_found_text(id: u128) -> Seq<char> {
    "No existe fileId="@ + uuid_text(id)
}

/// The error answered for a file that does not exist.
pub fn file_not_found(file_id: u128) -> (e: AppError)
    ensures
        e == AppError::NotFound(e->NotFound_0),
        e.text() == not_found_text(file_id),
{
    let id = uuid_string(file_id);
    AppError::NotFound(concat("No existe fileId=", id.as_str()))
}

/// The storage service's object URL of a file:
/// `{url without trailing slashes}/storage/v1/object/{bucket}/{id}.pdf`.
pub open spec fn object_endpoint_text(base: Seq<char>, bucket: Seq<char>, id: u128) -> Seq<char> {
    base + "/storage/v1/object/"@ + bucket + "/"@ + object_name_text(id)
}

/// The object URL of the file `file_id` in `bucket` of the storage service
/// at `url`, whose trailing slashes are dropped.
pub fn supabase_object_endpoint(url: &str, bucket: &str, file_id: u128) -> (endpoint: String)
    ensures
        exists|base: Seq<char>|
            is_trim_end_of(url@, '/', base) && endpoint@ == object_endpoint_text(
                base,
                bucket@,
                file_id,
            ),
{
    let base = trim_end_char(url, '/');
    let name = supabase_object_name(file_id);
    let mut endpoint = base.to_owned();
    endpoint.append("/storage/v1/object/");
    endpoint.append(bucket);
    endpoint.append("/");
    endpoint.append(name.as_str());
    proof {
        assert(endpoint@ =~= object_endpoint_text(base@, bucket@, file_id));
    }
    endpoint
}

/// The `Authorization` header value for a service key: `Bearer {key}`.
pub fn bearer_authorization(service_role_key: &str) -> (value: String)
    ensures
        value@ == "Bearer "@ + service_role_key@,
{
    concat("Bearer ", service_role_key)
}

/// Whether an HTTP status is a success (200 to 299).
pub open spec fn is_success(status: u16) -> bool {
    200 <= status <= 299
}

/// The error for a failed upload: the status (its code and reason, as the
/// HTTP client prints it) and the service's answer.
pub fn upload_failure(status_text: &str, details: &str) -> (e: AppError)
    ensures
        e == AppError::Internal(e->Internal_0),
        e.text() == "No se pudo subir a Supabase Storage: "@ + status_text@ + " "@ + details@,
{
    let mut m = concat("No se pudo subir a Supabase Storage: ", status_text);
    m.append(" ");
    m.append(details);
    AppError::Internal(m)
}

/// The outcome of an upload whose answer has the given status; the
/// service's answer text is read only when the upload failed.
pub fn upload_outcome(status: u16, status_text: &str, details: &str) -> (r: Result<(), AppError>)
    ensures
        r is Ok <==> is_success(status),
        r matches Err(e) ==> e is Internal && e.text() == "No se pudo subir a Supabase Storage: "@
            + status_text@ + " "@ + details@,
{
    if 200 <= status && status <= 299 {
        Ok(())
    } else {
        Err(upload_failure(status_text, details))
    }
}

/// What to do with the status of a download answer.
#[derive(Debug, Clone, Copy, PartialEq, Eq)]
pub enum DownloadStatus {
    /// The file came: read its bytes.
    Found,
    /// The storage service has no such file.
    Missing,
    /// The download failed: read the service's answer to tell why.
    Failed,
}

/// The step that a download's status calls for: 404 means no such file; a
/// success status means the bytes came; anything else is a failure.
pub fn download_status(status: u16) -> (d: DownloadStatus)
    ensures
        d is Missing <==> status == 404,
        d is Found <==> is_success(status),
        d is Failed <==> status != 404 && !is_success(status),
{
    if status == 404 {
        DownloadStatus::Missing
    } else if 200 <= status && status <= 299 {
        DownloadStatus::Found
    } else {
        DownloadStatus::Failed
    }
}

/// Whether a failed download's answer says that the file was not found: a
/// 400 answer whose text contains `not found` in any ASCII case.
pub open spec fn says_not_found(status: u16, details: Seq<char>) -> bool {
    status == 400 && contains_seq(ascii_lowercase(details), "not found"@)
}

/// The error for a failed download (a status other than 404 and the
/// success statuses): a 400 answer saying `not found` means the file does
/// not exist; anything else is a failure of the storage service.
pub fn download_failure(file_id: u128, status: u16, status_text: &str, details: &str) -> (e: AppError)
    ensures
        says_not_found(status, details@) ==> e is NotFound && e.text() == not_found_text(file_id),
        !says_not_found(status, details@) ==> e is Internal && e.text()
            == "No se pudo descargar desde Supabase Storage: "@ + status_text@ + " "@ + details@,
{
    let not_found = "not found";
    proof {
        reveal_strlit("not found");
    }
    if status == 400 && lowercase_contains(details, not_found) {
        file_not_found(file_id)
    } else {
        let mut m = concat("No se pudo descargar desde Supabase Storage: ", status_text);
        m.append(" ");
        m.append(details);
        AppError::Internal(m)
    }
}

/// Where files are stored.
#[derive(Debug, Clone, PartialEq, Eq)]
pub enum StorageConfig {
    /// Files in a local directory.
    Local { root: String },
    /// Files in a bucket of a Supabase storage service.
    Supabase { url: String, service_role_key: String, bucket: String },
}

/// The bucket used when none is configured.
pub open spec fn default_bucket() -> Seq<char> {
    "pdf-files"@
}

/// The configured value with surrounding whitespace removed, if set.
fn trimmed(v: Option<&str>) -> (r: Option<String>)
    ensures
        r is Some <==> v is Some,
        r matches Some(t) ==> is_trim_of(v->0@, t@),
{
    match v {
        Some(s) => Some(trim(s).to_owned()),
        None => None,
    }
}

/// The local directory used when none is configured.
pub open spec fn default_files_root() -> Seq<char> {
    "files"@
}

/// The local directory for files when the storage service is not
/// configured: the configured `FILES_ROOT` trimmed of surrounding
/// whitespace, or `files` when it is unset or blank.
pub fn files_root(configured: Option<&str>) -> (r: String)
    ensures
        (exists|t: Seq<char>|
            configured is Some && is_trim_of(configured->0@, t) && t.len() > 0 && r@ == t) || (r@
            == default_files_root() && forall|t: Seq<char>|
            configured is Some && is_trim_of(configured->0@, t) ==> t.len() == 0),
{
    proof {
        crate::strings::lemma_trim_unique_all();
    }
    match trimmed(configured) {
        Some(t) => {
            if t.as_str().is_empty() {
                "files".to_owned()
            } else {
                t
            }
        },
        None => "files".to_owned(),
    }
}

/// Chooses where files are stored from the configured storage service URL,
/// service key and bucket (each trimmed of surrounding whitespace): the
/// storage service when both its URL and key are set and not blank, with the
/// bucket as configured or `pdf-files` when it is unset or blank; otherwise
/// the local directory `root`.
pub fn storage_config(
    url: Option<&str>,
    service_role_key: Option<&str>,
    bucket: Option<&str>,
    root: String,
) -> (c: StorageConfig)
    ensures
        match c {
            StorageConfig::Supabase { url: u, service_role_key: k, bucket: b } => {
                &&& url is Some && is_trim_of(url->0@, u@) && u@.len() > 0
                &&& service_role_key is Some && is_trim_of(service_role_key->0@, k@) && k@.len()
                    > 0
                &&& (exists|t: Seq<char>|
                    bucket is Some && is_trim_of(bucket->0@, t) && t.len() > 0 && b@ == t) || (
                b@ == default_bucket() && forall|t: Seq<char>|
                    bucket is Some && is_trim_of(bucket->0@, t) ==> t.len() == 0)
            },
            StorageConfig::Local { root: r } => {
                &&& r == root
                &&& !(exists|u: Seq<char>, k: Seq<char>|
                    url is Some && service_role_key is Some && is_trim_of(url->0@, u)
                        && is_trim_of(service_role_key->0@, k) && u.len() > 0 && k.len() > 0)
            },
        },
{
    let url_t = trimmed(url);
    let key_t = trimmed(service_role_key);
    let bucket_t = trimmed(bucket);
    let bucket_name = match bucket_t {
        Some(b) => {
            if b.as_str().is_empty() {
                "pdf-files".to_owned()
            } else {
                b
            }
        },
        None => "pdf-files".to_owned(),
    };
    proof {
        crate::strings::lemma_trim_unique_all();
    }
    match (url_t, key_t) {
        (Some(u), Some(k)) => {
            if !u.as_str().is_empty() && !k.as_str().is_empty() {
                return StorageConfig::Supabase { url: u, service_role_key: k, bucket: bucket_name };
            }
        },
        _ => {},
    }
    StorageConfig::Local { root }
}

/// `p` is the position of the last `.` in `name`.
pub open spec fn last_dot_at(name: Seq<char>, p: int) -> bool {
    &&& 0 <= p < name.len()
    &&& name[p] == '.'
    &&& forall|q: int| p < q < name.len() ==> name[q] != '.'
}

/// Whether a file name's extension, as `Path::extension` takes it, is
/// `pdf`: the text after the last `.`, where a name with no `.`, a name
/// whose only `.` is its first character, and the name `..` have none.
pub open spec fn has_pdf_extension_spec(name: Seq<char>) -> bool {
    &&& name != ".."@
    &&& exists|p: int| last_dot_at(name, p) && p > 0 && name.subrange(p + 1, name.len() as int) == "pdf"@
}

/// Whether the file name has the extension `pdf`.
pub fn has_pdf_extension(file_name: &str) -> (b: bool)
    ensures
        b == has_pdf_extension_spec(file_name@),
{
    let name = chars_of(file_name);
    let n = name.len();
    proof {
        reveal_strlit("..");
        reveal_strlit("pdf");
    }
    if n == 2 && name[0] == '.' && name[1] == '.' {
        proof {
            assert(file_name@ =~= ".."@);
        }
        return false;
    }
    let mut i: usize = n;
    while i > 0
        invariant
            name@ == file_name@,
            n == name@.len(),
            i <= n,
            forall|q: int| i <= q < n ==> name@[q] != '.',
        ensures
            i <= n,
            forall|q: int| i <= q < n ==> name@[q] != '.',
            i == 0 || name@[i - 1] == '.',
        decreases i,
    {
        if name[i - 1] == '.' {
            break;
        }
        i = i - 1;
    }
    if i <= 1 {
        proof {
            assert forall|p: int| !(last_dot_at(file_name@, p) && p > 0) by {}
        }
        return false;
    }
    let p = i - 1;
    let ok = n - p == 4 && name[p + 1] == 'p' && name[p + 2] == 'd' && name[p + 3] == 'f';
    proof {
        assert(last_dot_at(file_name@, p as int));
        assert forall|p2: int| last_dot_at(file_name@, p2) implies p2 == p by {
            if p2 < p {
                assert(file_name@[p as int] == '.');
            }
            if p2 > p {
                assert(name@[p as int] == '.');
            }
        }
        assert(file_name@ != ".."@) by {
            if file_name@ == ".."@ {
                assert(".."@.len() == 2);
                assert(".."@[0] == '.' && ".."@[1] == '.');
            }
        }
        if ok {
            assert(file_name@.subrange(p + 1, n as int) =~= "pdf"@);
            assert(last_dot_at(file_name@, p as int) && p > 0 && file_name@.subrange(
                p + 1,
                file_name@.len() as int,
            ) == "pdf"@);
        } else {
            assert(!has_pdf_extension_spec(file_name@)) by {
                if has_pdf_extension_spec(file_name@) {
                    let p2 = choose|p2: int|
                        last_dot_at(file_name@, p2) && p2 > 0 && file_name@.subrange(
                            p2 + 1,
                            file_name@.len() as int,
                        ) == "pdf"@;
                    assert(p2 == p);
                    let sub = file_name@.subrange(p + 1, n as int);
                    assert("pdf"@.len() == 3);
                    assert(sub.len() == 3);
                    assert("pdf"@[0] == 'p' && "pdf"@[1] == 'd' && "pdf"@[2] == 'f');
                    assert(name@[p + 1] == sub[0]);
                    assert(name@[p + 2] == sub[1]);
                    assert(name@[p + 3] == sub[2]);
                }
            }
        }
    }
    ok
}

/// A span of time, as `std::time::Duration` holds it.
#[derive(Debug, Clone, Copy, PartialEq, Eq)]
pub struct AgeSpan {
    pub secs: u64,
    pub nanos: u32,
}

/// Whether one span is longer than another, comparing seconds, then
/// nanoseconds, as `Duration` orders them.
pub open spec fn longer(a: AgeSpan, b: AgeSpan) -> bool {
    a.secs > b.secs || (a.secs == b.secs && a.nanos > b.nanos)
}

/// Whether a local file is to be removed by the clean-up: a `.pdf` file
/// older than the maximum age.
pub fn should_remove_file(file_name: &str, age: &AgeSpan, max_age: &AgeSpan) -> (b: bool)
    ensures
        b == (has_pdf_extension_spec(file_name@) && longer(*age, *max_age)),
{
    if !has_pdf_extension(file_name) {
        return false;
    }
    age.secs > max_age.secs || (age.secs == max_age.secs && age.nanos > max_age.nanos)
}

/// The largest PDF accepted by an upload: 25 MiB.
pub const MAX_UPLOAD_BYTES: usize = 26214400;

/// Whether a multipart field is the uploaded file: the field named `file`.
pub fn is_upload_file_field(field_name: &str) -> (b: bool)
    ensures
        b == (field_name@ == "file"@),
{
    str_equals(field_name, "file")
}

/// The PDF header that every uploaded file must start with: `%PDF`.
pub open spec fn pdf_magic() -> Seq<u8> {
    seq![37u8, 80u8, 68u8, 70u8]
}

/// The upload was rejected as a bad request with the given text.
pub open spec fn rejected(r: Result<Vec<u8>, AppError>, text: Seq<char>) -> bool {
    r is Err && r->Err_0 is BadRequest && r->Err_0.text() == text
}

/// Checks an uploaded file: a file must have been sent, must start with
/// `%PDF`, and must be at most 25 MiB; the checks fail in this order.
pub fn validate_upload(pdf_bytes: Option<Vec<u8>>) -> (r: Result<Vec<u8>, AppError>)
    ensures
        pdf_bytes is None ==> rejected(r, "Debe enviar un campo multipart llamado 'file'"@),
        pdf_bytes matches Some(b) ==> {
            let starts = b@.len() >= 4 && b@.subrange(0, 4) == pdf_magic();
            &&& !starts ==> rejected(r, "El archivo no parece ser un PDF valido"@)
            &&& starts && b@.len() > MAX_UPLOAD_BYTES ==> rejected(
                r,
                "El PDF supera el limite permitido de 25 MB"@,
            )
            &&& starts && b@.len() <= MAX_UPLOAD_BYTES ==> r == Ok::<Vec<u8>, AppError>(b)
        },
{
    let bytes = match pdf_bytes {
        Some(b) => b,
        None => {
            return Err(AppError::BadRequest("Debe enviar un campo multipart llamado 'file'".to_owned()));
        },
    };
    let starts = bytes.len() >= 4 && bytes[0] == 37u8 && bytes[1] == 80u8 && bytes[2] == 68u8
        && bytes[3] == 70u8;
    proof {
        if bytes@.len() >= 4 {
            if starts {
                assert(bytes@.subrange(0, 4) =~= pdf_magic());
            } else if bytes@.subrange(0, 4) == pdf_magic() {
                assert(bytes@.subrange(0, 4)[0] == bytes@[0]);
                assert(bytes@.subrange(0, 4)[1] == bytes@[1]);
                assert(bytes@.subrange(0, 4)[2] == bytes@[2]);
                assert(bytes@.subrange(0, 4)[3] == bytes@[3]);
            }
        }
    }
    if !starts {
        return Err(AppError::BadRequest("El archivo no parece ser un PDF valido".to_owned()));
    }
    if bytes.len() > MAX_UPLOAD_BYTES {
        return Err(AppError::BadRequest("El PDF supera el limite permitido de 25 MB".to_owned()));
    }
    Ok(bytes)
}

/// The `Content-Disposition` of a download:
/// `attachment; filename="{id}.pdf"`.
pub fn content_disposition(file_id: u128) -> (value: String)
    ensures
        value@ == "attachment; filename=\""@ + object_name_text(file_id) + "\""@,
{
    let name = supabase_object_name(file_id);
    let mut value = concat("attachment; filename=\"", name.as_str());
    value.append("\"");
    value
}

} // verus!
