use pdf_editor_backend::error::AppError;
use pdf_editor_backend::strings::lowercase_contains;
use pdf_editor_backend::storage::{
    bearer_authorization, content_disposition, download_failure, download_status, file_not_found,
    files_root,
    has_pdf_extension, is_upload_file_field, should_remove_file, storage_config,
    supabase_object_endpoint, supabase_object_name, upload_failure, upload_outcome, validate_upload,
    AgeSpan, DownloadStatus, StorageConfig, MAX_UPLOAD_BYTES,
};

const ID: u128 = 0x67e5504410b1426f9247bb680e5fe0c8;

#[test]
fn object_names_are_hyphenated_lower_case_uuids() {
    assert_eq!(supabase_object_name(ID), "67e55044-10b1-426f-9247-bb680e5fe0c8.pdf");
    assert_eq!(supabase_object_name(0), "00000000-0000-0000-0000-000000000000.pdf");
    assert_eq!(supabase_object_name(u128::MAX).len(), 40);
}

#[test]
fn object_names_match_the_uuid_crate() {
    let id = uuid::Uuid::from_u128(0x0123456789abcdef0011223344556677);
    assert_eq!(supabase_object_name(id.as_u128()), format!("{id}.pdf"));
}

#[test]
fn endpoints_drop_trailing_slashes_of_the_url() {
    assert_eq!(
        supabase_object_endpoint("https://x.supabase.co//", "pdf-files", ID),
        "https://x.supabase.co/storage/v1/object/pdf-files/67e55044-10b1-426f-9247-bb680e5fe0c8.pdf"
    );
    assert_eq!(
        supabase_object_endpoint("https://x.supabase.co", "b", 0),
        "https://x.supabase.co/storage/v1/object/b/00000000-0000-0000-0000-000000000000.pdf"
    );
}

#[test]
fn bearer_header_prefixes_the_key() {
    assert_eq!(bearer_authorization("SECRET-REDACTED"), "Bearer SECRET-REDACTED");
}

#[test]
fn uploads_succeed_on_success_statuses_only() {
    assert_eq!(upload_outcome(200, "200 OK", ""), Ok(()));
    assert_eq!(upload_outcome(299, "299 <unknown status code>", ""), Ok(()));
    assert_eq!(
        upload_outcome(403, "403 Forbidden", "denied"),
        Err(AppError::Internal(
            "No se pudo subir a Supabase Storage: 403 Forbidden denied".to_string()
        ))
    );
    assert_eq!(
        upload_failure("500 Internal Server Error", ""),
        AppError::Internal(
            "No se pudo subir a Supabase Storage: 500 Internal Server Error ".to_string()
        )
    );
}

#[test]
fn download_statuses_are_classified() {
    assert_eq!(download_status(404), DownloadStatus::Missing);
    assert_eq!(download_status(200), DownloadStatus::Found);
    assert_eq!(download_status(206), DownloadStatus::Found);
    assert_eq!(download_status(400), DownloadStatus::Failed);
    assert_eq!(download_status(500), DownloadStatus::Failed);
    assert_eq!(download_status(302), DownloadStatus::Failed);
}

#[test]
fn a_bad_request_saying_not_found_means_no_such_file() {
    let expected = AppError::NotFound("No existe fileId=67e55044-10b1-426f-9247-bb680e5fe0c8".to_string());
    assert_eq!(download_failure(ID, 400, "400 Bad Request", "{\"error\":\"Object NOT Found\"}"), expected);
    assert_eq!(download_failure(ID, 400, "400 Bad Request", "not found"), expected);
    assert_eq!(file_not_found(ID), expected);
}

#[test]
fn other_download_failures_are_internal() {
    assert_eq!(
        download_failure(ID, 400, "400 Bad Request", "not fond"),
        AppError::Internal("No se pudo descargar desde Supabase Storage: 400 Bad Request not fond".to_string())
    );
    assert_eq!(
        download_failure(ID, 500, "500 Internal Server Error", "not found"),
        AppError::Internal(
            "No se pudo descargar desde Supabase Storage: 500 Internal Server Error not found".to_string()
        )
    );
}

#[test]
fn storage_service_is_chosen_when_url_and_key_are_set() {
    assert_eq!(
        storage_config(Some(" https://x.co \n"), Some("\tkey "), Some(" docs "), "files".to_string()),
        StorageConfig::Supabase {
            url: "https://x.co".to_string(),
            service_role_key: "key".to_string(),
            bucket: "docs".to_string()
        }
    );
}

#[test]
fn bucket_defaults_when_unset_or_blank() {
    let expected = StorageConfig::Supabase {
        url: "u".to_string(),
        service_role_key: "k".to_string(),
        bucket: "pdf-files".to_string(),
    };
    assert_eq!(storage_config(Some("u"), Some("k"), None, "files".to_string()), expected);
    assert_eq!(storage_config(Some("u"), Some("k"), Some(" \u{3000} "), "files".to_string()), expected);
}

#[test]
fn local_storage_is_chosen_otherwise() {
    let local = StorageConfig::Local { root: "files".to_string() };
    assert_eq!(storage_config(None, Some("k"), None, "files".to_string()), local);
    assert_eq!(storage_config(Some("u"), None, None, "files".to_string()), local);
    assert_eq!(storage_config(Some("  "), Some("k"), None, "files".to_string()), local);
    assert_eq!(storage_config(Some("u"), Some("\u{2003}"), Some("b"), "files".to_string()), local);
}

#[test]
fn pdf_extension_follows_path_rules() {
    assert!(has_pdf_extension("a.pdf"));
    assert!(has_pdf_extension("x.tar.pdf"));
    assert!(has_pdf_extension("..pdf"));
    assert!(!has_pdf_extension(".pdf"));
    assert!(!has_pdf_extension("a.PDF"));
    assert!(!has_pdf_extension("pdf"));
    assert!(!has_pdf_extension("a.pdf.bak"));
    assert!(!has_pdf_extension(".."));
    assert!(!has_pdf_extension(""));
    for name in ["a.pdf", ".pdf", "..pdf", "a.b.pdf", "pdf", "a.pdfx", "x."] {
        let std_answer = std::path::Path::new(name).extension().and_then(|e| e.to_str()) == Some("pdf");
        assert_eq!(has_pdf_extension(name), std_answer, "{name}");
    }
}

#[test]
fn only_old_pdf_files_are_removed() {
    let week = AgeSpan { secs: 604800, nanos: 0 };
    assert!(should_remove_file("a.pdf", &AgeSpan { secs: 604800, nanos: 1 }, &week));
    assert!(!should_remove_file("a.pdf", &AgeSpan { secs: 604800, nanos: 0 }, &week));
    assert!(!should_remove_file("a.pdf", &AgeSpan { secs: 10, nanos: 999_999_999 }, &week));
    assert!(!should_remove_file("a.txt", &AgeSpan { secs: 9_999_999, nanos: 0 }, &week));
    assert!(should_remove_file("a.pdf", &AgeSpan { secs: 604801, nanos: 0 }, &week));
}

#[test]
fn only_the_field_named_file_is_the_upload() {
    assert!(is_upload_file_field("file"));
    assert!(!is_upload_file_field("File"));
    assert!(!is_upload_file_field("file2"));
    assert!(!is_upload_file_field(""));
}

#[test]
fn uploads_are_validated_in_order() {
    assert_eq!(
        validate_upload(None),
        Err(AppError::BadRequest("Debe enviar un campo multipart llamado 'file'".to_string()))
    );
    assert_eq!(
        validate_upload(Some(b"%PD".to_vec())),
        Err(AppError::BadRequest("El archivo no parece ser un PDF valido".to_string()))
    );
    assert_eq!(
        validate_upload(Some(b"PDF-1.4".to_vec())),
        Err(AppError::BadRequest("El archivo no parece ser un PDF valido".to_string()))
    );
    let mut big = b"%PDF".to_vec();
    big.resize(MAX_UPLOAD_BYTES + 1, 0);
    assert_eq!(
        validate_upload(Some(big)),
        Err(AppError::BadRequest("El PDF supera el limite permitido de 25 MB".to_string()))
    );
    let mut max = b"%PDF".to_vec();
    max.resize(MAX_UPLOAD_BYTES, 0);
    assert_eq!(validate_upload(Some(max.clone())), Ok(max));
    assert_eq!(validate_upload(Some(b"%PDF".to_vec())), Ok(b"%PDF".to_vec()));
}

#[test]
fn upload_limit_is_25_mebibytes() {
    assert_eq!(MAX_UPLOAD_BYTES, 25 * 1024 * 1024);
}

#[test]
fn downloads_are_named_as_attachments() {
    assert_eq!(
        content_disposition(ID),
        "attachment; filename=\"67e55044-10b1-426f-9247-bb680e5fe0c8.pdf\""
    );
}

#[test]
fn errors_carry_their_message() {
    assert_eq!(AppError::Internal("x".to_string()).message(), "x");
    assert_eq!(file_not_found(0).message(), "No existe fileId=00000000-0000-0000-0000-000000000000");
}

#[test]
fn files_root_is_the_configured_directory() {
    assert_eq!(files_root(Some("/var/data/files")), "/var/data/files");
    assert_eq!(files_root(Some("  /srv/pdf \n")), "/srv/pdf");
}

#[test]
fn files_root_defaults_to_files() {
    assert_eq!(files_root(None), "files");
    assert_eq!(files_root(Some("")), "files");
    assert_eq!(files_root(Some(" \t ")), "files");
}

#[test]
fn lowercase_search_folds_only_the_text() {
    assert!(lowercase_contains("Object NOT Found", "not found"));
    assert!(!lowercase_contains("Object not found", "Not"));
    assert!(lowercase_contains("abc", ""));
}
