use chickenscratch_core::scrivener::scrivx::{
    get_media_path, get_rtf_path, sanitize_file_extension, validate_scrivener_uuid,
};
use chickenscratch_core::error::ChiknError;
use std::path::Path;

#[test]
fn test_get_rtf_path() {
    let rtf_path = get_rtf_path("/path/to/Project.scriv", "F8F9FDEF-FD9F-4A8C-B33D-3434A1220ADC").unwrap();
    assert_eq!(
        Path::new(&rtf_path),
        Path::new("/path/to/Project.scriv/Files/Data/F8F9FDEF-FD9F-4A8C-B33D-3434A1220ADC/content.rtf")
    );
}

#[test]
fn test_get_rtf_path_rejects_absolute_uuid() {
    let result = get_rtf_path("/path/to/Project.scriv", "/tmp/host-file");
    assert!(matches!(result, Err(ChiknError::InvalidFormat(_))));
}

#[test]
fn test_get_rtf_path_rejects_parent_dir_uuid() {
    let result = get_rtf_path("/path/to/Project.scriv", "../../host-file");
    assert!(matches!(result, Err(ChiknError::InvalidFormat(_))));
}

#[test]
fn test_get_media_path_rejects_uuid_before_host_path_resolution() {
    let result = get_media_path("/path/to/Project.scriv", "/tmp/host-file", "pdf");
    assert!(matches!(result, Err(ChiknError::InvalidFormat(_))));
}

#[test]
fn test_sanitize_file_extension_accepts_common_extensions() {
    for (raw, expected) in [
        ("pdf", "pdf"),
        ("jpg", "jpg"),
        ("jpeg", "jpeg"),
        ("png", "png"),
        ("gif", "gif"),
        ("tiff", "tiff"),
        ("mp3", "mp3"),
        ("mp4", "mp4"),
        ("docx", "docx"),
        ("7z", "7z"),
        (" .PDF ", "PDF"),
    ] {
        assert_eq!(sanitize_file_extension(raw).unwrap(), expected);
    }
}

#[test]
fn test_sanitize_file_extension_rejects_unsafe_values() {
    for raw in [
        "",
        "   ",
        ".",
        "..",
        "../pdf",
        "pdf/../../md",
        "/tmp/pdf",
        r"C:\tmp\pdf",
        r"\\server\share",
        "pdf;rm",
        "pdf $(touch x)",
        "pdf\nmd",
        "tar.gz",
        "pdf:ads",
    ] {
        let result = sanitize_file_extension(raw);
        assert!(
            matches!(result, Err(ChiknError::InvalidFormat(_))),
            "expected {raw:?} to be rejected"
        );
    }
}

#[test]
fn test_get_media_path_uses_sanitized_file_extension() {
    let media_path = get_media_path("/path/to/Project.scriv", "F8F9FDEF-FD9F-4A8C-B33D-3434A1220ADC", " .pdf ").unwrap();
    assert_eq!(
        Path::new(&media_path),
        Path::new("/path/to/Project.scriv/Files/Data/F8F9FDEF-FD9F-4A8C-B33D-3434A1220ADC/content.pdf")
    );
}

#[test]
fn uuid_error_quotes_the_uuid() {
    match validate_scrivener_uuid("abc\"d") {
        Err(ChiknError::InvalidFormat(m)) => assert_eq!(m, "Invalid Scrivener BinderItem UUID: \"abc\\\"d\""),
        _ => panic!("expected InvalidFormat"),
    }
}

#[test]
fn lowercase_uuid_is_accepted_and_misplaced_hyphen_rejected() {
    assert!(validate_scrivener_uuid("f8f9fdef-fd9f-4a8c-b33d-3434a1220adc").is_ok());
    assert!(validate_scrivener_uuid("f8f9fdeff-d9f-4a8c-b33d-3434a1220adc").is_err());
    assert!(validate_scrivener_uuid("g8f9fdef-fd9f-4a8c-b33d-3434a1220adc").is_err());
}

#[test]
fn extension_error_quotes_the_cleaned_extension() {
    match sanitize_file_extension(" .tar.gz ") {
        Err(ChiknError::InvalidFormat(m)) => {
            assert_eq!(m, "Invalid Scrivener FileExtension path component: \"tar.gz\"")
        }
        _ => panic!("expected InvalidFormat"),
    }
}

#[test]
fn extension_longer_than_32_is_rejected() {
    let long = "a".repeat(33);
    assert!(sanitize_file_extension(&long).is_err());
    assert_eq!(sanitize_file_extension(&"b".repeat(32)).unwrap(), "b".repeat(32));
}

#[test]
fn media_path_rejects_bad_extension_after_good_uuid() {
    let result = get_media_path("/p", "F8F9FDEF-FD9F-4A8C-B33D-3434A1220ADC", "../x");
    assert!(matches!(result, Err(ChiknError::InvalidFormat(_))));
}

#[test]
fn sanitizing_an_extension_twice_changes_nothing() {
    let once = sanitize_file_extension("  .PDF ").unwrap();
    assert_eq!(once, "PDF");
    assert_eq!(sanitize_file_extension(&once).unwrap(), once);
    for bad in ["", ".", "..", "../pdf", "/tmp/pdf", "tar.gz", "pdf;rm", "pdf:ads"] {
        assert!(matches!(sanitize_file_extension(bad), Err(ChiknError::InvalidFormat(_))), "{}", bad);
    }
}
