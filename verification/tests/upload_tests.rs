use receipt_annotator::upload::{classify_upload, upload_boundary, UploadError};

#[test]
fn content_type_must_be_multipart() {
    let err = upload_boundary("text/plain").unwrap_err();
    assert_eq!(err, UploadError::NotMultipart("text/plain".to_string()));
    assert_eq!(err.message(), "Expected multipart/form-data, got: text/plain");
    assert_eq!(err.http_status(), 400);
    assert_eq!(upload_boundary("").unwrap_err().message(), "Expected multipart/form-data, got: ");
}

#[test]
fn boundary_is_read_by_multer() {
    assert_eq!(upload_boundary("multipart/form-data; boundary=ABCDEFG"), Ok("ABCDEFG".to_string()));
    let err = upload_boundary("multipart/form-data").unwrap_err();
    assert_eq!(err.message(), "Invalid boundary: multipart boundary not found in Content-Type");
    let err = upload_boundary("text/x; note=multipart/form-data").unwrap_err();
    assert_eq!(err.message(), "Invalid boundary: failed to decode Content-Type");
    let err = upload_boundary("text/x; note=\"multipart/form-data\"").unwrap_err();
    assert_eq!(err.message(), "Invalid boundary: Content-Type is not multipart/form-data");
}

#[test]
fn image_uploads_are_kept_by_extension() {
    let n = classify_upload(Some("IMG_1.JPG".to_string()));
    assert_eq!((n.name.as_str(), n.accepted), ("IMG_1.JPG", true));
    assert!(classify_upload(Some("a.Jpeg".to_string())).accepted);
    assert!(classify_upload(Some("a.png".to_string())).accepted);
    assert!(classify_upload(Some("a.WEBP".to_string())).accepted);
    assert!(!classify_upload(Some("a.gif".to_string())).accepted);
    assert!(!classify_upload(Some("jpg".to_string())).accepted);
    assert!(!classify_upload(Some(".png".to_string())).accepted);
    let n = classify_upload(None);
    assert_eq!((n.name.as_str(), n.accepted), ("unknown", false));
}
