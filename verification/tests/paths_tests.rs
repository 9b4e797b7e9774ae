use receipt_annotator::paths::{is_image_name, mime_type, path_extension, select_image_files, upload_path};

fn names(v: &[&str]) -> Vec<String> {
    v.iter().map(|s| s.to_string()).collect()
}

#[test]
fn mime_type_by_extension_ignores_ascii_case() {
    assert_eq!(mime_type("data/uploads/a.PNG"), "image/png");
    assert_eq!(mime_type("data/uploads/a.png"), "image/png");
    assert_eq!(mime_type("x.JpEg"), "image/jpeg");
    assert_eq!(mime_type("x.jpg"), "image/jpeg");
    assert_eq!(mime_type("x.WebP"), "image/webp");
}

#[test]
fn mime_type_defaults_to_jpeg() {
    assert_eq!(mime_type("x.gif"), "image/jpeg");
    assert_eq!(mime_type("noext"), "image/jpeg");
    assert_eq!(mime_type(".png"), "image/jpeg");
    assert_eq!(mime_type("a/.."), "image/jpeg");
    assert_eq!(mime_type(""), "image/jpeg");
}

#[test]
fn mime_type_uses_last_component() {
    assert_eq!(mime_type("dir.png/"), "image/png");
    assert_eq!(mime_type("a.webp/./"), "image/webp");
    assert_eq!(mime_type("pics.png/receipt"), "image/jpeg");
}

#[test]
fn extension_follows_path_rules() {
    assert_eq!(path_extension("foo.tar.gz"), Some("gz".to_string()));
    assert_eq!(path_extension("foo."), Some("".to_string()));
    assert_eq!(path_extension(".bashrc"), None);
    assert_eq!(path_extension("a.b/c"), None);
    assert_eq!(path_extension("/"), None);
    assert_eq!(path_extension("..jpg"), Some("jpg".to_string()));
}

#[test]
fn upload_path_joins_under_root() {
    assert_eq!(upload_path("x.jpg"), "data/uploads/x.jpg");
    assert_eq!(upload_path(""), "data/uploads/");
    assert_eq!(upload_path("/etc/x.jpg"), "/etc/x.jpg");
}

#[test]
fn only_jpg_entries_are_listed_in_byte_order() {
    let got = select_image_files(names(&["b.JPG", "a.jpg", "c.png", "d", ".jpg", "B.jpg", "e.jpeg"]));
    assert_eq!(got, names(&["B.jpg", "a.jpg", "b.JPG"]));
}

#[test]
fn listing_orders_non_ascii_names_by_code_point() {
    let got = select_image_files(names(&["é.jpg", "z.jpg", "ä.jpg", "a.jpg"]));
    assert_eq!(got, names(&["a.jpg", "z.jpg", "ä.jpg", "é.jpg"]));
    assert!(is_image_name(&"x.jPg".to_string()));
    assert!(!is_image_name(&"x.jpeg".to_string()));
}
