use receipt_annotator::annotations::{
    apply_update, content_disposition, download_name, progress_counts, record_extraction,
    remove_annotation, sync_annotations, AnnotationError, AnnotationUpdate, Annotations,
    FileAnnotation, Progress,
};

fn entry(name: &str, extracted: Option<&str>, corrected: Option<&str>, invalid: bool, idx: usize) -> FileAnnotation {
    FileAnnotation {
        filename: name.to_string(),
        extracted_date: extracted.map(|s| s.to_string()),
        corrected_date: corrected.map(|s| s.to_string()),
        is_invalid: invalid,
        sort_index: idx,
    }
}

fn summary(a: &Annotations) -> Vec<(String, Option<String>, Option<String>, bool, usize)> {
    a.files
        .iter()
        .map(|f| (f.filename.clone(), f.extracted_date.clone(), f.corrected_date.clone(), f.is_invalid, f.sort_index))
        .collect()
}

fn files(v: &[&str]) -> Vec<String> {
    v.iter().map(|s| s.to_string()).collect()
}

#[test]
fn sync_keeps_known_adds_new_drops_missing() {
    let data = Annotations {
        files: vec![
            entry("b.jpg", Some("01-01-2024"), None, true, 7),
            entry("gone.jpg", Some("02-02-2024"), None, false, 0),
        ],
    };
    let r = sync_annotations(data, files(&["a.jpg", "b.jpg"]));
    assert_eq!(
        summary(&r),
        vec![
            ("a.jpg".to_string(), None, None, false, 0),
            ("b.jpg".to_string(), Some("01-01-2024".to_string()), None, true, 1),
        ]
    );
}

#[test]
fn sync_takes_the_last_duplicate_record() {
    let data = Annotations {
        files: vec![entry("a.jpg", Some("01-01-2024"), None, false, 0), entry("a.jpg", Some("09-09-2024"), None, false, 1)],
    };
    let r = sync_annotations(data, files(&["a.jpg"]));
    assert_eq!(summary(&r), vec![("a.jpg".to_string(), Some("09-09-2024".to_string()), None, false, 0)]);
}

#[test]
fn sync_twice_is_sync_once() {
    let data = Annotations {
        files: vec![entry("x.jpg", None, Some("03-03-2023"), false, 4), entry("y.jpg", None, None, true, 2)],
    };
    let listing = files(&["y.jpg", "x.jpg", "z.jpg"]);
    let once = sync_annotations(data, listing.clone());
    let once_summary = summary(&once);
    let twice = sync_annotations(once, listing);
    assert_eq!(summary(&twice), once_summary);
}

#[test]
fn recording_an_extraction_sets_the_first_match() {
    let mut a = Annotations { files: vec![entry("a.jpg", None, None, false, 0), entry("a.jpg", None, None, false, 1)] };
    record_extraction(&mut a, "a.jpg", Some("05-06-2024".to_string()));
    assert_eq!(a.files[0].extracted_date.as_deref(), Some("05-06-2024"));
    assert_eq!(a.files[1].extracted_date, None);
    record_extraction(&mut a, "missing.jpg", Some("x".to_string()));
    assert_eq!(a.files.len(), 2);
}

#[test]
fn update_sets_clears_and_reports_missing() {
    let mut a = Annotations { files: vec![entry("a.jpg", Some("01-01-2024"), Some("02-02-2024"), false, 0)] };
    let changed = apply_update(&mut a, "a.jpg", AnnotationUpdate { corrected_date: Some("".to_string()), is_invalid: Some(true) })
        .unwrap();
    assert_eq!(changed.corrected_date, None);
    assert!(changed.is_invalid);
    assert_eq!(a.files[0].corrected_date, None);
    let again = apply_update(&mut a, "a.jpg", AnnotationUpdate { corrected_date: Some("03-03-2024".to_string()), is_invalid: None })
        .unwrap();
    assert_eq!(again.corrected_date.as_deref(), Some("03-03-2024"));
    assert!(again.is_invalid);
    let err = apply_update(&mut a, "b.jpg", AnnotationUpdate { corrected_date: None, is_invalid: None }).unwrap_err();
    assert_eq!(err, AnnotationError::NotFound);
    assert_eq!(err.message(), "File not found");
    assert_eq!(err.http_status(), 404);
}

#[test]
fn update_applied_twice_is_applied_once() {
    let mut a = Annotations { files: vec![entry("a.jpg", None, None, false, 0), entry("b.jpg", None, None, false, 1)] };
    let upd = || AnnotationUpdate { corrected_date: Some("07-07-2024".to_string()), is_invalid: Some(false) };
    apply_update(&mut a, "b.jpg", upd()).unwrap();
    let once = summary(&a);
    apply_update(&mut a, "b.jpg", upd()).unwrap();
    assert_eq!(summary(&a), once);
}

#[test]
fn export_name_uses_corrected_then_extracted_date() {
    let a = Annotations {
        files: vec![
            entry("a.jpg", Some("01-01-2024"), Some("02-02-2024"), false, 0),
            entry("b.jpg", Some("03-03-2024"), None, false, 1),
            entry("c.jpg", None, None, false, 2),
        ],
    };
    assert_eq!(download_name(&a, "a.jpg"), "02-02-2024_a.jpg");
    assert_eq!(download_name(&a, "b.jpg"), "03-03-2024_b.jpg");
    assert_eq!(download_name(&a, "c.jpg"), "c.jpg");
    assert_eq!(download_name(&a, "zzz.jpg"), "zzz.jpg");
    assert_eq!(content_disposition("02-02-2024_a.jpg"), "attachment; filename=\"02-02-2024_a.jpg\"");
}

#[test]
fn corrected_date_is_read_back_by_export() {
    let mut a = Annotations { files: vec![entry("a.jpg", Some("01-01-2024"), None, false, 0)] };
    apply_update(&mut a, "a.jpg", AnnotationUpdate { corrected_date: Some("09-10-2023".to_string()), is_invalid: None })
        .unwrap();
    assert_eq!(download_name(&a, "a.jpg"), "09-10-2023_a.jpg");
}

#[test]
fn delete_removes_every_record_of_the_name() {
    let mut a = Annotations {
        files: vec![entry("a.jpg", None, None, false, 0), entry("b.jpg", None, None, false, 1), entry("a.jpg", None, None, false, 2)],
    };
    remove_annotation(&mut a, "a.jpg");
    assert_eq!(summary(&a), vec![("b.jpg".to_string(), None, None, false, 1)]);
    remove_annotation(&mut a, "a.jpg");
    assert_eq!(a.files.len(), 1);
}

#[test]
fn progress_counts_extracted_dates() {
    let a = Annotations {
        files: vec![entry("a.jpg", Some("01-01-2024"), None, false, 0), entry("b.jpg", None, Some("x"), false, 1), entry("c.jpg", Some("d"), None, true, 2)],
    };
    assert_eq!(progress_counts(&a), Progress { total: 3, done: 2, remaining: 1 });
    assert_eq!(progress_counts(&Annotations::new()), Progress { total: 0, done: 0, remaining: 0 });
}

#[test]
fn recorded_date_is_read_back_by_export() {
    let mut a = Annotations { files: vec![entry("r.jpg", None, None, false, 0)] };
    record_extraction(&mut a, "r.jpg", Some("11-11-2021".to_string()));
    assert_eq!(download_name(&a, "r.jpg"), "11-11-2021_r.jpg");
}
