use receipt_annotator::job::{cancel_ocr_job, start_ocr_job, JobError, JobStatus, OcrJobState, OcrWorker, WorkerStep};

fn names(v: &[&str]) -> Vec<String> {
    v.iter().map(|s| s.to_string()).collect()
}

#[test]
fn default_job_is_idle() {
    let j = OcrJobState::default();
    assert_eq!(j.status, JobStatus::Idle);
    assert_eq!(j.message, "");
    assert!(j.results.is_empty());
}

#[test]
fn start_needs_images_and_no_running_job() {
    let mut j = OcrJobState::default();
    let err = start_ocr_job(&mut j, &Vec::new(), 1).unwrap_err();
    assert_eq!(err, JobError::NoValidImages);
    assert_eq!(err.message(), "No valid images provided");
    assert_eq!(err.http_status(), 400);
    assert_eq!(j.status, JobStatus::Idle);

    let started = start_ocr_job(&mut j, &names(&["a.jpg", "b.jpg"]), 42).unwrap();
    assert_eq!(started.total, 2);
    assert_eq!(started.job_id.len(), 36);
    assert_eq!(j.id.as_deref(), Some(started.job_id.as_str()));
    assert_eq!(j.status, JobStatus::Running);
    assert_eq!(j.message, "Starting OCR batch...");
    assert_eq!(j.started_at, Some(42));

    let err = start_ocr_job(&mut j, &names(&["c.jpg"]), 43).unwrap_err();
    assert_eq!(err, JobError::AlreadyRunning);
    assert_eq!(err.message(), "An OCR job is already running");
    assert_eq!(err.http_status(), 409);
    assert_eq!(j.total, 2);
}

#[test]
fn job_ids_differ() {
    let mut a = OcrJobState::default();
    let mut b = OcrJobState::default();
    let x = start_ocr_job(&mut a, &names(&["a.jpg"]), 0).unwrap();
    let y = start_ocr_job(&mut b, &names(&["a.jpg"]), 0).unwrap();
    assert_ne!(x.job_id, y.job_id);
}

#[test]
fn worker_runs_every_image_then_finishes() {
    let files = names(&["a.jpg", "b.jpg"]);
    let mut j = OcrJobState::default();
    start_ocr_job(&mut j, &files, 1).unwrap();
    let mut w = OcrWorker::new(files);

    match w.next_step(&mut j, 2) {
        WorkerStep::Read(f) => assert_eq!(f, "a.jpg"),
        _ => panic!("expected a read"),
    }
    assert_eq!(j.message, "OCR 1/2: a.jpg");
    assert_eq!(j.current.as_deref(), Some("a.jpg"));
    w.record(&mut j, "12-01-2024".to_string(), Some("12-01-2024".to_string()));
    assert_eq!((j.done, j.failed, j.results.len()), (1, 0, 1));

    match w.next_step(&mut j, 3) {
        WorkerStep::Read(f) => assert_eq!(f, "b.jpg"),
        _ => panic!("expected a read"),
    }
    assert_eq!(j.message, "OCR 2/2: b.jpg");
    w.record(&mut j, "NO_DATE".to_string(), None);
    assert_eq!((j.done, j.failed, j.results.len()), (2, 1, 2));
    assert_eq!(j.results[1].filename, "b.jpg");

    assert!(matches!(w.next_step(&mut j, 9), WorkerStep::Stop));
    assert_eq!(j.status, JobStatus::Done);
    assert_eq!(j.current, None);
    assert_eq!(j.message, "OCR complete: 2 files processed.");
    assert_eq!(j.finished_at, Some(9));
}

#[test]
fn cancel_blocks_the_worker_before_the_next_image() {
    let files = names(&["a.jpg", "b.jpg", "c.jpg"]);
    let mut j = OcrJobState::default();
    let err = cancel_ocr_job(&mut j).unwrap_err();
    assert_eq!(err, JobError::NotRunning);
    assert_eq!(err.message(), "No OCR job is running");
    assert_eq!(err.http_status(), 409);

    start_ocr_job(&mut j, &files, 1).unwrap();
    let mut w = OcrWorker::new(files);
    assert!(matches!(w.next_step(&mut j, 2), WorkerStep::Read(_)));
    cancel_ocr_job(&mut j).unwrap();
    assert!(j.cancelled);
    assert_eq!(j.status, JobStatus::Running);
    w.record(&mut j, "raw".to_string(), None);
    assert!(matches!(w.next_step(&mut j, 5), WorkerStep::Blocked));
    assert!(w.stopped);
    assert_eq!(j.status, JobStatus::Running);
    assert!(j.cancelled);
    assert_eq!(j.message, "OCR 1/3: a.jpg");
    assert_eq!(j.finished_at, None);
    assert_eq!(j.done, 1);
}

#[test]
fn cancel_after_the_last_image_still_finishes_as_done() {
    let files = names(&["a.jpg"]);
    let mut j = OcrJobState::default();
    start_ocr_job(&mut j, &files, 1).unwrap();
    let mut w = OcrWorker::new(files);
    assert!(matches!(w.next_step(&mut j, 2), WorkerStep::Read(_)));
    cancel_ocr_job(&mut j).unwrap();
    w.record(&mut j, "raw".to_string(), None);
    assert!(matches!(w.next_step(&mut j, 3), WorkerStep::Stop));
    assert_eq!(j.status, JobStatus::Done);
    assert_eq!(j.message, "OCR complete: 1 files processed.");
}
