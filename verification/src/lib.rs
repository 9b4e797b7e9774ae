//! Verified core of a receipt-date annotation service: file-name rules,
//! annotation bookkeeping, date extraction from OCR text, grouping of
//! files by date, and the OCR batch-job state machine.

pub mod text;
pub mod paths;
pub mod annotations;
pub mod dates;
pub mod job;
pub mod ocr;
pub mod upload;
