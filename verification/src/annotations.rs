//! The annotation records kept for each uploaded receipt image, and every
//! operation that changes or reads them: syncing with the upload directory,
//! recording an OCR result, applying a user's correction, deleting, counting
//! progress and naming an export.

use vstd::prelude::*;
use crate::text::{chars_of, copy_opt_string, copy_string, opt_view, push_chars, string_from_chars};

verus! {

/// What is recorded about one image.
#[derive(Debug)]
pub struct FileAnnotation {
    pub filename: String,
    /// The date that OCR found, as `DD-MM-YYYY`.
    pub extracted_date: Option<String>,
    /// A date set by the user; it takes precedence over the extracted one.
    pub corrected_date: Option<String>,
    pub is_invalid: bool,
    /// Position of the image in the sorted listing of the upload directory.
    pub sort_index: usize,
}

/// The mathematical content of a `FileAnnotation`.
pub struct AnnotationView {
    pub filename: Seq<char>,
    pub extracted_date: Option<Seq<char>>,
    pub corrected_date: Option<Seq<char>>,
    pub is_invalid: bool,
    pub sort_index: usize,
}

impl View for FileAnnotation {
    type V = AnnotationView;

    open spec fn view(&self) -> AnnotationView {
        AnnotationView {
            filename: self.filename@,
            extracted_date: opt_view(self.extracted_date),
            corrected_date: opt_view(self.corrected_date),
            is_invalid: self.is_invalid,
            sort_index: self.sort_index,
        }
    }
}

impl FileAnnotation {
    /// A fresh record for a newly seen image.
    pub fn new(filename: String, sort_index: usize) -> (r: FileAnnotation)
        ensures
            r@ == new_annotation_view(filename@, sort_index),
    {
        FileAnnotation {
            filename,
            extracted_date: None,
            corrected_date: None,
            is_invalid: false,
            sort_index,
        }
    }

    /// A copy of this record.
    pub fn duplicate(&self) -> (r: FileAnnotation)
        ensures
            r@ == self@,
    {
        FileAnnotation {
            filename: copy_string(&self.filename),
            extracted_date: copy_opt_string(&self.extracted_date),
            corrected_date: copy_opt_string(&self.corrected_date),
            is_invalid: self.is_invalid,
            sort_index: self.sort_index,
        }
    }
}

/// All records, in listing order.
#[derive(Debug)]
pub struct Annotations {
    pub files: Vec<FileAnnotation>,
}

impl View for Annotations {
    type V = Seq<AnnotationView>;

    open spec fn view(&self) -> Seq<AnnotationView> {
        self.files@.map_values(|f: FileAnnotation| f@)
    }
}

impl Annotations {
    /// No records at all.
    pub fn new() -> (r: Annotations)
        ensures
            r@ == Seq::<AnnotationView>::empty(),
    {
        let r = Annotations { files: Vec::new() };
        assert(r@ =~= Seq::<AnnotationView>::empty());
        r
    }
}

/// The record made for an image seen for the first time.
pub open spec fn new_annotation_view(filename: Seq<char>, sort_index: usize) -> AnnotationView {
    AnnotationView {
        filename,
        extracted_date: None,
        corrected_date: None,
        is_invalid: false,
        sort_index,
    }
}

// ---------------------------------------------------------------------------
// Looking records up by file name
// ---------------------------------------------------------------------------

/// Index of the first record for `name`, or -1.
pub open spec fn first_index_of(s: Seq<AnnotationView>, name: Seq<char>) -> int
    decreases s.len(),
{
    if s.len() == 0 {
        -1
    } else if s[0].filename == name {
        0
    } else {
        let k = first_index_of(s.drop_first(), name);
        if k < 0 {
            -1
        } else {
            k + 1
        }
    }
}

/// Index of the last record for `name`, or -1.
pub open spec fn last_index_of(s: Seq<AnnotationView>, name: Seq<char>) -> int
    decreases s.len(),
{
    if s.len() == 0 {
        -1
    } else if s.last().filename == name {
        s.len() - 1
    } else {
        last_index_of(s.drop_last(), name)
    }
}

pub proof fn lemma_first_index_of(s: Seq<AnnotationView>, name: Seq<char>)
    ensures
        -1 <= first_index_of(s, name) < s.len(),
        first_index_of(s, name) >= 0 ==> s[first_index_of(s, name)].filename == name,
        forall|j: int| 0 <= j < s.len() && (first_index_of(s, name) < 0 || j < first_index_of(s, name))
            ==> (#[trigger] s[j]).filename != name,
    decreases s.len(),
{
    if s.len() > 0 && s[0].filename != name {
        lemma_first_index_of(s.drop_first(), name);
        assert forall|j: int| 0 <= j < s.len() && (first_index_of(s, name) < 0 || j < first_index_of(s, name))
            implies (#[trigger] s[j]).filename != name by {
            if j > 0 {
                assert(s.drop_first()[j - 1] == s[j]);
            }
        }
    }
}

pub proof fn lemma_last_index_of(s: Seq<AnnotationView>, name: Seq<char>)
    ensures
        -1 <= last_index_of(s, name) < s.len(),
        last_index_of(s, name) >= 0 ==> s[last_index_of(s, name)].filename == name,
        forall|j: int| last_index_of(s, name) < j < s.len() ==> (#[trigger] s[j]).filename != name,
    decreases s.len(),
{
    if s.len() > 0 && s.last().filename != name {
        lemma_last_index_of(s.drop_last(), name);
        assert forall|j: int| last_index_of(s, name) < j < s.len()
            implies (#[trigger] s[j]).filename != name by {
            if j < s.len() - 1 {
                assert(s.drop_last()[j] == s[j]);
            }
        }
    }
}

/// Position of the first record for `name`.
pub fn find_first(a: &Annotations, name: &str) -> (r: Option<usize>)
    ensures
        match r {
            Some(i) => i as int == first_index_of(a@, name@),
            None => first_index_of(a@, name@) < 0,
        },
{
    let target = string_from_chars(&chars_of(name));
    let mut i: usize = 0;
    while i < a.files.len()
        invariant
            i <= a.files@.len(),
            target@ == name@,
            forall|j: int| 0 <= j < i ==> (#[trigger] a@[j]).filename != name@,
        decreases a.files@.len() - i,
    {
        if a.files[i].filename == target {
            proof {
                lemma_first_index_of(a@, name@);
                assert(a@[i as int].filename == name@);
                let f = first_index_of(a@, name@);
                if f >= 0 && f < i {
                    assert(a@[f].filename != name@);
                }
            }
            return Some(i);
        }
        i = i + 1;
    }
    proof {
        lemma_first_index_of(a@, name@);
        let f = first_index_of(a@, name@);
        if f >= 0 {
            assert(a@[f].filename != name@);
        }
    }
    None
}

/// Position of the last record for `name`.
fn find_last(files: &Vec<FileAnnotation>, name: &String) -> (r: Option<usize>)
    ensures
        match r {
            Some(i) => i as int == last_index_of(files@.map_values(|f: FileAnnotation| f@), name@),
            None => last_index_of(files@.map_values(|f: FileAnnotation| f@), name@) < 0,
        },
{
    let ghost s = files@.map_values(|f: FileAnnotation| f@);
    proof {
        lemma_last_index_of(s, name@);
    }
    let mut i: usize = files.len();
    while i > 0
        invariant
            i <= files@.len(),
            s == files@.map_values(|f: FileAnnotation| f@),
            -1 <= last_index_of(s, name@) < s.len(),
            last_index_of(s, name@) < i,
            forall|j: int| last_index_of(s, name@) < j < s.len() ==> (#[trigger] s[j]).filename != name@,
            last_index_of(s, name@) >= 0 ==> s[last_index_of(s, name@)].filename == name@,
        decreases i,
    {
        if files[i - 1].filename == *name {
            assert(s[i - 1].filename == name@);
            return Some(i - 1);
        }
        assert(s[i - 1].filename != name@);
        i = i - 1;
    }
    None
}

// ---------------------------------------------------------------------------
// Syncing with the upload directory
// ---------------------------------------------------------------------------

/// The record kept for the image at position `index` of the directory
/// listing: the last earlier record with its name, or a fresh one, with the
/// position as sort index.
pub open spec fn synced_entry(old: Seq<AnnotationView>, name: Seq<char>, index: usize) -> AnnotationView {
    let k = last_index_of(old, name);
    if k >= 0 {
        AnnotationView { sort_index: index, ..old[k] }
    } else {
        new_annotation_view(name, index)
    }
}

/// The records after a sync with the listing `files`.
pub open spec fn synced(old: Seq<AnnotationView>, files: Seq<Seq<char>>) -> Seq<AnnotationView> {
    Seq::new(files.len(), |i: int| synced_entry(old, files[i], i as usize))
}

/// The records for exactly the listed images, in listing order: what was
/// known about an image is kept, new images get fresh records, records of
/// images no longer listed are dropped, and each record's sort index is its
/// position (the computing part of syncing with the upload directory).
pub fn sync_annotations(data: Annotations, files: Vec<String>) -> (r: Annotations)
    ensures
        r@ == synced(data@, files@.map_values(|s: String| s@)),
{
    let ghost names = files@.map_values(|s: String| s@);
    let mut out: Vec<FileAnnotation> = Vec::new();
    let mut i: usize = 0;
    while i < files.len()
        invariant
            i <= files@.len(),
            names == files@.map_values(|s: String| s@),
            out@.len() == i,
            forall|j: int| 0 <= j < i ==> (#[trigger] out@[j])@ == synced_entry(data@, names[j], j as usize),
        decreases files@.len() - i,
    {
        proof {
            lemma_last_index_of(data@, files@[i as int]@);
        }
        let entry = match find_last(&data.files, &files[i]) {
            Some(k) => {
                let e = data.files[k].duplicate();
                FileAnnotation { sort_index: i, ..e }
            },
            None => FileAnnotation::new(files[i].clone(), i),
        };
        out.push(entry);
        i = i + 1;
    }
    let r = Annotations { files: out };
    assert(r@ =~= synced(data@, names));
    r
}

/// A sync keeps what was known about each listed image: when earlier
/// records name it, its record is the last of them with only the sort index
/// changed (the dates and the invalid mark stay); when none does, it gets a
/// record with no dates that is not marked invalid.
pub proof fn lemma_sync_keeps_known_records(old: Seq<AnnotationView>, files: Seq<Seq<char>>)
    requires
        files.len() <= usize::MAX,
    ensures
        forall|i: int, k: int|
            0 <= i < files.len() && 0 <= k < old.len() && (#[trigger] old[k]).filename == #[trigger] files[i]
                && (forall|j: int| k < j < old.len() ==> (#[trigger] old[j]).filename != files[i])
            ==> {
                let e = synced(old, files)[i];
                &&& e.filename == old[k].filename
                &&& e.extracted_date == old[k].extracted_date
                &&& e.corrected_date == old[k].corrected_date
                &&& e.is_invalid == old[k].is_invalid
                &&& e.sort_index == i
            },
        forall|i: int|
            0 <= i < files.len() && (forall|k: int| 0 <= k < old.len() ==> (#[trigger] old[k]).filename != files[i])
            ==> {
                let e = #[trigger] synced(old, files)[i];
                &&& e.filename == files[i]
                &&& e.extracted_date is None
                &&& e.corrected_date is None
                &&& !e.is_invalid
                &&& e.sort_index == i
            },
{
    assert forall|i: int, k: int|
        0 <= i < files.len() && 0 <= k < old.len() && (#[trigger] old[k]).filename == #[trigger] files[i]
            && (forall|j: int| k < j < old.len() ==> (#[trigger] old[j]).filename != files[i])
        implies {
            let e = synced(old, files)[i];
            &&& e.filename == old[k].filename
            &&& e.extracted_date == old[k].extracted_date
            &&& e.corrected_date == old[k].corrected_date
            &&& e.is_invalid == old[k].is_invalid
            &&& e.sort_index == i
        } by {
        lemma_last_index_of(old, files[i]);
        let l = last_index_of(old, files[i]);
        if l < k {
            assert(old[k].filename != files[i]);
        }
        if l > k {
            assert(old[l].filename != files[i]);
        }
    }
    assert forall|i: int|
        0 <= i < files.len() && (forall|k: int| 0 <= k < old.len() ==> (#[trigger] old[k]).filename != files[i])
        implies {
            let e = #[trigger] synced(old, files)[i];
            &&& e.filename == files[i]
            &&& e.extracted_date is None
            &&& e.corrected_date is None
            &&& !e.is_invalid
            &&& e.sort_index == i
        } by {
        lemma_last_index_of(old, files[i]);
        let l = last_index_of(old, files[i]);
        if l >= 0 {
            assert(old[l].filename != files[i]);
        }
    }
}

/// A correction changes the first record for the image and nothing else:
/// a given invalid mark replaces the old one, a given non-empty date becomes
/// the corrected date, a given empty date clears it, and what is not given
/// stays; the file name, the extracted date and the sort index stay too.
pub proof fn lemma_update_sets_fields(s: Seq<AnnotationView>, name: Seq<char>, corrected: Option<Seq<char>>, invalid: Option<bool>)
    ensures
        with_update(s, name, corrected, invalid).len() == s.len(),
        forall|k: int|
            0 <= k < s.len() && (#[trigger] s[k]).filename == name
                && (forall|j: int| 0 <= j < k ==> (#[trigger] s[j]).filename != name)
            ==> {
                let e = with_update(s, name, corrected, invalid)[k];
                &&& e.filename == s[k].filename
                &&& e.extracted_date == s[k].extracted_date
                &&& e.sort_index == s[k].sort_index
                &&& invalid matches Some(v) ==> e.is_invalid == v
                &&& invalid is None ==> e.is_invalid == s[k].is_invalid
                &&& corrected matches Some(d) ==> e.corrected_date == (if d.len() == 0 { None::<Seq<char>> } else { Some(d) })
                &&& corrected is None ==> e.corrected_date == s[k].corrected_date
                &&& forall|j: int| 0 <= j < s.len() && j != k ==> #[trigger] with_update(s, name, corrected, invalid)[j] == s[j]
            },
        (forall|j: int| 0 <= j < s.len() ==> (#[trigger] s[j]).filename != name)
            ==> with_update(s, name, corrected, invalid) == s,
{
    lemma_first_index_of(s, name);
    let f = first_index_of(s, name);
    assert forall|k: int|
        0 <= k < s.len() && (#[trigger] s[k]).filename == name
            && (forall|j: int| 0 <= j < k ==> (#[trigger] s[j]).filename != name)
        implies {
            let e = with_update(s, name, corrected, invalid)[k];
            &&& e.filename == s[k].filename
            &&& e.extracted_date == s[k].extracted_date
            &&& e.sort_index == s[k].sort_index
            &&& invalid matches Some(v) ==> e.is_invalid == v
            &&& invalid is None ==> e.is_invalid == s[k].is_invalid
            &&& corrected matches Some(d) ==> e.corrected_date == (if d.len() == 0 { None::<Seq<char>> } else { Some(d) })
            &&& corrected is None ==> e.corrected_date == s[k].corrected_date
            &&& forall|j: int| 0 <= j < s.len() && j != k ==> #[trigger] with_update(s, name, corrected, invalid)[j] == s[j]
        } by {
        if f < 0 || f > k {
            assert(s[k].filename != name);
        }
        if f < k {
            assert(s[f].filename != name);
        }
    }
    if forall|j: int| 0 <= j < s.len() ==> (#[trigger] s[j]).filename != name {
        if f >= 0 {
            assert(s[f].filename != name);
        }
    }
}

/// How many images have an extracted date: none of no images, and adding
/// an image adds one exactly when it has an extracted date, whatever its
/// corrected date or invalid mark.
pub proof fn lemma_extracted_count_steps(s: Seq<AnnotationView>, e: AnnotationView)
    ensures
        extracted_count(Seq::<AnnotationView>::empty()) == 0,
        extracted_count(s.push(e)) == extracted_count(s) + (if e.extracted_date is Some { 1nat } else { 0nat }),
{
    reveal(Seq::filter);
    assert(s.push(e).drop_last() =~= s);
}

/// Syncing twice with the same listing gives what syncing once gives.
pub proof fn lemma_sync_idempotent(old: Seq<AnnotationView>, files: Seq<Seq<char>>)
    requires
        files.len() <= usize::MAX,
    ensures
        synced(synced(old, files), files) == synced(old, files),
{
    let once = synced(old, files);
    assert forall|i: int| 0 <= i < files.len() implies #[trigger] synced_entry(once, files[i], i as usize)
        == synced_entry(old, files[i], i as usize) by {
        lemma_last_index_of(once, files[i]);
        let k = last_index_of(once, files[i]);
        assert(once[i].filename == files[i]) by {
            lemma_last_index_of(old, files[i]);
        }
        assert(k >= i);
        lemma_last_index_of(old, files[k]);
        assert(once[k].filename == files[k]);
    }
    assert(synced(once, files) =~= once);
}

/// After a sync, the records name exactly the listed images in order, and
/// each record's sort index is its position.
pub proof fn lemma_sync_matches_listing(old: Seq<AnnotationView>, files: Seq<Seq<char>>)
    requires
        files.len() <= usize::MAX,
    ensures
        synced(old, files).len() == files.len(),
        forall|i: int| 0 <= i < files.len() ==> (#[trigger] synced(old, files)[i]).filename == files[i]
            && synced(old, files)[i].sort_index == i,
{
    assert forall|i: int| 0 <= i < files.len() implies (#[trigger] synced(old, files)[i]).filename == files[i]
        && synced(old, files)[i].sort_index == i by {
        lemma_last_index_of(old, files[i]);
    }
}

// ---------------------------------------------------------------------------
// Recording an OCR result
// ---------------------------------------------------------------------------

/// The records after the OCR result `extracted` is stored for `name`: the
/// first record for that name takes it; nothing changes when there is none.
pub open spec fn with_extraction(s: Seq<AnnotationView>, name: Seq<char>, extracted: Option<Seq<char>>) -> Seq<AnnotationView> {
    let k = first_index_of(s, name);
    if k >= 0 {
        s.update(k, AnnotationView { extracted_date: extracted, ..s[k] })
    } else {
        s
    }
}

/// Stores the date that OCR found for an image.
pub fn record_extraction(a: &mut Annotations, name: &str, extracted: Option<String>)
    ensures
        final(a)@ == with_extraction(old(a)@, name@, opt_view(extracted)),
{
    proof {
        lemma_first_index_of(a@, name@);
    }
    match find_first(a, name) {
        Some(k) => {
            let e = a.files[k].duplicate();
            let updated = FileAnnotation { extracted_date: extracted, ..e };
            let ghost before = a@;
            a.files.set(k, updated);
            assert(a@ =~= with_extraction(before, name@, opt_view(extracted)));
        },
        None => {},
    }
}

// ---------------------------------------------------------------------------
// Applying a user's correction
// ---------------------------------------------------------------------------

/// A correction sent by the user: each field that is present replaces the
/// stored one; an empty corrected date clears it.
#[derive(Debug)]
pub struct AnnotationUpdate {
    pub corrected_date: Option<String>,
    pub is_invalid: Option<bool>,
}

/// Why a record could not be changed.
#[derive(Debug, PartialEq, Eq)]
pub enum AnnotationError {
    /// No record has the given file name.
    NotFound,
}

impl AnnotationError {
    /// The HTTP status of the error (404).
    pub fn http_status(&self) -> (r: u16)
        ensures
            r == 404,
    {
        404
    }

    /// The message sent back with the error.
    pub fn message(&self) -> (r: &'static str)
        ensures
            r@ == "File not found"@,
    {
        "File not found"
    }
}

/// A record after a correction.
pub open spec fn updated_view(a: AnnotationView, corrected: Option<Seq<char>>, invalid: Option<bool>) -> AnnotationView {
    AnnotationView {
        corrected_date: match corrected {
            Some(d) => if d.len() == 0 { None } else { Some(d) },
            None => a.corrected_date,
        },
        is_invalid: match invalid {
            Some(v) => v,
            None => a.is_invalid,
        },
        ..a
    }
}

/// The records after a correction to `name`: the first record for that
/// name changes; nothing changes when there is none.
pub open spec fn with_update(s: Seq<AnnotationView>, name: Seq<char>, corrected: Option<Seq<char>>, invalid: Option<bool>) -> Seq<AnnotationView> {
    let k = first_index_of(s, name);
    if k >= 0 {
        s.update(k, updated_view(s[k], corrected, invalid))
    } else {
        s
    }
}

/// Applies a correction to the first record for `name` and returns the
/// changed record; fails, changing nothing, when no record has that name.
pub fn apply_update(a: &mut Annotations, name: &str, update: AnnotationUpdate) -> (r: Result<FileAnnotation, AnnotationError>)
    ensures
        first_index_of(old(a)@, name@) < 0 ==> r == Err::<FileAnnotation, AnnotationError>(AnnotationError::NotFound)
            && final(a)@ == old(a)@,
        first_index_of(old(a)@, name@) >= 0 ==> {
            let k = first_index_of(old(a)@, name@);
            let new_entry = updated_view(old(a)@[k], opt_view(update.corrected_date), update.is_invalid);
            &&& r is Ok
            &&& r->Ok_0@ == new_entry
            &&& final(a)@ == old(a)@.update(k, new_entry)
        },
        final(a)@ == with_update(old(a)@, name@, opt_view(update.corrected_date), update.is_invalid),
{
    proof {
        lemma_first_index_of(a@, name@);
    }
    match find_first(a, name) {
        None => Err(AnnotationError::NotFound),
        Some(k) => {
            let e = a.files[k].duplicate();
            let corrected = match update.corrected_date {
                Some(d) => if d.as_str().is_empty() { None } else { Some(d) },
                None => e.corrected_date,
            };
            let invalid = match update.is_invalid {
                Some(v) => v,
                None => e.is_invalid,
            };
            let changed = FileAnnotation { corrected_date: corrected, is_invalid: invalid, ..e };
            let result = changed.duplicate();
            let ghost before = a@;
            a.files.set(k, changed);
            assert(a@ =~= before.update(k as int, result@));
            Ok(result)
        },
    }
}

// ---------------------------------------------------------------------------
// Deleting
// ---------------------------------------------------------------------------

/// The records after deleting the image `name`.
pub open spec fn without_name(s: Seq<AnnotationView>, name: Seq<char>) -> Seq<AnnotationView> {
    s.filter(|e: AnnotationView| e.filename != name)
}

/// Drops every record for `name`, keeping the others in order.
pub fn remove_annotation(a: &mut Annotations, name: &str)
    ensures
        final(a)@ == without_name(old(a)@, name@),
{
    let target = string_from_chars(&chars_of(name));
    let ghost pred = |e: AnnotationView| e.filename != name@;
    let ghost s = a@;
    let mut kept: Vec<FileAnnotation> = Vec::new();
    let mut i: usize = 0;
    while i < a.files.len()
        invariant
            i <= a.files@.len(),
            s == a@,
            target@ == name@,
            pred == (|e: AnnotationView| e.filename != name@),
            kept@.map_values(|f: FileAnnotation| f@) == s.take(i as int).filter(pred),
        decreases a.files@.len() - i,
    {
        reveal(Seq::filter);
        assert(s.take(i + 1).drop_last() =~= s.take(i as int));
        assert(s.take(i + 1).last() == a.files@[i as int]@);
        if a.files[i].filename != target {
            kept.push(a.files[i].duplicate());
            assert(kept@.map_values(|f: FileAnnotation| f@) =~= s.take(i + 1).filter(pred));
        } else {
            assert(kept@.map_values(|f: FileAnnotation| f@) =~= s.take(i + 1).filter(pred));
        }
        i = i + 1;
    }
    assert(s.take(s.len() as int) =~= s);
    a.files = kept;
}

// ---------------------------------------------------------------------------
// Progress and export
// ---------------------------------------------------------------------------

/// How many images have an extracted date.
pub open spec fn extracted_count(s: Seq<AnnotationView>) -> nat {
    s.filter(|e: AnnotationView| e.extracted_date is Some).len()
}

/// The OCR progress over all images.
#[derive(Debug, PartialEq, Eq)]
pub struct Progress {
    pub total: usize,
    pub done: usize,
    pub remaining: usize,
}

/// Counts the images, those with an extracted date, and the rest.
pub fn progress_counts(a: &Annotations) -> (r: Progress)
    ensures
        r.total == a@.len(),
        r.done == extracted_count(a@),
        r.remaining == a@.len() - extracted_count(a@),
        r.done + r.remaining == r.total,
{
    let ghost s = a@;
    let ghost pred = |e: AnnotationView| e.extracted_date is Some;
    let mut done: usize = 0;
    let mut i: usize = 0;
    while i < a.files.len()
        invariant
            i <= a.files@.len(),
            s == a@,
            pred == (|e: AnnotationView| e.extracted_date is Some),
            done == s.take(i as int).filter(pred).len(),
            done <= i,
        decreases a.files@.len() - i,
    {
        reveal(Seq::filter);
        assert(s.take(i + 1).drop_last() =~= s.take(i as int));
        assert(s.take(i + 1).last() == a.files@[i as int]@);
        if a.files[i].extracted_date.is_some() {
            done = done + 1;
        }
        i = i + 1;
    }
    assert(s.take(s.len() as int) =~= s);
    let total = a.files.len();
    Progress { total, done, remaining: total - done }
}

/// The date shown for a record: the user's correction, else the extracted one.
pub open spec fn effective_date(e: AnnotationView) -> Option<Seq<char>> {
    match e.corrected_date {
        Some(d) => Some(d),
        None => e.extracted_date,
    }
}

/// The name under which an image is downloaded: its date, `_`, and its file
/// name, or just the file name when it has no date or no record.
pub open spec fn download_name_spec(s: Seq<AnnotationView>, name: Seq<char>) -> Seq<char> {
    let k = first_index_of(s, name);
    if k >= 0 {
        match effective_date(s[k]) {
            Some(d) => d + seq!['_'] + name,
            None => name,
        }
    } else {
        name
    }
}

/// The download name of an exported image.
pub fn download_name(a: &Annotations, name: &str) -> (r: String)
    ensures
        r@ == download_name_spec(a@, name@),
{
    let nc = chars_of(name);
    proof {
        lemma_first_index_of(a@, name@);
    }
    match find_first(a, name) {
        None => string_from_chars(&nc),
        Some(k) => {
            let e = &a.files[k];
            let date = match &e.corrected_date {
                Some(d) => Some(d),
                None => match &e.extracted_date {
                    Some(d) => Some(d),
                    None => None,
                },
            };
            match date {
                Some(d) => {
                    let mut out = chars_of(d.as_str());
                    out.push('_');
                    push_chars(&mut out, &nc);
                    string_from_chars(&out)
                },
                None => string_from_chars(&nc),
            }
        },
    }
}

/// The `Content-Disposition` value that offers a download under `name`.
pub open spec fn content_disposition_spec(name: Seq<char>) -> Seq<char> {
    "attachment; filename=\""@ + name + seq!['"']
}

/// Builds the `Content-Disposition` value for a download.
pub fn content_disposition(name: &str) -> (r: String)
    ensures
        r@ == content_disposition_spec(name@),
{
    let mut out = chars_of("attachment; filename=\"");
    let nc = chars_of(name);
    push_chars(&mut out, &nc);
    out.push('"');
    string_from_chars(&out)
}

// ---------------------------------------------------------------------------
// Laws relating the operations
// ---------------------------------------------------------------------------

/// Records with the same names in the same order have the same first record
/// for every name.
pub proof fn lemma_first_index_same_names(s: Seq<AnnotationView>, t: Seq<AnnotationView>, name: Seq<char>)
    requires
        s.len() == t.len(),
        forall|j: int| 0 <= j < s.len() ==> (#[trigger] s[j]).filename == t[j].filename,
    ensures
        first_index_of(s, name) == first_index_of(t, name),
    decreases s.len(),
{
    if s.len() > 0 {
        assert(s[0].filename == t[0].filename);
        assert forall|j: int| 0 <= j < s.drop_first().len() implies (#[trigger] s.drop_first()[j]).filename
            == t.drop_first()[j].filename by {
            assert(s.drop_first()[j] == s[j + 1]);
            assert(t.drop_first()[j] == t[j + 1]);
        }
        lemma_first_index_same_names(s.drop_first(), t.drop_first(), name);
    }
}

/// Applying the same correction twice leaves the records as applying it
/// once does.
pub proof fn lemma_update_idempotent(s: Seq<AnnotationView>, name: Seq<char>, corrected: Option<Seq<char>>, invalid: Option<bool>)
    ensures
        with_update(with_update(s, name, corrected, invalid), name, corrected, invalid)
            == with_update(s, name, corrected, invalid),
{
    let once = with_update(s, name, corrected, invalid);
    lemma_first_index_of(s, name);
    let k = first_index_of(s, name);
    if k >= 0 {
        lemma_first_index_same_names(s, once, name);
        assert(once.update(k, updated_view(once[k], corrected, invalid)) =~= once);
    }
}

/// A correction with neither field leaves the records unchanged.
pub proof fn lemma_empty_update_changes_nothing(s: Seq<AnnotationView>, name: Seq<char>)
    ensures
        with_update(s, name, None, None) == s,
{
    lemma_first_index_of(s, name);
    let k = first_index_of(s, name);
    if k >= 0 {
        assert(s.update(k, updated_view(s[k], None, None)) =~= s);
    }
}

/// After the user sets a (non-empty) date on an image, that image is
/// exported under that date.
pub proof fn lemma_corrected_date_names_export(s: Seq<AnnotationView>, name: Seq<char>, date: Seq<char>, invalid: Option<bool>)
    requires
        first_index_of(s, name) >= 0,
        date.len() > 0,
    ensures
        download_name_spec(with_update(s, name, Some(date), invalid), name) == date + seq!['_'] + name,
{
    let t = with_update(s, name, Some(date), invalid);
    lemma_first_index_of(s, name);
    lemma_first_index_same_names(s, t, name);
}

/// After OCR records a date for an image without a correction, that image
/// is exported under the recorded date.
pub proof fn lemma_extracted_date_names_export(s: Seq<AnnotationView>, name: Seq<char>, date: Seq<char>)
    requires
        first_index_of(s, name) >= 0,
        s[first_index_of(s, name)].corrected_date is None,
    ensures
        download_name_spec(with_extraction(s, name, Some(date)), name) == date + seq!['_'] + name,
{
    let t = with_extraction(s, name, Some(date));
    lemma_first_index_of(s, name);
    lemma_first_index_same_names(s, t, name);
}

/// Deleting keeps every other record in order: of no records it leaves
/// none, and a record added last is dropped exactly when it names the
/// deleted image.
pub proof fn lemma_remove_steps(s: Seq<AnnotationView>, e: AnnotationView, name: Seq<char>)
    ensures
        without_name(Seq::<AnnotationView>::empty(), name) == Seq::<AnnotationView>::empty(),
        without_name(s.push(e), name) == (if e.filename == name {
            without_name(s, name)
        } else {
            without_name(s, name).push(e)
        }),
{
    reveal(Seq::filter);
    assert(s.push(e).drop_last() =~= s);
}

/// After a deletion no record names the deleted image, and deleting again
/// changes nothing.
pub proof fn lemma_remove_leaves_none(s: Seq<AnnotationView>, name: Seq<char>)
    ensures
        forall|i: int| 0 <= i < without_name(s, name).len() ==> (#[trigger] without_name(s, name)[i]).filename != name,
        without_name(without_name(s, name), name) == without_name(s, name),
{
    let pred = |e: AnnotationView| e.filename != name;
    let t = s.filter(pred);
    assert forall|i: int| 0 <= i < t.len() implies (#[trigger] t[i]).filename != name by {
        s.lemma_filter_pred(pred, i);
    }
    lemma_filter_all_pass(t, pred);
}

proof fn lemma_filter_all_pass(s: Seq<AnnotationView>, pred: spec_fn(AnnotationView) -> bool)
    requires
        forall|i: int| 0 <= i < s.len() ==> pred(#[trigger] s[i]),
    ensures
        s.filter(pred) == s,
    decreases s.len(),
{
    reveal(Seq::filter);
    if s.len() > 0 {
        assert forall|i: int| 0 <= i < s.drop_last().len() implies pred(#[trigger] s.drop_last()[i]) by {
            assert(s.drop_last()[i] == s[i]);
        }
        lemma_filter_all_pass(s.drop_last(), pred);
        assert(pred(s[s.len() - 1]));
        assert(s.drop_last().push(s.last()) =~= s);
    }
}

} // verus!
