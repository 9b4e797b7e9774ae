use receipt_annotator::annotations::{Annotations, FileAnnotation};
use receipt_annotator::dates::{date_from_captures, parse_date, sort_dates_entries};

fn entry(name: &str, extracted: Option<&str>, corrected: Option<&str>, invalid: bool) -> FileAnnotation {
    FileAnnotation {
        filename: name.to_string(),
        extracted_date: extracted.map(|s| s.to_string()),
        corrected_date: corrected.map(|s| s.to_string()),
        is_invalid: invalid,
        sort_index: 0,
    }
}

#[test]
fn full_dates_are_zero_padded() {
    assert_eq!(parse_date("Date: 5/3/2024"), Some("05-03-2024".to_string()));
    assert_eq!(parse_date("  01/02/2023  "), Some("01-02-2023".to_string()));
    assert_eq!(parse_date("31-12-1999"), Some("31-12-1999".to_string()));
}

#[test]
fn short_years_are_read_in_the_2000s() {
    assert_eq!(parse_date("12-11-24"), Some("12-11-2024".to_string()));
    assert_eq!(parse_date("total 3/4/05 paid"), Some("03-04-2005".to_string()));
}

#[test]
fn first_match_decides() {
    assert_eq!(parse_date("1-1-2024 and 2-2-2025"), Some("01-01-2024".to_string()));
    assert_eq!(parse_date("99/12/23 10-10-10"), None);
    assert_eq!(parse_date("99/12/2023 10-10-10"), Some("10-10-2010".to_string()));
}

#[test]
fn out_of_range_or_missing_dates_give_none() {
    assert_eq!(parse_date("32-01-2024"), None);
    assert_eq!(parse_date("13-13-2024"), None);
    assert_eq!(parse_date("00-01-2024"), None);
    assert_eq!(parse_date("NO_DATE"), None);
    assert_eq!(parse_date("no date"), None);
    assert_eq!(parse_date(""), None);
    assert_eq!(parse_date("2024-01-05"), None);
}

#[test]
fn dates_need_word_boundaries() {
    assert_eq!(parse_date("A12-01-2024"), None);
    assert_eq!(parse_date("12-01-20245"), None);
}

fn groups(a: &Annotations) -> Vec<(String, Vec<String>)> {
    sort_dates_entries(a).into_iter().map(|g| (g.date, g.files)).collect()
}

#[test]
fn groups_are_in_calendar_order() {
    let a = Annotations {
        files: vec![
            entry("a.jpg", Some("02-01-2024"), None, false),
            entry("b.jpg", Some("01-02-2023"), None, false),
            entry("c.jpg", Some("02-01-2024"), None, false),
            entry("d.jpg", Some("not a date"), None, false),
        ],
    };
    assert_eq!(
        groups(&a),
        vec![
            ("not a date".to_string(), vec!["d.jpg".to_string()]),
            ("01-02-2023".to_string(), vec!["b.jpg".to_string()]),
            ("02-01-2024".to_string(), vec!["a.jpg".to_string(), "c.jpg".to_string()]),
        ]
    );
}

#[test]
fn calendar_order_is_not_text_order() {
    let a = Annotations {
        files: vec![entry("a.jpg", Some("01-02-2024"), None, false), entry("b.jpg", Some("02-01-2023"), None, false)],
    };
    assert_eq!(
        groups(&a),
        vec![("02-01-2023".to_string(), vec!["b.jpg".to_string()]), ("01-02-2024".to_string(), vec!["a.jpg".to_string()])]
    );
}

#[test]
fn corrections_count_and_invalid_or_undated_are_left_out() {
    let a = Annotations {
        files: vec![
            entry("a.jpg", Some("01-01-2024"), Some("05-05-2020"), false),
            entry("b.jpg", Some("01-01-2024"), None, true),
            entry("c.jpg", None, None, false),
            entry("d.jpg", None, Some("05-05-2020"), false),
        ],
    };
    assert_eq!(groups(&a), vec![("05-05-2020".to_string(), vec!["a.jpg".to_string(), "d.jpg".to_string()])]);
    assert!(groups(&Annotations::new()).is_empty());
}

#[test]
fn same_day_written_differently_is_ordered_by_text() {
    let a = Annotations {
        files: vec![entry("a.jpg", Some("1-2-2024"), None, false), entry("b.jpg", Some("01-02-2024"), None, false)],
    };
    assert_eq!(
        groups(&a),
        vec![("01-02-2024".to_string(), vec!["b.jpg".to_string()]), ("1-2-2024".to_string(), vec!["a.jpg".to_string()])]
    );
}

fn caps(v: &[Option<&str>]) -> Option<Vec<Option<String>>> {
    Some(v.iter().map(|x| x.map(|s| s.to_string())).collect())
}

#[test]
fn date_from_captures_prefers_a_valid_four_digit_match() {
    let full = caps(&[Some("7/8/2022"), Some("7"), Some("8"), Some("2022")]);
    let short = caps(&[Some("1-2-24"), Some("1"), Some("2"), Some("24")]);
    assert_eq!(date_from_captures(full, short.clone()), Some("07-08-2022".to_string()));
    let bad_full = caps(&[Some("40/8/2022"), Some("40"), Some("8"), Some("2022")]);
    assert_eq!(date_from_captures(bad_full, short.clone()), Some("01-02-2024".to_string()));
    assert_eq!(date_from_captures(None, short), Some("01-02-2024".to_string()));
    assert_eq!(date_from_captures(None, None), None);
    assert_eq!(date_from_captures(caps(&[Some("x"), None, Some("1"), Some("2")]), None), None);
    assert_eq!(date_from_captures(caps(&[Some("x"), Some("+3"), Some("04"), Some("1999")]), None), Some("03-04-1999".to_string()));
}
