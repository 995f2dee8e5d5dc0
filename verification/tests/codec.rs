use btr::category::parse_categories;
use btr::dates::Date;
use btr::error::BtrErrorKind;
use btr::period::Period;
use btr::record::ExpenseRecord;
use btr::sheet::{ExpenseSheet, decode_sheet, encode_sheet};
use btr::state::{TrackerState, decode_state, encode_state};

fn sample_sheet() -> ExpenseSheet {
    let period = Period::month(9, 2025).unwrap();
    let records = vec![
        ExpenseRecord::new("groceries".to_string(), 1250, Date { year: 2025, month: 9, day: 8 }),
        ExpenseRecord::new("transport".to_string(), 315, Date { year: 2025, month: 9, day: 12 }),
    ];
    ExpenseSheet::new("09-2025".to_string(), period, records)
}

fn sheets_equal(a: &ExpenseSheet, b: &ExpenseSheet) -> bool {
    if a.name() != b.name() || a.period() != b.period() {
        return false;
    }
    if a.expenses().len() != b.expenses().len() {
        return false;
    }
    for (x, y) in a.expenses().iter().zip(b.expenses().iter()) {
        if x.category() != y.category() || x.amount() != y.amount() || x.logged_on()
            != y.logged_on() {
            return false;
        }
    }
    true
}

#[test]
fn sheet_round_trip_with_records() {
    let sheet = sample_sheet();
    let text = encode_sheet(&sheet);
    let back = decode_sheet(text.as_str()).unwrap();
    assert!(sheets_equal(&sheet, &back));
}

#[test]
fn empty_sheet_round_trip() {
    let period = Period::year(2025).unwrap();
    let sheet = ExpenseSheet::new("2025".to_string(), period, Vec::new());
    let text = encode_sheet(&sheet);
    let back = decode_sheet(text.as_str()).unwrap();
    assert!(sheets_equal(&sheet, &back));
    assert_eq!(back.expenses().len(), 0);
}

#[test]
fn sheet_name_with_escapes_round_trips() {
    let period = Period::month(1, 2025).unwrap();
    let name = "odd\\name\nwith breaks".to_string();
    let records = vec![
        ExpenseRecord::new(
            "cafe\n&\\bar".to_string(),
            10,
            Date { year: 2025, month: 1, day: 2 },
        ),
    ];
    let sheet = ExpenseSheet::new(name.clone(), period, records);
    let text = encode_sheet(&sheet);
    let back = decode_sheet(text.as_str()).unwrap();
    assert_eq!(back.name(), &name);
    assert_eq!(back.expenses()[0].category(), "cafe\n&\\bar");
}

#[test]
fn sheet_encoding_is_line_based() {
    let sheet = sample_sheet();
    let text = encode_sheet(&sheet);
    let lines: Vec<&str> = text.split('\n').collect();
    assert_eq!(lines[0], "btr-sheet-1");
    assert_eq!(lines[1], "09-2025");
    assert_eq!(lines[2], "2025");
    assert_eq!(lines[3], "9");
    assert_eq!(lines[4], "1");
    assert_eq!(lines.len(), 8 + 5 * 2);
}

#[test]
fn decode_rejects_wrong_header() {
    let e = decode_sheet("not-a-sheet\nx\n1\n1\n1\n1\n1\n1").unwrap_err();
    assert_eq!(e.kind(), BtrErrorKind::InvalidData);
}

#[test]
fn decode_rejects_truncated_text() {
    let e = decode_sheet("btr-sheet-1\nx\n2025\n9\n1").unwrap_err();
    assert_eq!(e.kind(), BtrErrorKind::InvalidData);
}

#[test]
fn decode_rejects_invalid_date() {
    // The 31st of September does not exist.
    let e = decode_sheet("btr-sheet-1\nx\n2025\n9\n31\n2025\n9\n30").unwrap_err();
    assert_eq!(e.kind(), BtrErrorKind::InvalidData);
    // The 30th of February of a leap year does not exist either.
    let e2 = decode_sheet("btr-sheet-1\nx\n2024\n2\n30\n2024\n3\n1").unwrap_err();
    assert_eq!(e2.kind(), BtrErrorKind::InvalidData);
}

#[test]
fn decode_rejects_start_after_end() {
    let e = decode_sheet("btr-sheet-1\nx\n2025\n9\n30\n2025\n9\n1").unwrap_err();
    assert_eq!(e.kind(), BtrErrorKind::InvalidData);
}

#[test]
fn decode_rejects_partial_record() {
    let e = decode_sheet("btr-sheet-1\nx\n2025\n9\n1\n2025\n9\n30\ncat\n100").unwrap_err();
    assert_eq!(e.kind(), BtrErrorKind::InvalidData);
}

#[test]
fn decode_accepts_a_handwritten_sheet() {
    let text = "btr-sheet-1\nmarch\n2025\n3\n1\n2025\n3\n31\nrent\n95000\n2025\n3\n1";
    let sheet = decode_sheet(text).unwrap();
    assert_eq!(sheet.name(), "march");
    assert_eq!(sheet.expenses().len(), 1);
    assert_eq!(sheet.expenses()[0].amount(), 95000);
    assert_eq!(sheet.expenses()[0].logged_on(), Date { year: 2025, month: 3, day: 1 });
}

#[test]
fn state_round_trip() {
    let mut st = TrackerState::new();
    st.selected_sheet = Some("/home/u/.btr/sheets/09-2025.btr".to_string());
    st.add_cmd_to_history("add expense".to_string());
    st.add_cmd_to_history("show sheets".to_string());
    let text = encode_state(&st);
    let back = decode_state(text.as_str());
    assert_eq!(back.selected_sheet, st.selected_sheet);
    assert_eq!(back.cmd_history, st.cmd_history);
}

#[test]
fn state_round_trip_without_selection() {
    let st = TrackerState::new();
    let text = encode_state(&st);
    let back = decode_state(text.as_str());
    assert_eq!(back.selected_sheet, None);
    assert!(back.cmd_history.is_empty());
}

#[test]
fn fresh_state_file_reads_as_default() {
    let st = decode_state("");
    assert_eq!(st.selected_sheet, None);
    assert!(st.cmd_history.is_empty());
}

#[test]
fn malformed_state_file_reads_as_default() {
    for text in ["garbage", "btr-state-1", "btr-state-1\n?bad", "btr-state-1\n+trailing\\"] {
        let st = decode_state(text);
        assert_eq!(st.selected_sheet, None);
        assert!(st.cmd_history.is_empty());
    }
}

#[test]
fn history_deduplicates_against_previous_entry_only() {
    let mut st = TrackerState::new();
    st.add_cmd_to_history("a".to_string());
    st.add_cmd_to_history("a".to_string());
    st.add_cmd_to_history("b".to_string());
    st.add_cmd_to_history("a".to_string());
    let h: Vec<&str> = st.cmd_history.iter().map(|s| s.as_str()).collect();
    assert_eq!(h, vec!["a", "b", "a"]);
}

#[test]
fn history_is_capped_at_one_hundred() {
    let mut st = TrackerState::new();
    for i in 0..130 {
        st.add_cmd_to_history(format!("cmd {}", i));
    }
    assert_eq!(st.cmd_history.len(), 100);
    assert_eq!(st.cmd_history.front().unwrap(), "cmd 30");
    assert_eq!(st.cmd_history.back().unwrap(), "cmd 129");
}

#[test]
fn categories_file_parses() {
    let text = "btr-categories-1\nRent\n+Monthly rent\nMisc\n-";
    let cats = parse_categories(text).unwrap();
    assert_eq!(cats.len(), 2);
    assert_eq!(cats[0].name, "Rent");
    assert_eq!(cats[0].description.as_deref(), Some("Monthly rent"));
    assert_eq!(cats[1].name, "Misc");
    assert_eq!(cats[1].description, None);
}

#[test]
fn categories_file_with_bad_shape_is_invalid_data() {
    for text in ["nope", "btr-categories-1\nRent", "btr-categories-1\nRent\n?Monthly"] {
        let e = parse_categories(text).unwrap_err();
        assert_eq!(e.kind(), BtrErrorKind::InvalidData);
    }
}
