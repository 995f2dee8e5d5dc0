use btr::config::{StateEdit, TrackerConfig};
use btr::dates::Date;
use btr::error::{BtrError, BtrErrorKind, IoErrorKind};
use btr::manager::{
    CreateFlow, OverwriteAnswer, TrackerManager, create_sheet_flow, get_sheet_list,
    parse_overwrite_answer,
};
use btr::paths;
use btr::period::Period;
use btr::record::ExpenseRecord;
use btr::sheet::{SheetEdit, decode_sheet};
use btr::state::decode_state;

fn fresh_manager() -> TrackerManager {
    let config = TrackerConfig::new(None, "", "/data/btr/state".to_string()).unwrap();
    TrackerManager::new(config, "/home/u/.btr/sheets".to_string(), None)
}

#[test]
fn default_categories_are_used_without_a_categories_file() {
    let config = TrackerConfig::new(None, "", "/data/btr/state".to_string()).unwrap();
    let cats = config.expenses();
    assert!(cats.len() >= 3);
    assert_eq!(cats[0].name, "Groceries");
    assert_eq!(cats[1].name, "Cafe && Bar");
    assert_eq!(cats[2].name, "Transport");
}

#[test]
fn configured_categories_replace_the_defaults() {
    let text = "btr-categories-1\nRent\n+Monthly rent\nFun\n-";
    let config = TrackerConfig::new(Some(text), "", "s".to_string()).unwrap();
    assert_eq!(config.expenses().len(), 2);
    assert_eq!(config.expenses()[0].name, "Rent");
}

#[test]
fn unparseable_categories_file_is_invalid_data() {
    let e = TrackerConfig::new(Some("garbage"), "", "s".to_string()).unwrap_err();
    assert_eq!(e.kind(), BtrErrorKind::InvalidData);
}

#[test]
fn categories_path_reads_the_pointer() {
    assert_eq!(btr::config::categories_path("", "/home/u").unwrap(), None);
    assert_eq!(btr::config::categories_path("  \n", "/home/u").unwrap(), None);
    assert_eq!(
        btr::config::categories_path("categories=/etc/cats.btr", "/home/u").unwrap(),
        Some("/etc/cats.btr".to_string())
    );
    assert_eq!(
        btr::config::categories_path("categories=~/cats.btr", "/home/u").unwrap(),
        Some("/home/u/cats.btr".to_string())
    );
    let e = btr::config::categories_path("what is this", "/home/u").unwrap_err();
    assert_eq!(e.kind(), BtrErrorKind::InvalidData);
}

#[test]
fn new_sheet_demands_exclusive_creation_unless_truncating() {
    let manager = fresh_manager();
    let period = Period::month(9, 2025).unwrap();
    let req = manager.new_sheet("09-2025", period, false);
    assert!(req.create_new);
    assert_eq!(req.path, "/home/u/.btr/sheets/09-2025.btr");
    let req2 = manager.new_sheet("09-2025", period, true);
    assert!(!req2.create_new);
    assert_eq!(req2.path, req.path);
    assert_eq!(req2.content, req.content);
}

#[test]
fn new_sheet_content_is_a_fresh_empty_sheet() {
    let manager = fresh_manager();
    let period = Period::month(9, 2025).unwrap();
    let req = manager.new_sheet("09-2025", period, true);
    let sheet = decode_sheet(req.content.as_str()).unwrap();
    assert_eq!(sheet.name(), "09-2025");
    assert_eq!(sheet.period(), period);
    assert_eq!(sheet.expenses().len(), 0);
}

#[test]
fn update_without_active_sheet_fails() {
    let mut manager = fresh_manager();
    let record = ExpenseRecord::new(
        "Groceries".to_string(),
        1250,
        Date { year: 2025, month: 9, day: 8 },
    );
    let e = manager.update_active_sheet(SheetEdit::AddExpense(record)).unwrap_err();
    assert_eq!(e.kind(), BtrErrorKind::ActiveSheetNotSelected);
}

#[test]
fn update_persists_the_mutation() {
    let mut manager = fresh_manager();
    let period = Period::month(9, 2025).unwrap();
    let req = manager.new_sheet("09-2025", period, false);
    manager.set_active_sheet("09-2025", req.content.as_str()).unwrap();
    let record = ExpenseRecord::new(
        "Groceries".to_string(),
        1250,
        Date { year: 2025, month: 9, day: 8 },
    );
    let write = manager.update_active_sheet(SheetEdit::AddExpense(record)).unwrap();
    assert_eq!(write.path, "/home/u/.btr/sheets/09-2025.btr");
    // Re-reading the written content shows the mutation.
    let reread = decode_sheet(write.content.as_str()).unwrap();
    assert_eq!(reread.expenses().len(), 1);
    assert_eq!(reread.expenses()[0].category(), "Groceries");
    assert_eq!(reread.expenses()[0].amount(), 1250);
}

#[test]
fn removing_an_expense_persists_too() {
    let mut manager = fresh_manager();
    let period = Period::month(9, 2025).unwrap();
    let req = manager.new_sheet("09-2025", period, false);
    manager.set_active_sheet("09-2025", req.content.as_str()).unwrap();
    let r1 = ExpenseRecord::new("a".to_string(), 100, Date { year: 2025, month: 9, day: 1 });
    let r2 = ExpenseRecord::new("b".to_string(), 200, Date { year: 2025, month: 9, day: 2 });
    manager.update_active_sheet(SheetEdit::AddExpense(r1)).unwrap();
    manager.update_active_sheet(SheetEdit::AddExpense(r2)).unwrap();
    let write = manager.update_active_sheet(SheetEdit::RemoveExpense(0)).unwrap();
    let reread = decode_sheet(write.content.as_str()).unwrap();
    assert_eq!(reread.expenses().len(), 1);
    assert_eq!(reread.expenses()[0].category(), "b");
}

#[test]
fn selecting_a_sheet_persists_the_selection() {
    let mut manager = fresh_manager();
    let period = Period::month(9, 2025).unwrap();
    let req = manager.new_sheet("09-2025", period, false);
    let state_write = manager.set_active_sheet("09-2025", req.content.as_str()).unwrap();
    assert_eq!(state_write.path, "/data/btr/state");
    let state = decode_state(state_write.content.as_str());
    assert_eq!(state.selected_sheet, Some("/home/u/.btr/sheets/09-2025.btr".to_string()));
    assert!(manager.get_active_sheet().is_some());
}

#[test]
fn selecting_unparseable_text_is_invalid_data() {
    let mut manager = fresh_manager();
    let e = manager.set_active_sheet("09-2025", "not a sheet").unwrap_err();
    assert_eq!(e.kind(), BtrErrorKind::InvalidData);
    assert!(manager.get_active_sheet().is_none());
}

#[test]
fn clearing_the_selection_persists() {
    let mut manager = fresh_manager();
    let period = Period::month(9, 2025).unwrap();
    let req = manager.new_sheet("09-2025", period, false);
    manager.set_active_sheet("09-2025", req.content.as_str()).unwrap();
    let write = manager.clear_active_sheet();
    let state = decode_state(write.content.as_str());
    assert_eq!(state.selected_sheet, None);
    assert!(manager.get_active_sheet().is_none());
}

#[test]
fn startup_restores_the_selected_sheet() {
    let manager0 = fresh_manager();
    let period = Period::month(9, 2025).unwrap();
    let req = manager0.new_sheet("09-2025", period, false);
    // A state file naming a selection, and the sheet file it points at.
    let state_text = "btr-state-1\n+/home/u/.btr/sheets/09-2025.btr";
    let config = TrackerConfig::new(None, state_text, "/data/btr/state".to_string()).unwrap();
    let manager = TrackerManager::new(
        config,
        "/home/u/.btr/sheets".to_string(),
        Some(req.content.as_str()),
    );
    assert_eq!(manager.get_active_sheet().as_ref().unwrap().name(), "09-2025");
}

#[test]
fn stale_selection_is_tolerated_at_startup() {
    let state_text = "btr-state-1\n+/home/u/.btr/sheets/gone.btr";
    let config = TrackerConfig::new(None, state_text, "/data/btr/state".to_string()).unwrap();
    // The file the selection points at could not be read.
    let manager = TrackerManager::new(config, "/home/u/.btr/sheets".to_string(), None);
    assert!(manager.get_active_sheet().is_none());
    // Or it holds text that decodes as no sheet.
    let config2 = TrackerConfig::new(None, state_text, "/data/btr/state".to_string()).unwrap();
    let manager2 = TrackerManager::new(
        config2,
        "/home/u/.btr/sheets".to_string(),
        Some("corrupted"),
    );
    assert!(manager2.get_active_sheet().is_none());
}

#[test]
fn recording_commands_persists_the_history() {
    let mut manager = fresh_manager();
    manager.record_command("add expense".to_string());
    let write = manager.record_command("show sheets".to_string());
    let state = decode_state(write.content.as_str());
    let h: Vec<&str> = state.cmd_history.iter().map(|s| s.as_str()).collect();
    assert_eq!(h, vec!["add expense", "show sheets"]);
}

#[test]
fn update_state_applies_and_persists_each_edit() {
    let mut config = TrackerConfig::new(None, "", "/data/btr/state".to_string()).unwrap();
    let w1 = config.update_state(StateEdit::Select(Some("p".to_string())));
    assert_eq!(decode_state(w1.content.as_str()).selected_sheet, Some("p".to_string()));
    let w2 = config.update_state(StateEdit::Select(None));
    assert_eq!(decode_state(w2.content.as_str()).selected_sheet, None);
    assert_eq!(config.load_active_sheet(), None);
}

#[test]
fn fresh_environment_scenario() {
    // A fresh environment: nothing selected, default categories.
    let mut manager = fresh_manager();
    assert!(manager.get_active_sheet().is_none());
    // `add sheet` with no explicit name: the current month's sheet,
    // named `<zero-padded-month>-<year>`.
    let name = btr::interact::default_sheet_name(2, 2024);
    assert_eq!(name, "02-2024");
    let period = Period::current_month().unwrap();
    let today = btr::clock::today_date();
    let auto_name = btr::interact::default_sheet_name(today.month, today.year);
    let req = manager.new_sheet(auto_name.as_str(), period, false);
    assert!(req.create_new);
    let created = decode_sheet(req.content.as_str()).unwrap();
    assert_eq!(created.expenses().len(), 0);
    assert_eq!(created.period(), period);
    // `select <that name>` makes it active and persists the selection.
    let state_write = manager.set_active_sheet(auto_name.as_str(), req.content.as_str()).unwrap();
    let state = decode_state(state_write.content.as_str());
    assert_eq!(
        state.selected_sheet,
        Some(format!("/home/u/.btr/sheets/{}.btr", auto_name))
    );
    // `add expense` appends one record and re-persists the sheet.
    let cents = btr::record::parse_amount("12.5").unwrap();
    assert_eq!(cents, 1250);
    let write = manager
        .add_expense_to_active_sheet("Groceries".to_string(), cents)
        .unwrap();
    let reread = decode_sheet(write.content.as_str()).unwrap();
    assert_eq!(reread.expenses().len(), 1);
    assert_eq!(reread.expenses()[0].amount(), 1250);
    assert_eq!(reread.expenses()[0].category(), "Groceries");
}

#[test]
fn create_flow_asks_only_on_already_exists() {
    assert!(matches!(create_sheet_flow(Ok(())), CreateFlow::Done));
    assert!(matches!(
        create_sheet_flow(Err(BtrError::Io(IoErrorKind::AlreadyExists))),
        CreateFlow::AskOverwrite
    ));
    match create_sheet_flow(Err(BtrError::Io(IoErrorKind::NotFound))) {
        CreateFlow::Fail(e) => assert_eq!(e.kind(), BtrErrorKind::Io(IoErrorKind::NotFound)),
        _ => panic!("expected the failure to propagate"),
    }
    match create_sheet_flow(Err(BtrError::ActiveSheetNotSelected)) {
        CreateFlow::Fail(e) => assert_eq!(e.kind(), BtrErrorKind::ActiveSheetNotSelected),
        _ => panic!("expected the failure to propagate"),
    }
}

#[test]
fn overwrite_answers() {
    assert_eq!(parse_overwrite_answer("y"), OverwriteAnswer::Yes);
    assert_eq!(parse_overwrite_answer(" Y \n"), OverwriteAnswer::Yes);
    assert_eq!(parse_overwrite_answer("n"), OverwriteAnswer::No);
    assert_eq!(parse_overwrite_answer("N"), OverwriteAnswer::No);
    assert_eq!(parse_overwrite_answer("yes"), OverwriteAnswer::Unrecognized);
    assert_eq!(parse_overwrite_answer(""), OverwriteAnswer::Unrecognized);
}

#[test]
fn sheet_list_strips_the_extension() {
    let entries = vec![
        "09-2025.btr".to_string(),
        "notes.txt".to_string(),
        "2024.btr".to_string(),
        ".btr".to_string(),
    ];
    let names = get_sheet_list(&entries);
    assert_eq!(names, vec!["09-2025".to_string(), "2024".to_string()]);
}

#[test]
fn paths_are_derived_from_the_roots() {
    assert_eq!(paths::btr_dir("/home/u"), "/home/u/.btr");
    assert_eq!(paths::sheets_dir("/home/u"), "/home/u/.btr/sheets");
    assert_eq!(paths::cfg_file("/home/u"), "/home/u/.btr/cfg.btr");
    assert_eq!(paths::state_dir("/data"), "/data/btr");
    assert_eq!(paths::state_file("/data"), "/data/btr/state");
    assert_eq!(paths::sheet_file("/s", "09-2025"), "/s/09-2025.btr");
}

#[test]
fn error_messages() {
    assert_eq!(BtrError::Io(IoErrorKind::AlreadyExists).message(), "IO error: already exists");
    assert_eq!(BtrError::InvalidData(None).message(), "Invalid data");
    assert_eq!(
        BtrError::InvalidData(Some("bad".to_string())).message(),
        "Invalid data: bad"
    );
    assert_eq!(
        BtrError::InvalidPeriod("backwards".to_string()).message(),
        "Invalid period: backwards"
    );
    assert_eq!(
        BtrError::ActiveSheetNotSelected.message(),
        "No active sheet is selected"
    );
}
