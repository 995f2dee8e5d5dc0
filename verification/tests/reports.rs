use btr::dates::Date;
use btr::record::ExpenseRecord;
use btr::report::{
    CategoryStat, category_lines, category_totals, date_text, expense_lines, grand_total,
    sheet_list_lines, sort_stats_desc, summary_row, total_row,
};
use btr::text::chars_to_string;

fn rec(cat: &str, cents: u64, day: u8) -> ExpenseRecord {
    ExpenseRecord::new(cat.to_string(), cents, Date { year: 2025, month: 9, day })
}

#[test]
fn totals_group_by_category_in_first_appearance_order() {
    let records = vec![
        rec("food", 1000, 1),
        rec("bus", 250, 2),
        rec("food", 500, 3),
        rec("bus", 250, 4),
        rec("rent", 90000, 5),
    ];
    let stats = category_totals(&records);
    assert_eq!(stats.len(), 3);
    assert_eq!(stats[0].name, "food");
    assert_eq!(stats[0].total_cents, 1500);
    assert_eq!(stats[0].count, 2);
    assert_eq!(stats[1].name, "bus");
    assert_eq!(stats[1].total_cents, 500);
    assert_eq!(stats[1].count, 2);
    assert_eq!(stats[2].name, "rent");
    assert_eq!(stats[2].total_cents, 90000);
    assert_eq!(stats[2].count, 1);
    assert_eq!(grand_total(&records), 92000);
}

#[test]
fn sorting_is_by_total_descending() {
    let records = vec![rec("food", 1000, 1), rec("bus", 250, 2), rec("rent", 90000, 3)];
    let stats = sort_stats_desc(category_totals(&records));
    let names: Vec<&str> = stats.iter().map(|s| s.name.as_str()).collect();
    assert_eq!(names, vec!["rent", "food", "bus"]);
    assert!(stats[0].total_cents >= stats[1].total_cents);
    assert!(stats[1].total_cents >= stats[2].total_cents);
}

#[test]
fn summary_rows_carry_amounts_and_shares() {
    let stat = CategoryStat { name: "food".to_string(), total_cents: 1500, count: 2 };
    let row = summary_row(&stat, 6000);
    // 1500 of 6000 cents is 25.0 percent.
    assert_eq!(row, "food                     15.00 PLN        2        25.0%");
    assert_eq!(total_row(6000), "TOTAL                    60.00 PLN");
}

#[test]
fn summary_row_pads_and_formats_cents() {
    let stat = CategoryStat { name: "x".to_string(), total_cents: 7, count: 1 };
    let row = summary_row(&stat, 7);
    assert!(row.contains("0.07 PLN"));
    assert!(row.ends_with("100.0%"));
}

#[test]
fn sheet_listing_marks_the_active_sheet() {
    let names = vec!["09-2025".to_string(), "2024".to_string()];
    let active = "2024".to_string();
    let lines = sheet_list_lines(&names, Some(&active));
    assert_eq!(lines.len(), 2);
    assert_eq!(lines[0], ">  0. 09-2025");
    assert_eq!(lines[1], ">  1. 2024                 (ACTIVE)");
    let plain = sheet_list_lines(&names, None);
    assert_eq!(plain[1], ">  1. 2024");
}

#[test]
fn expense_listing_shows_each_record() {
    let records = vec![rec("food", 1250, 8)];
    let lines = expense_lines(&records);
    assert_eq!(lines.len(), 1);
    assert_eq!(lines[0], "> 0. food                    12.50 2025-09-08");
}

#[test]
fn category_listing_shows_names_and_descriptions() {
    let cats = btr::category::default_categories();
    let lines = category_lines(&cats);
    assert_eq!(lines.len(), 6);
    assert_eq!(lines[0], ">  Groceries");
    assert_eq!(lines[1], "   Groceries and dining");
    assert_eq!(lines[2], ">  Cafe && Bar");
}

#[test]
fn dates_render_zero_padded() {
    assert_eq!(chars_to_string(&date_text(Date { year: 2025, month: 9, day: 8 })), "2025-09-08");
    assert_eq!(chars_to_string(&date_text(Date { year: 985, month: 12, day: 31 })), "985-12-31");
    assert_eq!(chars_to_string(&date_text(Date { year: -44, month: 3, day: 15 })), "-44-03-15");
}
