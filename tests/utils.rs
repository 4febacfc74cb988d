use chrono::{Datelike, TimeZone};
use uad_core::date::{generate_backup_name, CalendarDate};
use uad_core::elapsed::format_elapsed;
use uad_core::export::{backup_csv, backup_table, selection_text};
use uad_core::reconcile::{fetch_packages, reconcile_listing};
use uad_core::theme::{string_to_theme, Theme};
use uad_core::types::{
    Package, PackageHashMap, PackageRow, PackageState, Removal, UadList, DEFAULT_DESCRIPTION,
};

fn s(v: &str) -> String {
    v.to_string()
}

fn names(v: &[&str]) -> Vec<String> {
    v.iter().map(|x| x.to_string()).collect()
}

fn entry(id: &str, description: &str, list: UadList, removal: Removal) -> Package {
    Package { id: s(id), description: s(description), list, removal }
}

fn row(name: &str, state: PackageState, description: &str, selected: bool) -> PackageRow {
    PackageRow::new(name, state, description, UadList::Unlisted, Removal::Unlisted, selected, false)
}

fn row_names(rows: &[PackageRow]) -> Vec<String> {
    rows.iter().map(|r| r.name.clone()).collect()
}

#[test]
fn backup_name() {
    let t = chrono::Utc.timestamp_millis_opt(0).unwrap();
    let d = CalendarDate::new(t.year(), t.month(), t.day()).unwrap();
    assert_eq!(generate_backup_name(&d), "uninstalled_packages_19700101.csv".to_string());
}

#[test]
fn backup_name_pads_month_and_day() {
    let d = CalendarDate::new(2024, 2, 29).unwrap();
    assert_eq!(generate_backup_name(&d), "uninstalled_packages_20240229.csv");
    let d = CalendarDate::new(987, 3, 5).unwrap();
    assert_eq!(generate_backup_name(&d), "uninstalled_packages_09870305.csv");
}

#[test]
fn calendar_date_rejects_invalid() {
    assert!(CalendarDate::new(2023, 2, 29).is_none());
    assert!(CalendarDate::new(1900, 2, 29).is_none());
    assert!(CalendarDate::new(2000, 2, 29).is_some());
    assert!(CalendarDate::new(2024, 4, 31).is_none());
    assert!(CalendarDate::new(2024, 13, 1).is_none());
    assert!(CalendarDate::new(2024, 1, 0).is_none());
    assert!(CalendarDate::new(10000, 1, 1).is_none());
    assert!(CalendarDate::new(-1, 1, 1).is_none());
}

#[test]
fn sorted_case_insensitively() {
    let store = PackageHashMap::new(vec![]);
    let rows = fetch_packages(&store, "zeta\nAlpha\nbeta", &vec![], &vec![]);
    assert_eq!(row_names(&rows), names(&["Alpha", "beta", "zeta"]));
}

#[test]
fn sort_is_stable_for_equal_lowercase_names() {
    let store = PackageHashMap::new(vec![]);
    let rows = reconcile_listing(&store, &names(&["b", "FOO", "a", "foo", "Foo"]), &vec![], &vec![]);
    assert_eq!(row_names(&rows), names(&["a", "b", "FOO", "foo", "Foo"]));
}

#[test]
fn every_line_gives_one_record() {
    let store = PackageHashMap::new(vec![entry("com.other", "x", UadList::Oem, Removal::Expert)]);
    let rows = fetch_packages(&store, "com.a\ncom.b\ncom.c\n", &vec![], &vec![]);
    assert_eq!(row_names(&rows), names(&["com.a", "com.b", "com.c"]));
}

#[test]
fn empty_listing_gives_no_records() {
    let store = PackageHashMap::new(vec![entry("com.a", "x", UadList::Oem, Removal::Expert)]);
    let rows = fetch_packages(&store, "", &names(&["com.a"]), &vec![]);
    assert!(rows.is_empty());
}

#[test]
fn enabled_takes_precedence() {
    let store = PackageHashMap::new(vec![]);
    let rows = fetch_packages(
        &store,
        "both\ndis\nen\nnone",
        &names(&["both", "en"]),
        &names(&["both", "dis"]),
    );
    let states: Vec<PackageState> = rows.iter().map(|r| r.state).collect();
    assert_eq!(
        states,
        vec![
            PackageState::Enabled,
            PackageState::Disabled,
            PackageState::Enabled,
            PackageState::Uninstalled
        ]
    );
}

#[test]
fn classification_and_defaults() {
    let store = PackageHashMap::new(vec![
        entry("known", "Known package", UadList::Google, Removal::Recommended),
        entry("blank", "", UadList::Aosp, Removal::Unsafe),
    ]);
    let rows = fetch_packages(&store, "unknown\nknown\nblank", &vec![], &vec![]);
    assert_eq!(rows[0].name, "blank");
    assert_eq!(rows[0].description, DEFAULT_DESCRIPTION);
    assert_eq!(rows[0].uad_list, UadList::Aosp);
    assert_eq!(rows[0].removal, Removal::Unsafe);
    assert_eq!(rows[1].name, "known");
    assert_eq!(rows[1].description, "Known package");
    assert_eq!(rows[1].uad_list, UadList::Google);
    assert_eq!(rows[1].removal, Removal::Recommended);
    assert_eq!(rows[2].name, "unknown");
    assert_eq!(rows[2].description, "[No description]: CONTRIBUTION WELCOMED");
    assert_eq!(rows[2].uad_list, UadList::Unlisted);
    assert_eq!(rows[2].removal, Removal::Unlisted);
    assert!(rows.iter().all(|r| !r.selected && !r.marked));
}

#[test]
fn later_store_entry_wins() {
    let store = PackageHashMap::new(vec![
        entry("p", "first", UadList::Oem, Removal::Expert),
        entry("p", "second", UadList::Misc, Removal::Advanced),
    ]);
    let found = store.get("p").unwrap();
    assert_eq!(found.description, "second");
    assert_eq!(found.list, UadList::Misc);
    assert!(store.get("q").is_none());
}

#[test]
fn backup_keeps_only_uninstalled() {
    let rows = vec![
        row("a", PackageState::Uninstalled, "desc a", false),
        row("b", PackageState::Enabled, "desc b", false),
    ];
    let table = backup_table(&rows);
    assert_eq!(
        table,
        vec![names(&["Package Name", "Description"]), names(&["a", "desc a"])]
    );
    let bytes = backup_csv(&rows).unwrap();
    assert_eq!(String::from_utf8(bytes).unwrap(), "Package Name,Description\na,desc a\n");
}

#[test]
fn backup_replaces_newlines_in_descriptions() {
    let rows = vec![row("a", PackageState::Uninstalled, "line one\nline two\n", false)];
    let table = backup_table(&rows);
    assert_eq!(table[1], names(&["a", "line one line two "]));
    let text = String::from_utf8(backup_csv(&rows).unwrap()).unwrap();
    assert_eq!(text, "Package Name,Description\na,line one line two \n");
    assert_eq!(text.lines().count(), 2);
}

#[test]
fn backup_quotes_fields_with_commas() {
    let rows = vec![row("a", PackageState::Uninstalled, "x, y", false)];
    let text = String::from_utf8(backup_csv(&rows).unwrap()).unwrap();
    assert_eq!(text, "Package Name,Description\na,\"x, y\"\n");
}

#[test]
fn backup_of_no_records_is_header_only() {
    let text = String::from_utf8(backup_csv(&vec![]).unwrap()).unwrap();
    assert_eq!(text, "Package Name,Description\n");
}

#[test]
fn selection_keeps_only_selected() {
    let rows = vec![
        row("a", PackageState::Uninstalled, "", true),
        row("b", PackageState::Enabled, "", false),
    ];
    assert_eq!(selection_text(&rows), "a");
}

#[test]
fn selection_joins_with_newlines_whatever_the_state() {
    let rows = vec![
        row("a", PackageState::Enabled, "", true),
        row("b", PackageState::Disabled, "", false),
        row("c", PackageState::Disabled, "", true),
        row("d", PackageState::Uninstalled, "", true),
    ];
    assert_eq!(selection_text(&rows), "a\nc\nd");
    assert_eq!(selection_text(&vec![row("b", PackageState::Enabled, "", false)]), "");
}

#[test]
fn themes_by_name() {
    assert_eq!(string_to_theme("Dark"), Theme::Dark);
    assert_eq!(string_to_theme("Light"), Theme::Light);
    assert_eq!(string_to_theme("Lupin"), Theme::Lupin);
    assert_eq!(string_to_theme("Auto (Dark)"), Theme::Auto);
    assert_eq!(string_to_theme("Auto"), Theme::Auto);
    assert_eq!(string_to_theme("dark"), Theme::default());
    assert_eq!(string_to_theme(""), Theme::Lupin);
}

#[test]
fn elapsed_phrases() {
    assert_eq!(format_elapsed(0), "0 min(s) ago");
    assert_eq!(format_elapsed(59), "0 min(s) ago");
    assert_eq!(format_elapsed(125), "2 min(s) ago");
    assert_eq!(format_elapsed(3600), "1 hour(s) ago");
    assert_eq!(format_elapsed(86399), "23 hour(s) ago");
    assert_eq!(format_elapsed(3 * 86400 + 5), "3 day(s) ago");
    assert_eq!(format_elapsed(-7200), "-2 hour(s) ago");
    assert_eq!(format_elapsed(-30), "0 min(s) ago");
    assert_eq!(format_elapsed(i64::MIN), "-106751991167300 day(s) ago");
}

#[test]
fn listing_lines_end_at_crlf_and_keep_empty_lines() {
    let store = PackageHashMap::new(vec![]);
    let rows = fetch_packages(&store, "b\r\na\n\nc\n", &vec![], &vec![]);
    assert_eq!(row_names(&rows), names(&["", "a", "b", "c"]));
    assert_eq!(rows[0].state, PackageState::Uninstalled);
}

#[test]
fn duplicate_lines_give_duplicate_records() {
    let store = PackageHashMap::new(vec![]);
    let rows = fetch_packages(&store, "x\nx", &names(&["x"]), &vec![]);
    assert_eq!(row_names(&rows), names(&["x", "x"]));
    assert!(rows.iter().all(|r| r.state == PackageState::Enabled));
}

#[test]
fn backup_doubles_quotes_and_quotes_carriage_returns() {
    let rows = vec![
        row("q", PackageState::Uninstalled, "say \"hi\"", false),
        row("r", PackageState::Uninstalled, "a\rb", false),
    ];
    let text = String::from_utf8(backup_csv(&rows).unwrap()).unwrap();
    assert_eq!(text, "Package Name,Description\nq,\"say \"\"hi\"\"\"\nr,\"a\rb\"\n");
}

#[test]
fn backup_encodes_non_ascii_as_utf8() {
    let rows = vec![row("é", PackageState::Uninstalled, "ünïcode", false)];
    let bytes = backup_csv(&rows).unwrap();
    assert_eq!(bytes, "Package Name,Description\né,ünïcode\n".as_bytes().to_vec());
}

#[test]
fn last_line_keeps_a_lone_carriage_return() {
    let store = PackageHashMap::new(vec![]);
    let rows = fetch_packages(&store, "a\r", &vec![], &vec![]);
    assert_eq!(row_names(&rows), names(&["a\r"]));
}
