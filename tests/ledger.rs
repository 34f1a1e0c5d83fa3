use ledger_module::{
    add_entry, category_totals_by_kind, category_totals_by_kind_in_range, delete_entry,
    entries_in_month, entries_in_range, list_entries, month_summary, parse_ym_range,
    summary_in_range, Entry, Kind, Ledger, LedgerError,
};

fn add(l: &mut Ledger, kind: Kind, amount: i64, category: &str, note: Option<&str>, at: &str) -> i64 {
    add_entry(l, kind, amount, category, note, at).expect("entry is valid").id
}

fn ids(v: &[Entry]) -> Vec<i64> {
    v.iter().map(|e| e.id).collect()
}

#[test]
fn kind_codes_round_trip() {
    assert_eq!(Kind::Expense.to_i64(), 0);
    assert_eq!(Kind::Income.to_i64(), 1);
    assert_eq!(Kind::from_i64(0), Kind::Expense);
    assert_eq!(Kind::from_i64(1), Kind::Income);
    assert_eq!(Kind::from_i64(7), Kind::Income);
    assert_eq!(Kind::from_i64(Kind::Expense.to_i64()), Kind::Expense);
    assert_eq!(Kind::from_i64(Kind::Income.to_i64()), Kind::Income);
}

#[test]
fn add_assigns_fresh_ids_and_keeps_fields() {
    let mut l = Ledger::new();
    let e = add_entry(&mut l, Kind::Expense, 1200, "food", Some("lunch"), "2024-05-01 12:00:00").unwrap();
    assert_eq!(e.id, 1);
    assert_eq!(e.kind, Kind::Expense);
    assert_eq!(e.amount, 1200);
    assert_eq!(e.category, "food");
    assert_eq!(e.note.as_deref(), Some("lunch"));
    assert_eq!(e.created_at, "2024-05-01 12:00:00");
    let f = add_entry(&mut l, Kind::Income, 5000, "salary", None, "2024-05-02 09:00:00").unwrap();
    assert_eq!(f.id, 2);
    assert_eq!(f.note, None);
    let listed = list_entries(&l);
    assert_eq!(listed.len(), 2);
    let new_ones: Vec<&Entry> = listed.iter().filter(|x| x.id == f.id).collect();
    assert_eq!(new_ones.len(), 1);
    assert_eq!(new_ones[0].kind, Kind::Income);
    assert_eq!(new_ones[0].amount, 5000);
    assert_eq!(new_ones[0].category, "salary");
}

#[test]
fn non_positive_amount_is_rejected_and_nothing_stored() {
    let mut l = Ledger::new();
    for amount in [0i64, -1, -5000, i64::MIN] {
        let r = add_entry(&mut l, Kind::Expense, amount, "food", None, "2024-05-01 12:00:00");
        assert_eq!(r.unwrap_err(), LedgerError::InvalidAmount);
    }
    assert!(list_entries(&l).is_empty());
    assert_eq!(l.next_id(), 1);
}

#[test]
fn empty_category_is_rejected() {
    let mut l = Ledger::new();
    let r = add_entry(&mut l, Kind::Income, 10, "", None, "2024-05-01 12:00:00");
    assert_eq!(r.unwrap_err(), LedgerError::InvalidCategory);
    assert!(list_entries(&l).is_empty());
}

#[test]
fn list_is_newest_first_with_ties_by_id() {
    let mut l = Ledger::new();
    let a = add(&mut l, Kind::Expense, 1, "a", None, "2024-01-05 10:00:00");
    let b = add(&mut l, Kind::Expense, 2, "b", None, "2024-03-01 08:00:00");
    let c = add(&mut l, Kind::Expense, 3, "c", None, "2024-01-05 10:00:00");
    let d = add(&mut l, Kind::Income, 4, "d", None, "2023-12-31 23:59:59");
    assert_eq!(ids(&list_entries(&l)), vec![b, c, a, d]);
}

#[test]
fn delete_missing_id_changes_nothing() {
    let mut l = Ledger::new();
    let a = add(&mut l, Kind::Expense, 100, "food", None, "2024-02-01 10:00:00");
    assert_eq!(delete_entry(&mut l, 99), 0);
    assert_eq!(ids(&list_entries(&l)), vec![a]);
}

#[test]
fn delete_existing_id_removes_it_and_ids_are_not_reused() {
    let mut l = Ledger::new();
    let a = add(&mut l, Kind::Expense, 100, "food", None, "2024-02-01 10:00:00");
    let b = add(&mut l, Kind::Expense, 200, "rent", None, "2024-02-02 10:00:00");
    assert_eq!(delete_entry(&mut l, b), 1);
    assert_eq!(ids(&list_entries(&l)), vec![a]);
    assert_eq!(delete_entry(&mut l, b), 0);
    let c = add(&mut l, Kind::Expense, 300, "fun", None, "2024-02-03 10:00:00");
    assert_eq!(c, 3);
}

#[test]
fn end_to_end_month_summary() {
    let mut l = Ledger::new();
    add(&mut l, Kind::Expense, 1200, "food", Some("lunch"), "2024-05-10 12:30:00");
    add(&mut l, Kind::Income, 5000, "salary", None, "2024-05-25 09:00:00");
    let s = month_summary(&l, "2024-05").unwrap();
    assert_eq!(s.month, "2024-05");
    assert_eq!(s.income, 5000);
    assert_eq!(s.expense, 1200);
    assert_eq!(s.balance, 3800);
    assert_eq!(s.income - s.expense, s.balance);
}

#[test]
fn month_without_entries_gives_zeros() {
    let mut l = Ledger::new();
    add(&mut l, Kind::Expense, 1200, "food", None, "2024-05-10 12:30:00");
    let s = month_summary(&l, "2024-06").unwrap();
    assert_eq!((s.income, s.expense, s.balance), (0, 0, 0));
    let s = month_summary(&Ledger::new(), "2024-05").unwrap();
    assert_eq!((s.income, s.expense, s.balance), (0, 0, 0));
}

#[test]
fn income_entry_raises_month_income_only() {
    let mut l = Ledger::new();
    add(&mut l, Kind::Expense, 700, "food", None, "2024-07-01 10:00:00");
    add(&mut l, Kind::Income, 300, "gift", None, "2024-07-02 10:00:00");
    let before = month_summary(&l, "2024-07").unwrap();
    add(&mut l, Kind::Income, 450, "salary", None, "2024-07-20 10:00:00");
    let after = month_summary(&l, "2024-07").unwrap();
    assert_eq!(after.income, before.income + 450);
    assert_eq!(after.expense, before.expense);
    assert_eq!(after.balance, 50);
}

#[test]
fn category_totals_tie_broken_by_name() {
    let mut l = Ledger::new();
    add(&mut l, Kind::Expense, 500, "food", None, "2024-04-01 10:00:00");
    add(&mut l, Kind::Expense, 300, "food", None, "2024-04-02 10:00:00");
    add(&mut l, Kind::Expense, 800, "rent", None, "2024-04-03 10:00:00");
    let rows = category_totals_by_kind(&l, "2024-04", Kind::Expense).unwrap();
    let got: Vec<(&str, i64)> = rows.iter().map(|r| (r.category.as_str(), r.total)).collect();
    assert_eq!(got, vec![("food", 800), ("rent", 800)]);
}

#[test]
fn category_totals_descending_and_filtered() {
    let mut l = Ledger::new();
    add(&mut l, Kind::Expense, 100, "fun", None, "2024-04-01 10:00:00");
    add(&mut l, Kind::Expense, 900, "rent", None, "2024-04-02 10:00:00");
    add(&mut l, Kind::Expense, 250, "food", None, "2024-04-03 10:00:00");
    add(&mut l, Kind::Expense, 250, "bus", None, "2024-04-04 10:00:00");
    add(&mut l, Kind::Income, 5000, "salary", None, "2024-04-25 10:00:00");
    add(&mut l, Kind::Expense, 10000, "rent", None, "2024-05-02 10:00:00");
    let rows = category_totals_by_kind(&l, "2024-04", Kind::Expense).unwrap();
    let got: Vec<(&str, i64)> = rows.iter().map(|r| (r.category.as_str(), r.total)).collect();
    assert_eq!(got, vec![("rent", 900), ("bus", 250), ("food", 250), ("fun", 100)]);
    let inc = category_totals_by_kind(&l, "2024-04", Kind::Income).unwrap();
    assert_eq!(inc.len(), 1);
    assert_eq!((inc[0].category.as_str(), inc[0].total), ("salary", 5000));
    assert!(category_totals_by_kind(&l, "2024-06", Kind::Expense).unwrap().is_empty());
}

#[test]
fn range_summary_is_inclusive() {
    let mut l = Ledger::new();
    add(&mut l, Kind::Expense, 1, "x", None, "2023-12-31 23:59:59");
    add(&mut l, Kind::Expense, 10, "x", None, "2024-01-01 00:00:00");
    add(&mut l, Kind::Income, 100, "y", None, "2024-02-15 12:00:00");
    add(&mut l, Kind::Expense, 1000, "x", None, "2024-03-31 23:59:59");
    add(&mut l, Kind::Income, 10000, "y", None, "2024-04-01 00:00:00");
    let s = summary_in_range(&l, "2024-01", "2024-03").unwrap();
    assert_eq!(s.start_month, "2024-01");
    assert_eq!(s.end_month, "2024-03");
    assert_eq!(s.expense, 1010);
    assert_eq!(s.income, 100);
    assert_eq!(s.balance, -910);
    let rows = entries_in_range(&l, "2024-01", "2024-03");
    assert_eq!(ids(&rows), vec![4, 3, 2]);
}

#[test]
fn reversed_range_is_rejected() {
    let mut l = Ledger::new();
    add(&mut l, Kind::Expense, 10, "x", None, "2024-02-01 00:00:00");
    assert_eq!(summary_in_range(&l, "2024-03", "2024-01").err(), Some(LedgerError::InvalidRange));
    assert_eq!(
        category_totals_by_kind_in_range(&l, "2024-03", "2024-01", Kind::Expense).err(),
        Some(LedgerError::InvalidRange)
    );
}

#[test]
fn category_totals_over_range() {
    let mut l = Ledger::new();
    add(&mut l, Kind::Expense, 5, "food", None, "2023-12-30 10:00:00");
    add(&mut l, Kind::Expense, 40, "food", None, "2024-01-10 10:00:00");
    add(&mut l, Kind::Expense, 60, "rent", None, "2024-02-10 10:00:00");
    add(&mut l, Kind::Expense, 30, "food", None, "2024-03-10 10:00:00");
    let rows = category_totals_by_kind_in_range(&l, "2024-01", "2024-03", Kind::Expense).unwrap();
    let got: Vec<(&str, i64)> = rows.iter().map(|r| (r.category.as_str(), r.total)).collect();
    assert_eq!(got, vec![("food", 70), ("rent", 60)]);
}

#[test]
fn entries_in_month_selects_by_prefix() {
    let mut l = Ledger::new();
    add(&mut l, Kind::Expense, 1, "x", None, "2024-02-01 10:00:00");
    add(&mut l, Kind::Expense, 2, "x", None, "2024-03-01 10:00:00");
    add(&mut l, Kind::Expense, 3, "x", None, "2024-02-28 10:00:00");
    assert_eq!(ids(&entries_in_month(&l, "2024-02")), vec![3, 1]);
    assert!(entries_in_month(&l, "2024-04").is_empty());
}

#[test]
fn sums_past_the_integer_range_are_reported() {
    let mut l = Ledger::new();
    add(&mut l, Kind::Income, i64::MAX, "a", None, "2024-01-01 10:00:00");
    add(&mut l, Kind::Income, 1, "b", None, "2024-01-02 10:00:00");
    assert_eq!(month_summary(&l, "2024-01").err(), Some(LedgerError::Overflow));
    let rows = category_totals_by_kind(&l, "2024-01", Kind::Income).unwrap();
    assert_eq!(rows.len(), 2);
    assert_eq!(rows[0].total, i64::MAX);
    add(&mut l, Kind::Income, 1, "a", None, "2024-01-03 10:00:00");
    assert_eq!(
        category_totals_by_kind(&l, "2024-01", Kind::Income).err(),
        Some(LedgerError::Overflow)
    );
}

#[test]
fn restored_entries_keep_their_ids() {
    let mut l = Ledger::new();
    let e = Entry {
        id: 5,
        kind: Kind::Income,
        amount: 10,
        category: "gift".to_string(),
        note: None,
        created_at: "2024-01-01 10:00:00".to_string(),
    };
    assert_eq!(l.restore_entry(e), Ok(()));
    assert_eq!(l.next_id(), 6);
    let stale = Entry {
        id: 3,
        kind: Kind::Income,
        amount: 10,
        category: "gift".to_string(),
        note: None,
        created_at: "2024-01-01 10:00:00".to_string(),
    };
    assert_eq!(l.restore_entry(stale), Err(LedgerError::InvalidId));
    l.reserve_ids(9);
    let id = add(&mut l, Kind::Expense, 1, "x", None, "2024-01-02 10:00:00");
    assert_eq!(id, 9);
}

#[test]
fn range_argument_parsing() {
    assert_eq!(
        parse_ym_range("2024-01..2024-03"),
        Some(("2024-01".to_string(), "2024-03".to_string()))
    );
    assert_eq!(parse_ym_range("2024-01"), None);
    assert_eq!(parse_ym_range("2024-01..2024-03..2024-05"), None);
    assert_eq!(parse_ym_range("2024/01..2024-03"), None);
    assert_eq!(parse_ym_range("2024-1..2024-03"), None);
    assert_eq!(parse_ym_range("2024-01...2024-03"), None);
    assert_eq!(parse_ym_range(""), None);
}

#[test]
fn range_argument_parts_are_measured_in_bytes() {
    // seven characters but eight bytes
    assert_eq!(parse_ym_range("202\u{e9}-01..2024-03"), None);
    assert_eq!(parse_ym_range("2024-01..202\u{e9}-03"), None);
    // seven bytes with a dash as the fifth byte
    assert_eq!(
        parse_ym_range("\u{e9}12-34..2024-03"),
        Some(("\u{e9}12-34".to_string(), "2024-03".to_string()))
    );
}

#[test]
fn malformed_timestamp_is_rejected() {
    let mut l = Ledger::new();
    for at in ["", "2024-05-01", "2024-05-01T12:00:00", "2024-5-01 12:00:00", "2024-05-01 12:00:0x"] {
        let r = add_entry(&mut l, Kind::Expense, 10, "food", None, at);
        assert_eq!(r.unwrap_err(), LedgerError::InvalidTimestamp);
    }
    assert!(list_entries(&l).is_empty());
    let e = Entry {
        id: 1,
        kind: Kind::Expense,
        amount: 10,
        category: "food".to_string(),
        note: None,
        created_at: "yesterday".to_string(),
    };
    assert_eq!(l.restore_entry(e), Err(LedgerError::InvalidTimestamp));
}

#[test]
fn ids_are_distinct_and_above_earlier_ones() {
    let mut l = Ledger::new();
    let a = add(&mut l, Kind::Expense, 1, "a", None, "2024-01-01 10:00:00");
    let b = add(&mut l, Kind::Expense, 2, "b", None, "2024-01-01 10:00:00");
    assert_eq!(delete_entry(&mut l, b), 1);
    let c = add(&mut l, Kind::Income, 3, "c", None, "2024-01-01 10:00:00");
    assert!(c > a && c > b);
    let listed = ids(&list_entries(&l));
    assert_eq!(listed, vec![c, a]);
}
