use ledger_module::{add_entry, export_header, export_record, kind_name, Entry, Kind, Ledger};

#[test]
fn export_header_names_the_columns() {
    assert_eq!(export_header(), vec!["id", "kind", "amount", "category", "note", "created_at"]);
}

#[test]
fn export_record_writes_fields() {
    let mut l = Ledger::new();
    let e = add_entry(&mut l, Kind::Expense, 1200, "food", Some("lunch"), "2024-05-10 12:30:00").unwrap();
    assert_eq!(export_record(&e), vec!["1", "expense", "1200", "food", "lunch", "2024-05-10 12:30:00"]);
}

#[test]
fn export_record_absent_note_is_empty() {
    let e = Entry {
        id: 42,
        kind: Kind::Income,
        amount: 5000,
        category: "salary".to_string(),
        note: None,
        created_at: "2024-05-25 09:00:00".to_string(),
    };
    assert_eq!(export_record(&e), vec!["42", "income", "5000", "salary", "", "2024-05-25 09:00:00"]);
}

#[test]
fn export_record_negative_and_large_numbers() {
    let e = Entry {
        id: -7,
        kind: Kind::Expense,
        amount: i64::MAX,
        category: "x".to_string(),
        note: Some(String::new()),
        created_at: String::new(),
    };
    assert_eq!(export_record(&e), vec!["-7", "expense", "9223372036854775807", "x", "", ""]);
}

#[test]
fn kind_names() {
    assert_eq!(kind_name(Kind::Expense), "expense");
    assert_eq!(kind_name(Kind::Income), "income");
}
