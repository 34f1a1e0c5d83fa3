//! A personal bookkeeping ledger: a store of income and expense entries, and the monthly,
//! range and per-category reports derived from it, with exact integer arithmetic.
use vstd::prelude::*;

pub mod kind;
pub mod text;
pub mod entry;
pub mod ledger;
pub mod report;
pub mod period;
pub mod laws;
pub mod export;

pub use kind::Kind;
pub use entry::{Entry, MonthSummary, RangeSummary, CategoryTotal, LedgerError};
pub use ledger::{
    Ledger, add_entry, delete_entry, list_entries, entries_in_month, entries_in_range,
};
pub use report::{
    month_summary, summary_in_range, category_totals_by_kind, category_totals_by_kind_in_range,
};
pub use period::parse_ym_range;
pub use export::{export_header, export_record, kind_name};

verus! {

} // verus!
