use vstd::prelude::*;
use crate::kind::Kind;
use crate::text::{text_less, stamp_shaped};

verus! {

/// One recorded monetary event.
#[derive(Debug)]
pub struct Entry {
    pub id: i64,
    pub kind: Kind,
    pub amount: i64,
    pub category: String,
    pub note: Option<String>,
    pub created_at: String,
}

/// An entry as a mathematical value.
pub struct EntryView {
    pub id: int,
    pub kind: Kind,
    pub amount: int,
    pub category: Seq<char>,
    pub note: Option<Seq<char>>,
    pub created_at: Seq<char>,
}

pub open spec fn note_view(note: Option<String>) -> Option<Seq<char>> {
    match note {
        Some(n) => Some(n@),
        None => None,
    }
}

pub open spec fn note_arg_view(note: Option<&str>) -> Option<Seq<char>> {
    match note {
        Some(n) => Some(n@),
        None => None,
    }
}

impl View for Entry {
    type V = EntryView;

    open spec fn view(&self) -> EntryView {
        EntryView {
            id: self.id as int,
            kind: self.kind,
            amount: self.amount as int,
            category: self.category@,
            note: note_view(self.note),
            created_at: self.created_at@,
        }
    }
}

/// What the store accepts of an entry: a positive amount, a non-empty category and a
/// timestamp of the form `YYYY-MM-DD HH:MM:SS`.
pub open spec fn valid_entry(e: EntryView) -> bool {
    e.amount > 0 && e.category.len() > 0 && stamp_shaped(e.created_at)
}

/// The order in which entries are listed: newest timestamp first, then highest id first.
pub open spec fn listed_before(a: EntryView, b: EntryView) -> bool {
    text_less(b.created_at, a.created_at) || (a.created_at == b.created_at && a.id > b.id)
}

/// Each entry of `s` is listed before every later one.
pub open spec fn in_listing_order(s: Seq<EntryView>) -> bool {
    forall|i: int, j: int| 0 <= i < j < s.len() ==> #[trigger] listed_before(s[i], s[j])
}

/// The mathematical values of a vector of entries.
pub open spec fn entry_views(v: Seq<Entry>) -> Seq<EntryView> {
    v.map_values(|e: Entry| e@)
}

/// `r` lists, in listing order, exactly the entries of `src` that `keep` admits.
pub open spec fn is_listing(
    src: Seq<EntryView>,
    keep: spec_fn(EntryView) -> bool,
    r: Seq<EntryView>,
) -> bool {
    &&& in_listing_order(r)
    &&& forall|i: int| 0 <= i < r.len() ==> keep(#[trigger] r[i]) && src.contains(r[i])
    &&& forall|j: int| 0 <= j < src.len() && keep(#[trigger] src[j]) ==> r.contains(src[j])
}

/// A copy of an entry, field by field.
pub fn copy_entry(e: &Entry) -> (r: Entry)
    ensures
        r@ == e@,
{
    let note = match &e.note {
        Some(n) => Some(n.clone()),
        None => None,
    };
    Entry {
        id: e.id,
        kind: e.kind,
        amount: e.amount,
        category: e.category.clone(),
        note,
        created_at: e.created_at.clone(),
    }
}

/// Income, expense and balance of one month.
pub struct MonthSummary {
    pub month: String,
    pub expense: i64,
    pub income: i64,
    pub balance: i64,
}

/// Income, expense and balance over an inclusive range of months.
pub struct RangeSummary {
    pub start_month: String,
    pub end_month: String,
    pub expense: i64,
    pub income: i64,
    pub balance: i64,
}

/// The sum of the amounts of one category.
#[derive(Debug)]
pub struct CategoryTotal {
    pub category: String,
    pub total: i64,
}

pub struct CategoryTotalView {
    pub category: Seq<char>,
    pub total: int,
}

impl View for CategoryTotal {
    type V = CategoryTotalView;

    open spec fn view(&self) -> CategoryTotalView {
        CategoryTotalView { category: self.category@, total: self.total as int }
    }
}

/// Why the ledger refused a request.
#[derive(Copy, Clone, PartialEq, Eq, Structural, Debug)]
pub enum LedgerError {
    /// The amount was zero or negative.
    InvalidAmount,
    /// The category was empty.
    InvalidCategory,
    /// The timestamp does not have the form `YYYY-MM-DD HH:MM:SS`.
    InvalidTimestamp,
    /// The range ends before it starts.
    InvalidRange,
    /// A restored entry's id was not above every id already in use, or left no id after it.
    InvalidId,
    /// Every id has been handed out.
    IdsExhausted,
    /// A sum does not fit in a 64-bit integer.
    Overflow,
}

} // verus!
