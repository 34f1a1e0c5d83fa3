use vstd::prelude::*;
use crate::kind::Kind;
use crate::text::{
    text_less, text_le, month_key, lemma_text_less_total, lemma_text_less_transitive,
    lemma_text_less_irreflexive, lemma_text_le_antisymmetric, str_less, month_of, stamp_shaped,
    is_stamp,
};
use crate::entry::{
    Entry, EntryView, LedgerError, valid_entry, listed_before, in_listing_order, entry_views,
    is_listing, note_arg_view, copy_entry,
};

verus! {

/// The store of ledger entries, kept in the order in which they were added.
pub struct Ledger {
    entries: Vec<Entry>,
    next_id: i64,
}

/// The store as a mathematical value: its entries and the id that the next one gets.
pub struct LedgerView {
    pub entries: Seq<EntryView>,
    pub next_id: int,
}

impl View for Ledger {
    type V = LedgerView;

    closed spec fn view(&self) -> LedgerView {
        LedgerView { entries: entry_views(self.entries@), next_id: self.next_id as int }
    }
}

/// The entry that an add with these arguments stores under `id`.
pub open spec fn new_entry_view(
    id: int,
    kind: Kind,
    amount: int,
    category: Seq<char>,
    note: Option<Seq<char>>,
    created_at: Seq<char>,
) -> EntryView {
    EntryView { id, kind, amount, category, note, created_at }
}

/// The month of `e` lies in the inclusive range `start ..= end`.
pub open spec fn in_period(e: EntryView, start: Seq<char>, end: Seq<char>) -> bool {
    text_le(start, month_key(e.created_at)) && text_le(month_key(e.created_at), end)
}

impl LedgerView {
    /// Every entry is valid, ids grow with the order of insertion, and all lie below `next_id`.
    pub open spec fn wf(self) -> bool {
        &&& 1 <= self.next_id <= i64::MAX
        &&& forall|i: int| 0 <= i < self.entries.len() ==> valid_entry(#[trigger] self.entries[i])
        &&& forall|i: int|
            0 <= i < self.entries.len() ==> 1 <= #[trigger] self.entries[i].id < self.next_id
        &&& forall|i: int, j: int|
            0 <= i < j < self.entries.len() ==> #[trigger] self.entries[i].id
                < #[trigger] self.entries[j].id
    }

    pub open spec fn has_id(self, id: int) -> bool {
        exists|i: int| 0 <= i < self.entries.len() && #[trigger] self.entries[i].id == id
    }

    /// The store after `e` is appended; the next id follows `e`'s.
    pub open spec fn with_entry(self, e: EntryView) -> LedgerView {
        LedgerView { entries: self.entries.push(e), next_id: e.id + 1 }
    }

    /// The store with the entry at `i` taken out; ids are not handed out again.
    pub open spec fn without_index(self, i: int) -> LedgerView {
        LedgerView { entries: self.entries.remove(i), next_id: self.next_id }
    }

    /// The store with the entry of this id taken out, if there is one.
    pub open spec fn without_id(self, id: int) -> LedgerView {
        if self.has_id(id) {
            self.without_index(
                choose|i: int| 0 <= i < self.entries.len() && #[trigger] self.entries[i].id == id,
            )
        } else {
            self
        }
    }
}

/// Of two distinct entries, one is listed before the other, never both.
pub proof fn lemma_listed_before_total(a: EntryView, b: EntryView)
    ensures
        a.id != b.id ==> (listed_before(a, b) || listed_before(b, a)),
        !(listed_before(a, b) && listed_before(b, a)),
        !listed_before(a, a),
{
    lemma_text_less_total(a.created_at, b.created_at);
    lemma_text_less_irreflexive(a.created_at);
    lemma_text_less_irreflexive(b.created_at);
}

pub proof fn lemma_listed_before_transitive(a: EntryView, b: EntryView, c: EntryView)
    requires
        listed_before(a, b),
        listed_before(b, c),
    ensures
        listed_before(a, c),
{
    if text_less(c.created_at, b.created_at) && text_less(b.created_at, a.created_at) {
        lemma_text_less_transitive(c.created_at, b.created_at, a.created_at);
    }
}

/// Inserts `e` into `out` at the place that keeps listing order.
fn insert_listed(out: &mut Vec<Entry>, e: Entry)
    requires
        in_listing_order(entry_views(old(out)@)),
        forall|k: int| 0 <= k < old(out)@.len() ==> (#[trigger] old(out)@[k])@.id != e@.id,
    ensures
        in_listing_order(entry_views(final(out)@)),
        forall|x: EntryView|
            entry_views(final(out)@).contains(x) <==> (x == e@ || entry_views(old(out)@).contains(x)),
{
    let ghost before = entry_views(out@);
    let ghost ev = e@;
    let mut pos: usize = 0;
    let mut found = false;
    while !found && pos < out.len()
        invariant
            before == entry_views(out@),
            ev == e@,
            pos <= out@.len(),
            found ==> pos < out@.len() && listed_before(ev, before[pos as int]),
            forall|k: int| 0 <= k < pos ==> listed_before(#[trigger] before[k], ev),
            forall|k: int| 0 <= k < out@.len() ==> (#[trigger] out@[k])@.id != ev.id,
        decreases out@.len() - pos + (if found { 0int } else { 1int }),
    {
        assert(before[pos as int] == out@[pos as int]@);
        let cur: &str = out[pos].created_at.as_str();
        let incoming: &str = e.created_at.as_str();
        let later = str_less(cur, incoming);
        let same = !later && !str_less(incoming, cur);
        proof {
            assert(out@[pos as int]@.id != ev.id);
            lemma_text_less_total(out@[pos as int].created_at@, ev.created_at);
            lemma_listed_before_total(before[pos as int], ev);
        }
        if later || (same && out[pos].id < e.id) {
            found = true;
        } else {
            pos = pos + 1;
        }
    }
    proof {
        assert forall|m: int| pos <= m < before.len() implies listed_before(ev, #[trigger] before[m]) by {
            if m > pos {
                lemma_listed_before_transitive(ev, before[pos as int], before[m]);
            }
        }
    }
    out.insert(pos, e);
    proof {
        let after = entry_views(out@);
        assert(after =~= before.insert(pos as int, ev));
        if pos < before.len() {
            lemma_listed_before_total(before[pos as int], ev);
        }
        assert forall|i: int, j: int| 0 <= i < j < after.len() implies #[trigger] listed_before(
            after[i],
            after[j],
        ) by {
            if j < pos {
            } else if i < pos && j == pos {
            } else if i < pos {
                assert(listed_before(ev, before[j - 1]));
                lemma_listed_before_transitive(before[i], ev, before[j - 1]);
            } else if i == pos {
                assert(listed_before(ev, before[j - 1]));
            } else {
            }
        }
        assert forall|x: EntryView| after.contains(x) <==> (x == ev || before.contains(x)) by {
            if after.contains(x) {
                let i = choose|i: int| 0 <= i < after.len() && after[i] == x;
                if i > pos {
                    assert(before[i - 1] == x);
                } else if i < pos {
                    assert(before[i] == x);
                }
            }
            if x == ev {
                assert(after[pos as int] == x);
            }
            if before.contains(x) {
                let i = choose|i: int| 0 <= i < before.len() && before[i] == x;
                if i >= pos {
                    assert(after[i + 1] == x);
                } else {
                    assert(after[i] == x);
                }
            }
        }
    }
}

/// The month of a timestamp lies in the inclusive range `start ..= end`.
fn stamp_in_period(stamp: &str, start: &str, end: &str) -> (r: bool)
    ensures
        r == (text_le(start@, month_key(stamp@)) && text_le(month_key(stamp@), end@)),
{
    let key = month_of(stamp);
    !str_less(key, start) && !str_less(end, key)
}

impl Ledger {
    /// An empty store whose first entry gets id 1.
    pub fn new() -> (r: Ledger)
        ensures
            r@.wf(),
            r@.entries.len() == 0,
            r@.next_id == 1,
    {
        Ledger { entries: Vec::new(), next_id: 1 }
    }

    /// The entries in the order in which they were added.
    pub(crate) fn rows(&self) -> (r: &Vec<Entry>)
        ensures
            entry_views(r@) == self@.entries,
    {
        &self.entries
    }

    /// The id that the next added entry gets.
    pub fn next_id(&self) -> (r: i64)
        ensures
            r == self@.next_id,
    {
        self.next_id
    }

    /// Takes back an entry read from persisted storage. Entries come back in order of id.
    pub fn restore_entry(&mut self, e: Entry) -> (r: Result<(), LedgerError>)
        requires
            old(self)@.wf(),
        ensures
            final(self)@.wf(),
            e.amount <= 0 ==> r == Err::<(), LedgerError>(LedgerError::InvalidAmount),
            e.amount > 0 && e.category@.len() == 0 ==> r == Err::<(), LedgerError>(
                LedgerError::InvalidCategory,
            ),
            e.amount > 0 && e.category@.len() > 0 && !stamp_shaped(e.created_at@) ==> r == Err::<
                (),
                LedgerError,
            >(LedgerError::InvalidTimestamp),
            valid_entry(e@) && (e.id < old(self)@.next_id || e.id == i64::MAX) ==> r == Err::<
                (),
                LedgerError,
            >(LedgerError::InvalidId),
            r is Ok <==> (valid_entry(e@) && old(self)@.next_id <= e.id < i64::MAX),
            r is Ok ==> final(self)@ == old(self)@.with_entry(e@),
            r is Err ==> final(self)@ == old(self)@,
    {
        if e.amount <= 0 {
            return Err(LedgerError::InvalidAmount);
        }
        if e.category.as_str().unicode_len() == 0 {
            return Err(LedgerError::InvalidCategory);
        }
        if !is_stamp(e.created_at.as_str()) {
            return Err(LedgerError::InvalidTimestamp);
        }
        if e.id < self.next_id || e.id == i64::MAX {
            return Err(LedgerError::InvalidId);
        }
        let ghost before = self@;
        self.next_id = e.id + 1;
        self.entries.push(e);
        proof {
            assert(self@.entries =~= before.entries.push(e@));
        }
        Ok(())
    }

    /// Makes sure that no id below `next` is handed out, as after entries that were deleted.
    pub fn reserve_ids(&mut self, next: i64)
        requires
            old(self)@.wf(),
        ensures
            final(self)@.wf(),
            final(self)@.entries == old(self)@.entries,
            final(self)@.next_id == if next > old(self)@.next_id {
                next as int
            } else {
                old(self)@.next_id
            },
    {
        if next > self.next_id {
            self.next_id = next;
        }
    }
}

/// Records a new entry, with the next id and the timestamp `created_at` (the time of the
/// insertion, `YYYY-MM-DD HH:MM:SS`), and returns it.
pub fn add_entry(
    ledger: &mut Ledger,
    kind: Kind,
    amount: i64,
    category: &str,
    note: Option<&str>,
    created_at: &str,
) -> (r: Result<Entry, LedgerError>)
    requires
        old(ledger)@.wf(),
    ensures
        final(ledger)@.wf(),
        amount <= 0 ==> r == Err::<Entry, LedgerError>(LedgerError::InvalidAmount),
        amount > 0 && category@.len() == 0 ==> r == Err::<Entry, LedgerError>(
            LedgerError::InvalidCategory,
        ),
        amount > 0 && category@.len() > 0 && !stamp_shaped(created_at@) ==> r == Err::<
            Entry,
            LedgerError,
        >(LedgerError::InvalidTimestamp),
        amount > 0 && category@.len() > 0 && stamp_shaped(created_at@) && old(ledger)@.next_id
            == i64::MAX ==> r == Err::<Entry, LedgerError>(LedgerError::IdsExhausted),
        r is Ok <==> (amount > 0 && category@.len() > 0 && stamp_shaped(created_at@) && old(
            ledger,
        )@.next_id < i64::MAX),
        r is Ok ==> r->Ok_0@ == new_entry_view(
            old(ledger)@.next_id,
            kind,
            amount as int,
            category@,
            note_arg_view(note),
            created_at@,
        ),
        r is Ok ==> final(ledger)@ == old(ledger)@.with_entry(r->Ok_0@),
        r is Err ==> final(ledger)@ == old(ledger)@,
{
    if amount <= 0 {
        return Err(LedgerError::InvalidAmount);
    }
    if category.unicode_len() == 0 {
        return Err(LedgerError::InvalidCategory);
    }
    if !is_stamp(created_at) {
        return Err(LedgerError::InvalidTimestamp);
    }
    if ledger.next_id == i64::MAX {
        return Err(LedgerError::IdsExhausted);
    }
    let note_text = match note {
        Some(n) => Some(n.to_owned()),
        None => None,
    };
    let e = Entry {
        id: ledger.next_id,
        kind,
        amount,
        category: category.to_owned(),
        note: note_text,
        created_at: created_at.to_owned(),
    };
    let made = copy_entry(&e);
    match ledger.restore_entry(e) {
        Ok(()) => Ok(made),
        Err(err) => Err(err),
    }
}

/// Removes the entry with this id; returns how many entries went (0 or 1).
pub fn delete_entry(ledger: &mut Ledger, id: i64) -> (r: usize)
    requires
        old(ledger)@.wf(),
    ensures
        final(ledger)@.wf(),
        r == (if old(ledger)@.has_id(id as int) { 1usize } else { 0usize }),
        final(ledger)@ == old(ledger)@.without_id(id as int),
{
    let ghost before = ledger@;
    let mut i: usize = 0;
    while i < ledger.entries.len()
        invariant
            ledger@ == before,
            before == old(ledger)@,
            before.wf(),
            i <= ledger.entries@.len(),
            forall|k: int| 0 <= k < i ==> (#[trigger] before.entries[k]).id != id,
        decreases ledger.entries@.len() - i,
    {
        assert(before.entries[i as int] == ledger.entries@[i as int]@);
        if ledger.entries[i].id == id {
            ledger.entries.remove(i);
            proof {
                assert(ledger@.entries =~= before.entries.remove(i as int));
                assert(ledger@ == before.without_index(i as int));
                assert(before.entries[i as int].id == id);
                assert(before.has_id(id as int));
                let c = choose|c: int| 0 <= c < before.entries.len() && #[trigger] before.entries[c].id == id;
                if c < i {
                    assert(before.entries[c].id < before.entries[i as int].id);
                } else if c > i {
                    assert(before.entries[i as int].id < before.entries[c].id);
                }
                assert(before.without_id(id as int) == before.without_index(i as int));
                let after = ledger@.entries;
                assert forall|a: int, b: int| 0 <= a < b < after.len() implies #[trigger] after[a].id
                    < #[trigger] after[b].id by {
                    let a0 = if a < i { a } else { a + 1 };
                    let b0 = if b < i { b } else { b + 1 };
                    assert(after[a] == before.entries[a0]);
                    assert(after[b] == before.entries[b0]);
                    assert(0 <= a0 < b0 < before.entries.len());
                    assert(before.entries[a0].id < before.entries[b0].id);
                }
                assert forall|a: int| 0 <= a < after.len() implies valid_entry(#[trigger] after[a])
                    && 1 <= after[a].id < before.next_id by {
                    let a0 = if a < i { a } else { a + 1 };
                    assert(after[a] == before.entries[a0]);
                }
            }
            return 1;
        }
        i = i + 1;
    }
    proof {
        if before.has_id(id as int) {
            let k = choose|k: int| 0 <= k < before.entries.len() && #[trigger] before.entries[k].id == id;
            assert(before.entries[k].id != id);
        }
    }
    0
}

/// The entries of `ledger` that `whole` or the month range admits, newest first.
fn select_listed(ledger: &Ledger, whole: bool, start: &str, end: &str) -> (r: Vec<Entry>)
    requires
        ledger@.wf(),
    ensures
        is_listing(
            ledger@.entries,
            |e: EntryView| whole || in_period(e, start@, end@),
            entry_views(r@),
        ),
{
    let rows = ledger.rows();
    let ghost src = ledger@.entries;
    let ghost keep = |e: EntryView| whole || in_period(e, start@, end@);
    let mut out: Vec<Entry> = Vec::new();
    let mut i: usize = 0;
    while i < rows.len()
        invariant
            src == ledger@.entries,
            entry_views(rows@) == src,
            ledger@.wf(),
            keep == (|e: EntryView| whole || in_period(e, start@, end@)),
            i <= rows@.len(),
            in_listing_order(entry_views(out@)),
            forall|x: EntryView|
                entry_views(out@).contains(x) <==> exists|j: int|
                    0 <= j < i && #[trigger] src[j] == x && keep(x),
        decreases rows@.len() - i,
    {
        assert(src[i as int] == rows@[i as int]@);
        if whole || stamp_in_period(rows[i].created_at.as_str(), start, end) {
            proof {
                assert forall|k: int| 0 <= k < out@.len() implies (#[trigger] out@[k])@.id
                    != src[i as int].id by {
                    assert(entry_views(out@)[k] == out@[k]@);
                    assert(entry_views(out@).contains(out@[k]@));
                    let j = choose|j: int| 0 <= j < i && #[trigger] src[j] == out@[k]@ && keep(
                        out@[k]@,
                    );
                    assert(src[j].id < src[i as int].id);
                }
            }
            let ghost prev = entry_views(out@);
            insert_listed(&mut out, copy_entry(&rows[i]));
            proof {
                assert forall|x: EntryView|
                    entry_views(out@).contains(x) <==> exists|j: int|
                        0 <= j < i + 1 && #[trigger] src[j] == x && keep(x) by {
                    if prev.contains(x) {
                        let j = choose|j: int| 0 <= j < i && #[trigger] src[j] == x && keep(x);
                        assert(0 <= j < i + 1 && src[j] == x && keep(x));
                    }
                    if x == src[i as int] {
                        assert(0 <= i < i + 1 && src[i as int] == x && keep(x));
                    }
                }
            }
        } else {
            proof {
                assert forall|x: EntryView|
                    entry_views(out@).contains(x) <==> exists|j: int|
                        0 <= j < i + 1 && #[trigger] src[j] == x && keep(x) by {
                    if exists|j: int| 0 <= j < i + 1 && #[trigger] src[j] == x && keep(x) {
                        let j = choose|j: int| 0 <= j < i + 1 && #[trigger] src[j] == x && keep(x);
                        if j < i {
                            assert(0 <= j < i && src[j] == x && keep(x));
                        }
                    }
                }
            }
        }
        i = i + 1;
    }
    proof {
        let r = entry_views(out@);
        assert forall|k: int| 0 <= k < r.len() implies keep(#[trigger] r[k]) && src.contains(r[k]) by {
            assert(r.contains(r[k]));
            let j = choose|j: int| 0 <= j < i && #[trigger] src[j] == r[k] && keep(r[k]);
        }
        assert forall|j: int| 0 <= j < src.len() && keep(#[trigger] src[j]) implies r.contains(
            src[j],
        ) by {
            assert(0 <= j < i && src[j] == src[j] && keep(src[j]));
        }
    }
    out
}

/// Every entry, newest first; entries with the same timestamp, highest id first.
pub fn list_entries(ledger: &Ledger) -> (r: Vec<Entry>)
    requires
        ledger@.wf(),
    ensures
        is_listing(ledger@.entries, |e: EntryView| true, entry_views(r@)),
{
    let r = select_listed(ledger, true, "", "");
    proof {
        let k1 = |e: EntryView| true || in_period(e, ""@, ""@);
        let k2 = |e: EntryView| true;
        assert(k1 =~= k2);
    }
    r
}

/// The entries whose timestamp falls in month `ym` (`YYYY-MM`), newest first.
pub fn entries_in_month(ledger: &Ledger, ym: &str) -> (r: Vec<Entry>)
    requires
        ledger@.wf(),
    ensures
        is_listing(
            ledger@.entries,
            |e: EntryView| month_key(e.created_at) == ym@,
            entry_views(r@),
        ),
{
    let r = select_listed(ledger, false, ym, ym);
    proof {
        let k1 = |e: EntryView| false || in_period(e, ym@, ym@);
        let k2 = |e: EntryView| month_key(e.created_at) == ym@;
        assert forall|e: EntryView| #[trigger] k1(e) == k2(e) by {
            lemma_text_le_antisymmetric(month_key(e.created_at), ym@);
        }
        assert(k1 =~= k2);
    }
    r
}

/// The entries whose month lies in `start ..= end`, newest first.
pub fn entries_in_range(ledger: &Ledger, start: &str, end: &str) -> (r: Vec<Entry>)
    requires
        ledger@.wf(),
    ensures
        is_listing(ledger@.entries, |e: EntryView| in_period(e, start@, end@), entry_views(r@)),
{
    let r = select_listed(ledger, false, start, end);
    proof {
        let k1 = |e: EntryView| false || in_period(e, start@, end@);
        let k2 = |e: EntryView| in_period(e, start@, end@);
        assert(k1 =~= k2);
    }
    r
}

} // verus!
