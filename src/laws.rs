use vstd::prelude::*;
use crate::kind::Kind;
use crate::text::{month_key, stamp_shaped, stamp_char_ok, text_less, text_le};
use crate::entry::{EntryView, is_listing};
use crate::ledger::{LedgerView, new_entry_view};
use crate::report::{month_total, range_total, kind_in_month, kind_in_period, sum_amounts, lemma_sum_push};
use crate::ledger::in_period;

verus! {

/// Adding a valid entry and then listing the store shows exactly one entry that was not
/// there before: the added one, with the given kind, amount and category, under an id above
/// every id handed out before (all of which lie below the store's next id). No two listed
/// entries share an id.
pub proof fn law_add_then_list(
    before: LedgerView,
    kind: Kind,
    amount: int,
    category: Seq<char>,
    note: Option<Seq<char>>,
    created_at: Seq<char>,
    listing: Seq<EntryView>,
)
    requires
        before.wf(),
        amount > 0,
        category.len() > 0,
        is_listing(
            before.with_entry(
                new_entry_view(before.next_id, kind, amount, category, note, created_at),
            ).entries,
            |e: EntryView| true,
            listing,
        ),
    ensures
        exists|i: int|
            0 <= i < listing.len() && !before.entries.contains(#[trigger] listing[i]) && ({
                let e = listing[i];
                &&& e.kind == kind
                &&& e.amount == amount
                &&& e.category == category
                &&& e.id == before.next_id
                &&& !before.has_id(e.id)
                &&& forall|j: int|
                    0 <= j < before.entries.len() ==> #[trigger] before.entries[j].id < e.id
                &&& forall|k: int|
                    0 <= k < listing.len() && !before.entries.contains(#[trigger] listing[k])
                        ==> k == i
            }),
        forall|a: int, b: int|
            0 <= a < b < listing.len() ==> (#[trigger] listing[a]).id != (#[trigger] listing[b]).id,
{
    let e = new_entry_view(before.next_id, kind, amount, category, note, created_at);
    let after = before.with_entry(e);
    assert(after.entries[before.entries.len() as int] == e);
    assert(listing.contains(e));
    let i = choose|i: int| 0 <= i < listing.len() && listing[i] == e;
    assert(!before.entries.contains(e)) by {
        if before.entries.contains(e) {
            let j = choose|j: int| 0 <= j < before.entries.len() && before.entries[j] == e;
            assert(before.entries[j].id < before.next_id);
        }
    }
    assert(!before.has_id(e.id)) by {
        if before.has_id(e.id) {
            let j = choose|j: int| 0 <= j < before.entries.len() && #[trigger] before.entries[j].id == e.id;
        }
    }
    assert forall|k: int|
        0 <= k < listing.len() && !before.entries.contains(#[trigger] listing[k]) implies k == i by {
        assert(after.entries.contains(listing[k]));
        let j = choose|j: int| 0 <= j < after.entries.len() && after.entries[j] == listing[k];
        if j < before.entries.len() {
            assert(before.entries[j] == listing[k]);
        }
        assert(listing[k] == e);
        if k < i {
            assert(crate::entry::listed_before(listing[k], listing[i]));
        } else if k > i {
            assert(crate::entry::listed_before(listing[i], listing[k]));
        }
        if k != i {
            crate::ledger::lemma_listed_before_total(e, e);
        }
    }
    assert forall|a: int, b: int|
        0 <= a < b < listing.len() implies (#[trigger] listing[a]).id != (#[trigger] listing[b]).id by {
        assert(crate::entry::listed_before(listing[a], listing[b]));
        assert(after.entries.contains(listing[a]));
        assert(after.entries.contains(listing[b]));
        let ja = choose|j: int| 0 <= j < after.entries.len() && after.entries[j] == listing[a];
        let jb = choose|j: int| 0 <= j < after.entries.len() && after.entries[j] == listing[b];
        let n = before.entries.len() as int;
        if ja != jb {
            if ja < n && jb < n {
                if ja < jb {
                    assert(before.entries[ja].id < before.entries[jb].id);
                } else {
                    assert(before.entries[jb].id < before.entries[ja].id);
                }
            } else if ja < n {
                assert(before.entries[ja].id < before.next_id);
            } else {
                assert(before.entries[jb].id < before.next_id);
            }
        } else {
            crate::ledger::lemma_listed_before_total(listing[a], listing[a]);
        }
    }
}

/// Deleting an id that no entry has leaves the store as it was. Deleting one that an entry
/// has takes that entry out: a later listing shows no entry with that id, and every other
/// entry still.
pub proof fn law_delete_then_list(before: LedgerView, id: int, listing: Seq<EntryView>)
    requires
        before.wf(),
        is_listing(before.without_id(id).entries, |e: EntryView| true, listing),
    ensures
        !before.has_id(id) ==> before.without_id(id) == before,
        forall|k: int| 0 <= k < listing.len() ==> (#[trigger] listing[k]).id != id,
        forall|j: int|
            0 <= j < before.entries.len() && (#[trigger] before.entries[j]).id != id
                ==> listing.contains(before.entries[j]),
{
    let after = before.without_id(id);
    if before.has_id(id) {
        let i = choose|i: int| 0 <= i < before.entries.len() && #[trigger] before.entries[i].id == id;
        assert(after.entries == before.entries.remove(i));
        assert forall|k: int| 0 <= k < listing.len() implies (#[trigger] listing[k]).id != id by {
            assert(after.entries.contains(listing[k]));
            let j = choose|j: int| 0 <= j < after.entries.len() && after.entries[j] == listing[k];
            let j0 = if j < i { j } else { j + 1 };
            assert(after.entries[j] == before.entries[j0]);
            if j0 < i {
                assert(before.entries[j0].id < before.entries[i].id);
            } else {
                assert(before.entries[i].id < before.entries[j0].id);
            }
        }
        assert forall|j: int|
            0 <= j < before.entries.len() && (#[trigger] before.entries[j]).id != id implies listing.contains(
            before.entries[j],
        ) by {
            let j1 = if j < i { j } else { j - 1 };
            assert(after.entries[j1] == before.entries[j]);
        }
    } else {
        assert forall|k: int| 0 <= k < listing.len() implies (#[trigger] listing[k]).id != id by {
            assert(after.entries.contains(listing[k]));
            let j = choose|j: int| 0 <= j < after.entries.len() && after.entries[j] == listing[k];
            assert(before.entries[j].id != id);
        }
        assert forall|j: int|
            0 <= j < before.entries.len() && (#[trigger] before.entries[j]).id != id implies listing.contains(
            before.entries[j],
        ) by {
            assert(after.entries[j] == before.entries[j]);
        }
    }
}

/// Adding an income entry whose timestamp falls in month `ym` raises that month's income by
/// exactly its amount, leaves that month's expense as it was, and so raises its balance by
/// the amount. When the raised income still fits in 64 bits, both totals fit afterwards.
pub proof fn law_income_raises_month(
    before: LedgerView,
    amount: int,
    category: Seq<char>,
    note: Option<Seq<char>>,
    created_at: Seq<char>,
    ym: Seq<char>,
)
    requires
        before.wf(),
        amount > 0,
        category.len() > 0,
        month_key(created_at) == ym,
    ensures
        ({
            let after = before.with_entry(
                new_entry_view(before.next_id, Kind::Income, amount, category, note, created_at),
            );
            &&& month_total(after.entries, Kind::Income, ym) == month_total(
                before.entries,
                Kind::Income,
                ym,
            ) + amount
            &&& month_total(after.entries, Kind::Expense, ym) == month_total(
                before.entries,
                Kind::Expense,
                ym,
            )
            &&& month_total(after.entries, Kind::Income, ym) - month_total(
                after.entries,
                Kind::Expense,
                ym,
            ) == month_total(before.entries, Kind::Income, ym) - month_total(
                before.entries,
                Kind::Expense,
                ym,
            ) + amount
            &&& (month_total(before.entries, Kind::Income, ym) + amount <= i64::MAX && month_total(
                before.entries,
                Kind::Expense,
                ym,
            ) <= i64::MAX) ==> (month_total(after.entries, Kind::Income, ym) <= i64::MAX
                && month_total(after.entries, Kind::Expense, ym) <= i64::MAX)
        }),
{
    let e = new_entry_view(before.next_id, Kind::Income, amount, category, note, created_at);
    lemma_sum_push(before.entries, e, kind_in_month(Kind::Income, ym));
    lemma_sum_push(before.entries, e, kind_in_month(Kind::Expense, ym));
}

/// A sum over a predicate that is the disjoint union of three others is the sum of their sums.
proof fn lemma_sum_three(
    s: Seq<EntryView>,
    all: spec_fn(EntryView) -> bool,
    k1: spec_fn(EntryView) -> bool,
    k2: spec_fn(EntryView) -> bool,
    k3: spec_fn(EntryView) -> bool,
)
    requires
        forall|i: int|
            0 <= i < s.len() ==> (all(#[trigger] s[i]) <==> (k1(s[i]) || k2(s[i]) || k3(s[i]))),
        forall|i: int| 0 <= i < s.len() ==> !(k1(#[trigger] s[i]) && k2(s[i])),
        forall|i: int| 0 <= i < s.len() ==> !(k1(#[trigger] s[i]) && k3(s[i])),
        forall|i: int| 0 <= i < s.len() ==> !(k2(#[trigger] s[i]) && k3(s[i])),
    ensures
        sum_amounts(s, all) == sum_amounts(s, k1) + sum_amounts(s, k2) + sum_amounts(s, k3),
    decreases s.len(),
{
    if s.len() > 0 {
        let t = s.drop_last();
        assert forall|i: int| 0 <= i < t.len() implies t[i] == s[i] by {}
        lemma_sum_three(t, all, k1, k2, k3);
        assert(all(s[s.len() - 1]) <==> (k1(s.last()) || k2(s.last()) || k3(s.last())));
        assert(!(k1(s[s.len() - 1]) && k2(s[s.len() - 1])));
        assert(!(k1(s[s.len() - 1]) && k3(s[s.len() - 1])));
        assert(!(k2(s[s.len() - 1]) && k3(s[s.len() - 1])));
    }
}

/// Where a month key of a well-formed timestamp stands against the months of the first
/// quarter of 2024.
proof fn lemma_first_quarter_key(stamp: Seq<char>)
    requires
        stamp_shaped(stamp),
    ensures
        ({
            let k = month_key(stamp);
            &&& (text_le("2024-01"@, k) && text_le(k, "2024-03"@)) <==> (k == "2024-01"@
                || k == "2024-02"@ || k == "2024-03"@)
            &&& k == "2023-12"@ ==> !text_le("2024-01"@, k)
            &&& k == "2024-04"@ ==> !text_le(k, "2024-03"@)
        }),
{
    reveal_strlit("2024-01");
    reveal_strlit("2024-02");
    reveal_strlit("2024-03");
    reveal_strlit("2023-12");
    reveal_strlit("2024-04");
    let k = month_key(stamp);
    assert(k.len() == 7);
    assert(stamp_char_ok(stamp, 4));
    assert(stamp_char_ok(stamp, 5));
    assert(stamp_char_ok(stamp, 6));
    assert(k[4] == '-');
    reveal_with_fuel(text_less, 8);
    if k[0] == '2' && k[1] == '0' && k[2] == '2' && k[3] == '4' && k[5] == '0' {
        if k[6] == '1' {
            assert(k =~= "2024-01"@);
        } else if k[6] == '2' {
            assert(k =~= "2024-02"@);
        } else if k[6] == '3' {
            assert(k =~= "2024-03"@);
        }
    }
}

/// Over a store, the total of a kind over the months `2024-01 ..= 2024-03` is the sum of the
/// totals of January, February and March 2024; an entry of December 2023 or of April 2024
/// does not count in that range.
pub proof fn law_first_quarter_range(before: LedgerView, kind: Kind)
    requires
        before.wf(),
    ensures
        range_total(before.entries, kind, "2024-01"@, "2024-03"@) == month_total(
            before.entries,
            kind,
            "2024-01"@,
        ) + month_total(before.entries, kind, "2024-02"@) + month_total(
            before.entries,
            kind,
            "2024-03"@,
        ),
        forall|e: EntryView|
            stamp_shaped(e.created_at) && (month_key(e.created_at) == "2023-12"@ || month_key(
                e.created_at,
            ) == "2024-04"@) ==> !#[trigger] in_period(e, "2024-01"@, "2024-03"@),
{
    reveal_strlit("2024-01");
    reveal_strlit("2024-02");
    reveal_strlit("2024-03");
    let s = before.entries;
    let all = kind_in_period(kind, "2024-01"@, "2024-03"@);
    let k1 = kind_in_month(kind, "2024-01"@);
    let k2 = kind_in_month(kind, "2024-02"@);
    let k3 = kind_in_month(kind, "2024-03"@);
    assert forall|i: int| 0 <= i < s.len() implies (all(#[trigger] s[i]) <==> (k1(s[i]) || k2(
        s[i],
    ) || k3(s[i]))) && !(k1(s[i]) && k2(s[i])) && !(k1(s[i]) && k3(s[i])) && !(k2(s[i]) && k3(
        s[i],
    )) by {
        assert(crate::entry::valid_entry(s[i]));
        lemma_first_quarter_key(s[i].created_at);
        assert("2024-01"@[6] != "2024-02"@[6]);
        assert("2024-01"@[6] != "2024-03"@[6]);
        assert("2024-02"@[6] != "2024-03"@[6]);
    }
    lemma_sum_three(s, all, k1, k2, k3);
    assert forall|e: EntryView|
        stamp_shaped(e.created_at) && (month_key(e.created_at) == "2023-12"@ || month_key(
            e.created_at,
        ) == "2024-04"@) implies !#[trigger] in_period(e, "2024-01"@, "2024-03"@) by {
        lemma_first_quarter_key(e.created_at);
    }
}

} // verus!
