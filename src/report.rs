use vstd::prelude::*;
use crate::kind::Kind;
use crate::text::{text_less, month_key, lemma_text_less_total, lemma_text_less_transitive,
    lemma_text_le_antisymmetric, str_less, str_eq, month_of};
use crate::entry::{Entry, EntryView, LedgerError, CategoryTotal, CategoryTotalView, MonthSummary,
    RangeSummary, entry_views};
use crate::ledger::{Ledger, in_period};

verus! {

/// The sum of the amounts of the entries of `s` that `keep` admits.
pub open spec fn sum_amounts(s: Seq<EntryView>, keep: spec_fn(EntryView) -> bool) -> int
    decreases s.len(),
{
    if s.len() == 0 {
        0
    } else {
        sum_amounts(s.drop_last(), keep) + if keep(s.last()) {
            s.last().amount
        } else {
            0
        }
    }
}

/// The sum of the amounts of one kind in month `ym`.
pub open spec fn month_total(s: Seq<EntryView>, kind: Kind, ym: Seq<char>) -> int {
    sum_amounts(s, kind_in_month(kind, ym))
}

/// The sum of the amounts of one kind over the months `start ..= end`.
pub open spec fn range_total(s: Seq<EntryView>, kind: Kind, start: Seq<char>, end: Seq<char>) -> int {
    sum_amounts(s, kind_in_period(kind, start, end))
}

/// Of the entries that `keep` admits, those of category `c`.
pub open spec fn category_keep(keep: spec_fn(EntryView) -> bool, c: Seq<char>) -> spec_fn(
    EntryView,
) -> bool {
    |e: EntryView| keep(e) && e.category == c
}

/// Some entry of `src` that `keep` admits has category `c`.
pub open spec fn kept_category(src: Seq<EntryView>, keep: spec_fn(EntryView) -> bool, c: Seq<char>) -> bool {
    exists|j: int| 0 <= j < src.len() && keep(#[trigger] src[j]) && src[j].category == c
}

/// Report order: the larger total first; equal totals by category, in lexicographic order.
pub open spec fn totals_before(a: CategoryTotalView, b: CategoryTotalView) -> bool {
    a.total > b.total || (a.total == b.total && text_less(a.category, b.category))
}

pub open spec fn in_totals_order(s: Seq<CategoryTotalView>) -> bool {
    forall|i: int, j: int| 0 <= i < j < s.len() ==> #[trigger] totals_before(s[i], s[j])
}

pub open spec fn total_views(v: Seq<CategoryTotal>) -> Seq<CategoryTotalView> {
    v.map_values(|t: CategoryTotal| t@)
}

/// No category's sum over the entries that `keep` admits exceeds the 64-bit range.
pub open spec fn fits_by_category(src: Seq<EntryView>, keep: spec_fn(EntryView) -> bool) -> bool {
    forall|j: int|
        0 <= j < src.len() && #[trigger] keep(src[j]) ==> sum_amounts(
            src,
            category_keep(keep, src[j].category),
        ) <= i64::MAX
}

/// `r` holds one row per category among the entries that `keep` admits, with its sum, in
/// report order.
pub open spec fn is_totals(
    src: Seq<EntryView>,
    keep: spec_fn(EntryView) -> bool,
    r: Seq<CategoryTotalView>,
) -> bool {
    &&& in_totals_order(r)
    &&& forall|i: int|
        0 <= i < r.len() ==> (#[trigger] r[i]).total == sum_amounts(
            src,
            category_keep(keep, r[i].category),
        )
    &&& forall|i: int| 0 <= i < r.len() ==> kept_category(src, keep, (#[trigger] r[i]).category)
    &&& forall|j: int|
        0 <= j < src.len() && #[trigger] keep(src[j]) ==> exists|i: int|
            0 <= i < r.len() && (#[trigger] r[i]).category == src[j].category
}

pub open spec fn nonnegative_amounts(s: Seq<EntryView>) -> bool {
    forall|i: int| 0 <= i < s.len() ==> (#[trigger] s[i]).amount >= 0
}

proof fn lemma_sum_step(s: Seq<EntryView>, n: int, keep: spec_fn(EntryView) -> bool)
    requires
        0 <= n < s.len(),
    ensures
        sum_amounts(s.subrange(0, n + 1), keep) == sum_amounts(s.subrange(0, n), keep) + if keep(
            s[n],
        ) {
            s[n].amount
        } else {
            0
        },
{
    assert(s.subrange(0, n + 1).drop_last() =~= s.subrange(0, n));
}

/// With no negative amount, a prefix sums to no more than the whole.
pub proof fn lemma_sum_prefix_le(s: Seq<EntryView>, n: int, keep: spec_fn(EntryView) -> bool)
    requires
        0 <= n <= s.len(),
        nonnegative_amounts(s),
    ensures
        sum_amounts(s.subrange(0, n), keep) <= sum_amounts(s, keep),
        sum_amounts(s, keep) >= 0,
    decreases s.len(),
{
    if s.len() == 0 {
    } else {
        let t = s.drop_last();
        assert(nonnegative_amounts(t)) by {
            assert forall|i: int| 0 <= i < t.len() implies (#[trigger] t[i]).amount >= 0 by {
                assert(t[i] == s[i]);
            }
        }
        assert(s.last().amount >= 0);
        if n == s.len() {
            assert(s.subrange(0, n) =~= s);
            lemma_sum_prefix_le(t, t.len() as int, keep);
        } else {
            assert(t.subrange(0, n) =~= s.subrange(0, n));
            lemma_sum_prefix_le(t, n, keep);
        }
    }
}

/// A sum over entries that `keep` never admits is zero.
proof fn lemma_sum_none_kept(s: Seq<EntryView>, keep: spec_fn(EntryView) -> bool)
    requires
        forall|i: int| 0 <= i < s.len() ==> !keep(#[trigger] s[i]),
    ensures
        sum_amounts(s, keep) == 0,
    decreases s.len(),
{
    if s.len() > 0 {
        let t = s.drop_last();
        assert forall|i: int| 0 <= i < t.len() implies !keep(#[trigger] t[i]) by {
            assert(t[i] == s[i]);
        }
        lemma_sum_none_kept(t, keep);
    }
}

proof fn lemma_amounts_nonnegative(ledger: &Ledger)
    requires
        ledger@.wf(),
    ensures
        nonnegative_amounts(ledger@.entries),
{
    assert forall|i: int| 0 <= i < ledger@.entries.len() implies (
    #[trigger] ledger@.entries[i]).amount >= 0 by {
        assert(crate::entry::valid_entry(ledger@.entries[i]));
    }
}

/// Income and expense over the months `start ..= end`, or `None` when one does not fit.
fn period_totals(ledger: &Ledger, start: &str, end: &str) -> (r: Option<(i64, i64)>)
    requires
        ledger@.wf(),
    ensures
        r is Some <==> (range_total(ledger@.entries, Kind::Income, start@, end@) <= i64::MAX
            && range_total(ledger@.entries, Kind::Expense, start@, end@) <= i64::MAX),
        r is Some ==> r->Some_0.0 == range_total(ledger@.entries, Kind::Income, start@, end@)
            && r->Some_0.1 == range_total(ledger@.entries, Kind::Expense, start@, end@),
        r is Some ==> r->Some_0.0 >= 0 && r->Some_0.1 >= 0,
{
    let rows = ledger.rows();
    let ghost src = ledger@.entries;
    let ghost ki = kind_in_period(Kind::Income, start@, end@);
    let ghost kx = kind_in_period(Kind::Expense, start@, end@);
    proof {
        lemma_amounts_nonnegative(ledger);
    }
    let mut income: i64 = 0;
    let mut expense: i64 = 0;
    let mut i: usize = 0;
    while i < rows.len()
        invariant
            src == ledger@.entries,
            entry_views(rows@) == src,
            nonnegative_amounts(src),
            ki == kind_in_period(Kind::Income, start@, end@),
            kx == kind_in_period(Kind::Expense, start@, end@),
            i <= rows@.len(),
            income >= 0,
            expense >= 0,
            income == sum_amounts(src.subrange(0, i as int), ki),
            expense == sum_amounts(src.subrange(0, i as int), kx),
        decreases rows@.len() - i,
    {
        let e = &rows[i];
        assert(src[i as int] == e@);
        assert(e.amount >= 0);
        proof {
            lemma_sum_step(src, i as int, ki);
            lemma_sum_step(src, i as int, kx);
            lemma_sum_prefix_le(src, i + 1, ki);
            lemma_sum_prefix_le(src, i + 1, kx);
        }
        let key = month_of(e.created_at.as_str());
        let inside = !str_less(key, start) && !str_less(end, key);
        if inside {
            match e.kind {
                Kind::Income => {
                    if e.amount > i64::MAX - income {
                        return None;
                    }
                    income = income + e.amount;
                },
                Kind::Expense => {
                    if e.amount > i64::MAX - expense {
                        return None;
                    }
                    expense = expense + e.amount;
                },
            }
        }
        i = i + 1;
    }
    proof {
        assert(src.subrange(0, i as int) =~= src);
    }
    Some((income, expense))
}

/// Income, expense and balance of month `ym` (`YYYY-MM`); months without entries give zeros.
pub fn month_summary(ledger: &Ledger, ym: &str) -> (r: Result<MonthSummary, LedgerError>)
    requires
        ledger@.wf(),
    ensures
        r is Ok <==> (month_total(ledger@.entries, Kind::Income, ym@) <= i64::MAX
            && month_total(ledger@.entries, Kind::Expense, ym@) <= i64::MAX),
        r is Err ==> r->Err_0 == LedgerError::Overflow,
        r is Ok ==> ({
            let s = r->Ok_0;
            &&& s.month@ == ym@
            &&& s.income == month_total(ledger@.entries, Kind::Income, ym@)
            &&& s.expense == month_total(ledger@.entries, Kind::Expense, ym@)
            &&& s.balance == s.income - s.expense
        }),
{
    proof {
        lemma_month_keep_is_period(Kind::Income, ym@);
        lemma_month_keep_is_period(Kind::Expense, ym@);
    }
    match period_totals(ledger, ym, ym) {
        Some((income, expense)) => Ok(
            MonthSummary { month: ym.to_owned(), income, expense, balance: income - expense },
        ),
        None => Err(LedgerError::Overflow),
    }
}

/// Income, expense and balance over the months `start ..= end`.
pub fn summary_in_range(ledger: &Ledger, start: &str, end: &str) -> (r: Result<
    RangeSummary,
    LedgerError,
>)
    requires
        ledger@.wf(),
    ensures
        text_less(end@, start@) ==> r == Err::<RangeSummary, LedgerError>(
            LedgerError::InvalidRange,
        ),
        r is Ok <==> (!text_less(end@, start@) && range_total(
            ledger@.entries,
            Kind::Income,
            start@,
            end@,
        ) <= i64::MAX && range_total(ledger@.entries, Kind::Expense, start@, end@) <= i64::MAX),
        r is Err && !text_less(end@, start@) ==> r->Err_0 == LedgerError::Overflow,
        r is Ok ==> ({
            let s = r->Ok_0;
            &&& s.start_month@ == start@
            &&& s.end_month@ == end@
            &&& s.income == range_total(ledger@.entries, Kind::Income, start@, end@)
            &&& s.expense == range_total(ledger@.entries, Kind::Expense, start@, end@)
            &&& s.balance == s.income - s.expense
        }),
{
    if str_less(end, start) {
        return Err(LedgerError::InvalidRange);
    }
    match period_totals(ledger, start, end) {
        Some((income, expense)) => Ok(
            RangeSummary {
                start_month: start.to_owned(),
                end_month: end.to_owned(),
                income,
                expense,
                balance: income - expense,
            },
        ),
        None => Err(LedgerError::Overflow),
    }
}

/// Of two rows with distinct categories, one comes before the other, never both.
pub proof fn lemma_totals_before_total(a: CategoryTotalView, b: CategoryTotalView)
    ensures
        a.category != b.category ==> (totals_before(a, b) || totals_before(b, a)),
        !(totals_before(a, b) && totals_before(b, a)),
{
    lemma_text_less_total(a.category, b.category);
}

pub proof fn lemma_totals_before_transitive(
    a: CategoryTotalView,
    b: CategoryTotalView,
    c: CategoryTotalView,
)
    requires
        totals_before(a, b),
        totals_before(b, c),
    ensures
        totals_before(a, c),
{
    if a.total == b.total && b.total == c.total {
        lemma_text_less_transitive(a.category, b.category, c.category);
    }
}

fn copy_total(t: &CategoryTotal) -> (r: CategoryTotal)
    ensures
        r@ == t@,
{
    CategoryTotal { category: t.category.clone(), total: t.total }
}

/// Inserts `t` into `out` at the place that keeps report order.
fn insert_by_total(out: &mut Vec<CategoryTotal>, t: CategoryTotal)
    requires
        in_totals_order(total_views(old(out)@)),
        forall|k: int|
            0 <= k < old(out)@.len() ==> (#[trigger] old(out)@[k])@.category != t@.category,
    ensures
        in_totals_order(total_views(final(out)@)),
        forall|x: CategoryTotalView|
            total_views(final(out)@).contains(x) <==> (x == t@ || total_views(old(out)@).contains(
                x,
            )),
{
    let ghost before = total_views(out@);
    let ghost tv = t@;
    let mut pos: usize = 0;
    let mut found = false;
    while !found && pos < out.len()
        invariant
            before == total_views(out@),
            tv == t@,
            pos <= out@.len(),
            found ==> pos < out@.len() && totals_before(tv, before[pos as int]),
            forall|k: int| 0 <= k < pos ==> totals_before(#[trigger] before[k], tv),
            forall|k: int| 0 <= k < out@.len() ==> (#[trigger] out@[k])@.category != tv.category,
        decreases out@.len() - pos + (if found { 0int } else { 1int }),
    {
        assert(before[pos as int] == out@[pos as int]@);
        proof {
            assert(out@[pos as int]@.category != tv.category);
            lemma_totals_before_total(before[pos as int], tv);
        }
        let cur = out[pos].total;
        if t.total > cur || (t.total == cur && str_less(t.category.as_str(), out[pos].category.as_str())) {
            found = true;
        } else {
            pos = pos + 1;
        }
    }
    proof {
        assert forall|m: int| pos <= m < before.len() implies totals_before(tv, #[trigger] before[m]) by {
            if m > pos {
                lemma_totals_before_transitive(tv, before[pos as int], before[m]);
            }
        }
    }
    out.insert(pos, t);
    proof {
        let after = total_views(out@);
        assert(after =~= before.insert(pos as int, tv));
        assert forall|i: int, j: int| 0 <= i < j < after.len() implies #[trigger] totals_before(
            after[i],
            after[j],
        ) by {
            if j < pos {
            } else if i < pos && j == pos {
            } else if i < pos {
                assert(totals_before(tv, before[j - 1]));
                lemma_totals_before_transitive(before[i], tv, before[j - 1]);
            } else if i == pos {
                assert(totals_before(tv, before[j - 1]));
            } else {
            }
        }
        assert forall|x: CategoryTotalView| after.contains(x) <==> (x == tv || before.contains(x)) by {
            if after.contains(x) {
                let i = choose|i: int| 0 <= i < after.len() && after[i] == x;
                if i > pos {
                    assert(before[i - 1] == x);
                } else if i < pos {
                    assert(before[i] == x);
                }
            }
            if x == tv {
                assert(after[pos as int] == x);
            }
            if before.contains(x) {
                let i = choose|i: int| 0 <= i < before.len() && before[i] == x;
                if i >= pos {
                    assert(after[i + 1] == x);
                } else {
                    assert(after[i] == x);
                }
            }
        }
    }
}

/// The entries of one kind whose month lies in `start ..= end`.
pub open spec fn kind_in_period(kind: Kind, start: Seq<char>, end: Seq<char>) -> spec_fn(
    EntryView,
) -> bool {
    |e: EntryView| e.kind == kind && in_period(e, start, end)
}

/// The entries of one kind in month `ym`.
pub open spec fn kind_in_month(kind: Kind, ym: Seq<char>) -> spec_fn(EntryView) -> bool {
    |e: EntryView| e.kind == kind && month_key(e.created_at) == ym
}

/// `g` holds, with distinct categories, one row per category among the entries of `p`
/// that `keep` admits, with that category's sum.
spec fn groups_of(g: Seq<CategoryTotalView>, p: Seq<EntryView>, keep: spec_fn(EntryView) -> bool) -> bool {
    &&& forall|a: int|
        0 <= a < g.len() ==> (#[trigger] g[a]).total == sum_amounts(
            p,
            category_keep(keep, g[a].category),
        ) && 0 <= g[a].total <= i64::MAX
    &&& forall|a: int, b: int|
        0 <= a < g.len() && 0 <= b < g.len() && a != b ==> (#[trigger] g[a]).category != (
        #[trigger] g[b]).category
    &&& forall|a: int| 0 <= a < g.len() ==> kept_category(p, keep, (#[trigger] g[a]).category)
    &&& forall|j: int|
        0 <= j < p.len() && #[trigger] keep(p[j]) ==> exists|a: int|
            0 <= a < g.len() && (#[trigger] g[a]).category == p[j].category
}

pub proof fn lemma_sum_push(p: Seq<EntryView>, x: EntryView, keep: spec_fn(EntryView) -> bool)
    ensures
        sum_amounts(p.push(x), keep) == sum_amounts(p, keep) + if keep(x) {
            x.amount
        } else {
            0
        },
{
    assert(p.push(x).drop_last() =~= p);
}

/// An entry that `keep` refuses changes no row.
proof fn lemma_groups_skip(
    g: Seq<CategoryTotalView>,
    p: Seq<EntryView>,
    keep: spec_fn(EntryView) -> bool,
    x: EntryView,
)
    requires
        groups_of(g, p, keep),
        !keep(x),
    ensures
        groups_of(g, p.push(x), keep),
{
    let q = p.push(x);
    assert forall|a: int| 0 <= a < g.len() implies (#[trigger] g[a]).total == sum_amounts(
        q,
        category_keep(keep, g[a].category),
    ) by {
        lemma_sum_push(p, x, category_keep(keep, g[a].category));
    }
    assert forall|a: int| 0 <= a < g.len() implies kept_category(q, keep, (#[trigger] g[a]).category) by {
        let j = choose|j: int|
            0 <= j < p.len() && keep(#[trigger] p[j]) && p[j].category == g[a].category;
        assert(q[j] == p[j]);
        assert(0 <= j < q.len() && keep(q[j]) && q[j].category == g[a].category);
    }
    assert forall|j: int| 0 <= j < q.len() && #[trigger] keep(q[j]) implies exists|a: int|
        0 <= a < g.len() && (#[trigger] g[a]).category == q[j].category by {
        if j < p.len() {
            assert(q[j] == p[j]);
            assert(keep(p[j]));
        } else {
            assert(q[j] == x);
        }
    }
    assert(forall|a: int| 0 <= a < g.len() ==> 0 <= (#[trigger] g[a]).total <= i64::MAX);
    assert(forall|a: int, b: int|
        0 <= a < g.len() && 0 <= b < g.len() && a != b ==> (#[trigger] g[a]).category != (
        #[trigger] g[b]).category);
}

/// Adds the amount of `e`, which `keep` admits, to the row of its category.
/// Returns false, and leaves the rows unchanged, when that row's sum would leave the 64-bit range.
fn record_entry(
    groups: &mut Vec<CategoryTotal>,
    e: &Entry,
    Ghost(p): Ghost<Seq<EntryView>>,
    Ghost(keep): Ghost<spec_fn(EntryView) -> bool>,
) -> (r: bool)
    requires
        groups_of(total_views(old(groups)@), p, keep),
        keep(e@),
        e.amount >= 0,
        nonnegative_amounts(p),
    ensures
        r ==> groups_of(total_views(final(groups)@), p.push(e@), keep),
        !r ==> sum_amounts(p.push(e@), category_keep(keep, e@.category)) > i64::MAX,
{
    let ghost c = e@.category;
    let ghost q = p.push(e@);
    let ghost prev = total_views(groups@);
    let mut g: usize = 0;
    let mut found = false;
    while !found && g < groups.len()
        invariant
            prev == total_views(groups@),
            g <= groups@.len(),
            found ==> g < groups@.len() && groups@[g as int]@.category == c,
            forall|k: int| 0 <= k < g ==> (#[trigger] prev[k]).category != c,
            c == e.category@,
        decreases groups@.len() - g + (if found { 0int } else { 1int }),
    {
        assert(prev[g as int] == groups@[g as int]@);
        if str_eq(groups[g].category.as_str(), e.category.as_str()) {
            found = true;
        } else {
            g = g + 1;
        }
    }
    proof {
        assert forall|a: int| 0 <= a < prev.len() && (#[trigger] prev[a]).category != c implies sum_amounts(
            q,
            category_keep(keep, prev[a].category),
        ) == sum_amounts(p, category_keep(keep, prev[a].category)) by {
            lemma_sum_push(p, e@, category_keep(keep, prev[a].category));
        }
        lemma_sum_push(p, e@, category_keep(keep, c));
    }
    if found {
        let t = groups[g].total;
        assert(prev[g as int] == groups@[g as int]@);
        if e.amount > i64::MAX - t {
            return false;
        }
        let updated = CategoryTotal { category: groups[g].category.clone(), total: t + e.amount };
        groups.set(g, updated);
        proof {
            let next = total_views(groups@);
            assert(next =~= prev.update(g as int, next[g as int]));
            assert forall|a: int| 0 <= a < next.len() implies kept_category(q, keep, (#[trigger] next[a]).category) by {
                let j = choose|j: int|
                    0 <= j < p.len() && keep(#[trigger] p[j]) && p[j].category == prev[a].category;
                assert(q[j] == p[j]);
            }
            assert forall|j: int| 0 <= j < q.len() && #[trigger] keep(q[j]) implies exists|a: int|
                0 <= a < next.len() && (#[trigger] next[a]).category == q[j].category by {
                if j == p.len() {
                    assert(next[g as int].category == q[j].category);
                } else {
                    assert(q[j] == p[j]);
                    let a = choose|a: int|
                        0 <= a < prev.len() && (#[trigger] prev[a]).category == p[j].category;
                    assert(next[a].category == q[j].category);
                }
            }
            assert forall|a: int, b: int|
                0 <= a < next.len() && 0 <= b < next.len() && a != b implies (
                #[trigger] next[a]).category != (#[trigger] next[b]).category by {
                assert(prev[a].category != prev[b].category);
            }
        }
        true
    } else {
        proof {
            assert forall|j: int| 0 <= j < p.len() implies !category_keep(keep, c)(#[trigger] p[j]) by {
                if keep(p[j]) && p[j].category == c {
                    let a = choose|a: int|
                        0 <= a < prev.len() && (#[trigger] prev[a]).category == p[j].category;
                }
            }
            lemma_sum_none_kept(p, category_keep(keep, c));
        }
        let fresh = CategoryTotal { category: e.category.clone(), total: e.amount };
        groups.push(fresh);
        proof {
            let next = total_views(groups@);
            let n = prev.len() as int;
            assert(next =~= prev.push(next[n]));
            assert(next[n].category == c);
            assert forall|a: int| 0 <= a < next.len() implies kept_category(q, keep, (#[trigger] next[a]).category) by {
                if a == n {
                    assert(q[p.len() as int].category == next[a].category);
                } else {
                    let j = choose|j: int|
                        0 <= j < p.len() && keep(#[trigger] p[j]) && p[j].category == prev[a].category;
                    assert(q[j] == p[j]);
                }
            }
            assert forall|j: int| 0 <= j < q.len() && #[trigger] keep(q[j]) implies exists|a: int|
                0 <= a < next.len() && (#[trigger] next[a]).category == q[j].category by {
                if j == p.len() {
                    assert(next[n].category == q[j].category);
                } else {
                    assert(q[j] == p[j]);
                    let a = choose|a: int|
                        0 <= a < prev.len() && (#[trigger] prev[a]).category == p[j].category;
                    assert(next[a].category == q[j].category);
                }
            }
            assert forall|a: int, b: int|
                0 <= a < next.len() && 0 <= b < next.len() && a != b implies (
                #[trigger] next[a]).category != (#[trigger] next[b]).category by {
                if a < n && b < n {
                    assert(prev[a].category != prev[b].category);
                }
            }
        }
        true
    }
}

/// The rows of `groups`, whose categories are distinct, in report order.
fn sort_totals(groups: &Vec<CategoryTotal>) -> (r: Vec<CategoryTotal>)
    requires
        forall|a: int, b: int|
            0 <= a < groups@.len() && 0 <= b < groups@.len() && a != b ==> (
            #[trigger] groups@[a])@.category != (#[trigger] groups@[b])@.category,
    ensures
        in_totals_order(total_views(r@)),
        forall|x: CategoryTotalView|
            total_views(r@).contains(x) <==> total_views(groups@).contains(x),
{
    let ghost g = total_views(groups@);
    let mut out: Vec<CategoryTotal> = Vec::new();
    let mut k: usize = 0;
    while k < groups.len()
        invariant
            g == total_views(groups@),
            k <= groups@.len(),
            in_totals_order(total_views(out@)),
            forall|x: CategoryTotalView|
                total_views(out@).contains(x) <==> exists|a: int| 0 <= a < k && #[trigger] g[a] == x,
            forall|a: int, b: int|
                0 <= a < groups@.len() && 0 <= b < groups@.len() && a != b ==> (
                #[trigger] groups@[a])@.category != (#[trigger] groups@[b])@.category,
        decreases groups@.len() - k,
    {
        proof {
            assert forall|m: int| 0 <= m < out@.len() implies (#[trigger] out@[m])@.category
                != groups@[k as int]@.category by {
                assert(total_views(out@)[m] == out@[m]@);
                assert(total_views(out@).contains(out@[m]@));
                let a = choose|a: int| 0 <= a < k && #[trigger] g[a] == out@[m]@;
                assert(groups@[a]@.category != groups@[k as int]@.category);
            }
        }
        let ghost before = total_views(out@);
        insert_by_total(&mut out, copy_total(&groups[k]));
        proof {
            assert forall|x: CategoryTotalView|
                total_views(out@).contains(x) <==> exists|a: int|
                    0 <= a < k + 1 && #[trigger] g[a] == x by {
                if before.contains(x) {
                    let a = choose|a: int| 0 <= a < k && #[trigger] g[a] == x;
                    assert(0 <= a < k + 1 && g[a] == x);
                }
                if x == g[k as int] {
                    assert(0 <= k < k + 1 && g[k as int] == x);
                }
                if exists|a: int| 0 <= a < k + 1 && #[trigger] g[a] == x {
                    let a = choose|a: int| 0 <= a < k + 1 && #[trigger] g[a] == x;
                    if a < k {
                        assert(0 <= a < k && g[a] == x);
                    }
                }
            }
        }
        k = k + 1;
    }
    proof {
        assert forall|x: CategoryTotalView|
            total_views(out@).contains(x) <==> g.contains(x) by {
            if g.contains(x) {
                let a = choose|a: int| 0 <= a < g.len() && g[a] == x;
                assert(0 <= a < k && g[a] == x);
            }
        }
    }
    out
}

/// Rows with the sums over all of `src`, put in report order, are its category totals.
proof fn lemma_groups_are_totals(
    g: Seq<CategoryTotalView>,
    r: Seq<CategoryTotalView>,
    src: Seq<EntryView>,
    keep: spec_fn(EntryView) -> bool,
)
    requires
        groups_of(g, src, keep),
        in_totals_order(r),
        forall|x: CategoryTotalView| r.contains(x) <==> g.contains(x),
    ensures
        is_totals(src, keep, r),
        fits_by_category(src, keep),
{
    assert forall|m: int| 0 <= m < r.len() implies (#[trigger] r[m]).total == sum_amounts(
        src,
        category_keep(keep, r[m].category),
    ) by {
        assert(r.contains(r[m]));
        let a = choose|a: int| 0 <= a < g.len() && g[a] == r[m];
    }
    assert forall|m: int| 0 <= m < r.len() implies kept_category(src, keep, (#[trigger] r[m]).category) by {
        assert(r.contains(r[m]));
        let a = choose|a: int| 0 <= a < g.len() && g[a] == r[m];
        let j = choose|j: int|
            0 <= j < src.len() && keep(#[trigger] src[j]) && src[j].category == g[a].category;
        assert(0 <= j < src.len() && keep(src[j]) && src[j].category == r[m].category);
    }
    assert forall|j: int| 0 <= j < src.len() && #[trigger] keep(src[j]) implies exists|m: int|
        0 <= m < r.len() && (#[trigger] r[m]).category == src[j].category by {
        let a = choose|a: int| 0 <= a < g.len() && (#[trigger] g[a]).category == src[j].category;
        assert(g.contains(g[a]));
        assert(r.contains(g[a]));
        let m = choose|m: int| 0 <= m < r.len() && r[m] == g[a];
        assert(r[m].category == src[j].category);
    }
    assert(in_totals_order(r));
    assert forall|j: int| 0 <= j < src.len() && #[trigger] keep(src[j]) implies sum_amounts(
        src,
        category_keep(keep, src[j].category),
    ) <= i64::MAX by {
        let a = choose|a: int| 0 <= a < g.len() && (#[trigger] g[a]).category == src[j].category;
    }
}

/// Per-category sums of one kind over the months `start ..= end`, in report order.
fn period_category_totals(ledger: &Ledger, kind: Kind, start: &str, end: &str) -> (r: Result<
    Vec<CategoryTotal>,
    LedgerError,
>)
    requires
        ledger@.wf(),
    ensures
        r is Ok <==> fits_by_category(ledger@.entries, kind_in_period(kind, start@, end@)),
        r is Ok ==> is_totals(
            ledger@.entries,
            kind_in_period(kind, start@, end@),
            total_views(r->Ok_0@),
        ),
        r is Err ==> r->Err_0 == LedgerError::Overflow,
{
    let rows = ledger.rows();
    let ghost src = ledger@.entries;
    let ghost keep = kind_in_period(kind, start@, end@);
    proof {
        lemma_amounts_nonnegative(ledger);
    }
    let mut groups: Vec<CategoryTotal> = Vec::new();
    let mut i: usize = 0;
    proof {
        assert(groups_of(total_views(groups@), src.subrange(0, 0), keep));
    }
    while i < rows.len()
        invariant
            src == ledger@.entries,
            entry_views(rows@) == src,
            nonnegative_amounts(src),
            keep == kind_in_period(kind, start@, end@),
            i <= rows@.len(),
            groups_of(total_views(groups@), src.subrange(0, i as int), keep),
        decreases rows@.len() - i,
    {
        let e = &rows[i];
        let ghost p = src.subrange(0, i as int);
        assert(src[i as int] == e@);
        assert(e.amount >= 0);
        assert(p.push(e@) =~= src.subrange(0, i + 1));
        assert(nonnegative_amounts(p)) by {
            assert forall|k: int| 0 <= k < p.len() implies (#[trigger] p[k]).amount >= 0 by {
                assert(p[k] == src[k]);
            }
        }
        let key = month_of(e.created_at.as_str());
        let kept = e.kind == kind && !str_less(key, start) && !str_less(end, key);
        assert(kept == keep(e@));
        if kept {
            if !record_entry(&mut groups, e, Ghost(p), Ghost(keep)) {
                proof {
                    lemma_sum_prefix_le(src, i + 1, category_keep(keep, e@.category));
                    assert(keep(src[i as int]));
                }
                return Err(LedgerError::Overflow);
            }
        } else {
            proof {
                lemma_groups_skip(total_views(groups@), p, keep, e@);
            }
        }
        i = i + 1;
    }
    proof {
        assert(src.subrange(0, i as int) =~= src);
    }
    proof {
        let g = total_views(groups@);
        assert forall|a: int, b: int|
            0 <= a < groups@.len() && 0 <= b < groups@.len() && a != b implies (
            #[trigger] groups@[a])@.category != (#[trigger] groups@[b])@.category by {
            assert(g[a] == groups@[a]@);
            assert(g[b] == groups@[b]@);
        }
    }
    let out = sort_totals(&groups);
    proof {
        lemma_groups_are_totals(total_views(groups@), total_views(out@), src, keep);
    }
    Ok(out)
}

proof fn lemma_month_keep_is_period(kind: Kind, ym: Seq<char>)
    ensures
        kind_in_month(kind, ym) == kind_in_period(kind, ym, ym),
{
    let k1 = kind_in_month(kind, ym);
    let k2 = kind_in_period(kind, ym, ym);
    assert forall|e: EntryView| #[trigger] k1(e) == k2(e) by {
        lemma_text_le_antisymmetric(month_key(e.created_at), ym);
    }
    assert(k1 =~= k2);
}

/// Per-category sums of one kind in month `ym`, the largest first, equal sums by category.
pub fn category_totals_by_kind(ledger: &Ledger, ym: &str, kind: Kind) -> (r: Result<
    Vec<CategoryTotal>,
    LedgerError,
>)
    requires
        ledger@.wf(),
    ensures
        r is Ok <==> fits_by_category(ledger@.entries, kind_in_month(kind, ym@)),
        r is Ok ==> is_totals(ledger@.entries, kind_in_month(kind, ym@), total_views(r->Ok_0@)),
        r is Err ==> r->Err_0 == LedgerError::Overflow,
{
    proof {
        lemma_month_keep_is_period(kind, ym@);
    }
    period_category_totals(ledger, kind, ym, ym)
}

/// Per-category sums of one kind over the months `start ..= end`, in the same order.
pub fn category_totals_by_kind_in_range(
    ledger: &Ledger,
    start: &str,
    end: &str,
    kind: Kind,
) -> (r: Result<Vec<CategoryTotal>, LedgerError>)
    requires
        ledger@.wf(),
    ensures
        text_less(end@, start@) ==> r == Err::<Vec<CategoryTotal>, LedgerError>(
            LedgerError::InvalidRange,
        ),
        r is Ok <==> (!text_less(end@, start@) && fits_by_category(
            ledger@.entries,
            kind_in_period(kind, start@, end@),
        )),
        r is Ok ==> is_totals(
            ledger@.entries,
            kind_in_period(kind, start@, end@),
            total_views(r->Ok_0@),
        ),
        r is Err && !text_less(end@, start@) ==> r->Err_0 == LedgerError::Overflow,
{
    if str_less(end, start) {
        return Err(LedgerError::InvalidRange);
    }
    period_category_totals(ledger, kind, start, end)
}

} // verus!
