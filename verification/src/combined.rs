//! Amortization schedules of several loans merged month by month.

use vstd::prelude::*;
use std::collections::BTreeMap;
use vstd::std_specs::iter::IteratorSpec;
use vstd::std_specs::cmp::OrdSpec;
use crate::calendar::{date_text, date_to_string, Date, MAX_YEAR, MIN_YEAR};
use crate::extras::abs_int;
use crate::money::{fits_i64, max_int, min_of};
use crate::payoff_timeline::{lemma_month_start_wf, month_start};
use crate::projection::{
    amortization_fits, amortization_fits_check, projectable_check, amortization_rows, dated_rows_spec, lemma_projected_dates_wf, projectable,
    projected_steps, AmortizationRow, DatedRow,
};
use crate::types::LoanCalcInput;

verus! {

pub open spec fn row_key(r: DatedRow) -> int {
    r.date.month_index()
}

/// Rows of all loans that still owe something, loan after loan.
pub open spec fn combined_entries(loans: Seq<LoanCalcInput>, as_of: Date) -> Seq<DatedRow>
    decreases loans.len(),
{
    if loans.len() == 0 {
        Seq::empty()
    } else {
        combined_entries(loans.drop_last(), as_of) + if loans.last().remaining_balance_minor > 0 {
            dated_rows_spec(loans.last(), as_of)
        } else {
            Seq::empty()
        }
    }
}

/// Sum of the balances still owed.
pub open spec fn owed_total(loans: Seq<LoanCalcInput>) -> int
    decreases loans.len(),
{
    if loans.len() == 0 {
        0
    } else {
        owed_total(loans.drop_last()) + if loans.last().remaining_balance_minor > 0 {
            loans.last().remaining_balance_minor as int
        } else {
            0
        }
    }
}

pub open spec fn key_payment(e: Seq<DatedRow>, q: int) -> int
    decreases e.len(),
{
    if e.len() == 0 {
        0
    } else {
        key_payment(e.drop_last(), q) + if row_key(e.last()) == q {
            e.last().payment_minor as int
        } else {
            0
        }
    }
}

pub open spec fn key_interest(e: Seq<DatedRow>, q: int) -> int
    decreases e.len(),
{
    if e.len() == 0 {
        0
    } else {
        key_interest(e.drop_last(), q) + if row_key(e.last()) == q {
            e.last().interest_minor as int
        } else {
            0
        }
    }
}

pub open spec fn key_principal(e: Seq<DatedRow>, q: int) -> int
    decreases e.len(),
{
    if e.len() == 0 {
        0
    } else {
        key_principal(e.drop_last(), q) + if row_key(e.last()) == q {
            e.last().principal_minor as int
        } else {
            0
        }
    }
}

/// Principal of all rows in months up to and including `q`.
pub open spec fn principal_upto(e: Seq<DatedRow>, q: int) -> int
    decreases e.len(),
{
    if e.len() == 0 {
        0
    } else {
        principal_upto(e.drop_last(), q) + if row_key(e.last()) <= q {
            e.last().principal_minor as int
        } else {
            0
        }
    }
}

pub open spec fn abs_payment(e: Seq<DatedRow>) -> int
    decreases e.len(),
{
    if e.len() == 0 {
        0
    } else {
        abs_payment(e.drop_last()) + abs_int(e.last().payment_minor as int)
    }
}

pub open spec fn abs_interest(e: Seq<DatedRow>) -> int
    decreases e.len(),
{
    if e.len() == 0 {
        0
    } else {
        abs_interest(e.drop_last()) + abs_int(e.last().interest_minor as int)
    }
}

pub open spec fn abs_principal(e: Seq<DatedRow>) -> int
    decreases e.len(),
{
    if e.len() == 0 {
        0
    } else {
        abs_principal(e.drop_last()) + abs_int(e.last().principal_minor as int)
    }
}

/// Entries with a month after `q`.
pub open spec fn count_above(e: Seq<DatedRow>, q: int) -> nat
    decreases e.len(),
{
    if e.len() == 0 {
        0
    } else {
        count_above(e.drop_last(), q) + if row_key(e.last()) > q {
            1nat
        } else {
            0nat
        }
    }
}

/// The schedules can be computed and merged without leaving `i64`.
pub open spec fn combined_computable(loans: Seq<LoanCalcInput>, as_of: Date) -> bool {
    let e = combined_entries(loans, as_of);
    &&& forall|i: int|
        0 <= i < loans.len() && (#[trigger] loans[i]).remaining_balance_minor > 0 ==> projectable(
            loans[i],
            as_of,
        ) && amortization_fits(loans[i], as_of)
    &&& abs_payment(e) <= i64::MAX
    &&& abs_interest(e) <= i64::MAX
    &&& owed_total(loans) + abs_principal(e) <= i64::MAX
}

/// A merged row: the month, the sums of its rows, and the total balance left after it.
pub open spec fn combined_row_matches(
    row: AmortizationRow,
    q: int,
    e: Seq<DatedRow>,
    owed: int,
) -> bool {
    &&& row.date@ == date_text(month_start(q))
    &&& row.payment_minor == key_payment(e, q)
    &&& row.interest_minor == key_interest(e, q)
    &&& row.principal_minor == key_principal(e, q)
    &&& row.balance_minor == max_int(owed - principal_upto(e, q), 0)
}

pub open spec fn has_key(e: Seq<DatedRow>, q: int) -> bool {
    exists|i: int| 0 <= i < e.len() && row_key(e[i]) == q
}

/// Smallest month after `last` among the entries.
pub open spec fn min_key_above(e: Seq<DatedRow>, last: int) -> Option<int>
    decreases e.len(),
{
    if e.len() == 0 {
        None
    } else {
        let prev = min_key_above(e.drop_last(), last);
        let k = row_key(e.last());
        if k > last {
            match prev {
                Some(m) => if k < m {
                    Some(k)
                } else {
                    Some(m)
                },
                None => Some(k),
            }
        } else {
            prev
        }
    }
}

/// The months of the entries after `last`, ascending (at most `fuel` of them).
pub open spec fn keys_from(e: Seq<DatedRow>, last: int, fuel: nat) -> Seq<int>
    decreases fuel,
{
    if fuel == 0 {
        Seq::empty()
    } else {
        match min_key_above(e, last) {
            None => Seq::empty(),
            Some(q) => seq![q] + keys_from(e, q, (fuel - 1) as nat),
        }
    }
}

/// A month index before every representable date.
pub open spec fn before_all_keys() -> int {
    MIN_YEAR * 12 - 1
}

/// The months that occur among the entries, ascending and each once.
pub open spec fn combined_keys(e: Seq<DatedRow>) -> Seq<int> {
    keys_from(e, before_all_keys(), e.len())
}

pub proof fn lemma_min_key_above(e: Seq<DatedRow>, last: int)
    ensures
        min_key_above(e, last) matches Some(q) ==> q > last && has_key(e, q) && (forall|i: int|
            0 <= i < e.len() && row_key(#[trigger] e[i]) > last ==> row_key(e[i]) >= q),
        min_key_above(e, last) is None ==> forall|i: int|
            0 <= i < e.len() ==> row_key(#[trigger] e[i]) <= last,
        min_key_above(e, last) is None <==> count_above(e, last) == 0,
        count_above(e, last) <= e.len(),
    decreases e.len(),
{
    if e.len() > 0 {
        let d = e.drop_last();
        lemma_min_key_above(d, last);
        assert forall|i: int| 0 <= i < d.len() implies e[i] == #[trigger] d[i] by {}
        match min_key_above(e, last) {
            Some(q) => {
                if row_key(e.last()) == q {
                    assert(row_key(e[e.len() - 1]) == q);
                } else {
                    let w = choose|i: int| 0 <= i < d.len() && row_key(d[i]) == q;
                    assert(row_key(e[w]) == q);
                }
                assert forall|i: int| 0 <= i < e.len() && row_key(#[trigger] e[i]) > last implies row_key(
                    e[i],
                ) >= q by {
                    if i < d.len() {
                        assert(e[i] == d[i]);
                    }
                }
            },
            None => {
                assert forall|i: int| 0 <= i < e.len() implies row_key(#[trigger] e[i]) <= last by {
                    if i < d.len() {
                        assert(e[i] == d[i]);
                    }
                }
            },
        }
    }
}

/// Moving the threshold up to a month that occurs strictly lowers the count above it.
pub proof fn lemma_count_above_drops(e: Seq<DatedRow>, last: int, next: int)
    requires
        last < next,
    ensures
        count_above(e, next) <= count_above(e, last),
        has_key(e, next) ==> count_above(e, next) < count_above(e, last),
    decreases e.len(),
{
    if e.len() > 0 {
        let d = e.drop_last();
        lemma_count_above_drops(d, last, next);
        if has_key(e, next) && row_key(e.last()) != next {
            let w = choose|i: int| 0 <= i < e.len() && row_key(e[i]) == next;
            assert(w < d.len());
            assert(d[w] == e[w]);
            assert(has_key(d, next));
        }
    }
}

/// Between two months with no entry strictly in between, the principal up to the later
/// month adds exactly that month's principal.
pub proof fn lemma_principal_upto_step(e: Seq<DatedRow>, last: int, next: int)
    requires
        last < next,
        forall|i: int| 0 <= i < e.len() ==> !(last < row_key(#[trigger] e[i]) < next),
    ensures
        principal_upto(e, next) == principal_upto(e, last) + key_principal(e, next),
    decreases e.len(),
{
    if e.len() > 0 {
        let d = e.drop_last();
        assert forall|i: int| 0 <= i < d.len() implies !(last < row_key(#[trigger] d[i]) < next) by {
            assert(d[i] == e[i]);
        }
        lemma_principal_upto_step(d, last, next);
        assert(!(last < row_key(e[e.len() - 1]) < next));
    }
}

/// No principal lies at or before a month no entry reaches.
pub proof fn lemma_principal_upto_none(e: Seq<DatedRow>, q: int)
    requires
        forall|i: int| 0 <= i < e.len() ==> row_key(#[trigger] e[i]) > q,
    ensures
        principal_upto(e, q) == 0,
    decreases e.len(),
{
    if e.len() > 0 {
        let d = e.drop_last();
        assert forall|i: int| 0 <= i < d.len() implies row_key(#[trigger] d[i]) > q by {
            assert(d[i] == e[i]);
        }
        lemma_principal_upto_none(d, q);
        assert(row_key(e[e.len() - 1]) > q);
    }
}

pub proof fn lemma_sums_bounded(e: Seq<DatedRow>, q: int)
    ensures
        abs_int(key_payment(e, q)) <= abs_payment(e),
        abs_int(key_interest(e, q)) <= abs_interest(e),
        abs_int(key_principal(e, q)) <= abs_principal(e),
        abs_int(principal_upto(e, q)) <= abs_principal(e),
        abs_payment(e) >= 0,
        abs_interest(e) >= 0,
        abs_principal(e) >= 0,
    decreases e.len(),
{
    if e.len() > 0 {
        lemma_sums_bounded(e.drop_last(), q);
    }
}

pub proof fn lemma_abs_prefix(e: Seq<DatedRow>, i: int)
    requires
        0 <= i <= e.len(),
    ensures
        abs_payment(e.take(i)) <= abs_payment(e),
        abs_interest(e.take(i)) <= abs_interest(e),
        abs_principal(e.take(i)) <= abs_principal(e),
    decreases e.len() - i,
{
    if i < e.len() {
        lemma_abs_prefix(e, i + 1);
        assert(e.take(i + 1).drop_last() =~= e.take(i));
    } else {
        assert(e.take(i) =~= e);
    }
}

pub proof fn lemma_owed_total_nonneg(loans: Seq<LoanCalcInput>)
    ensures
        owed_total(loans) >= 0,
    decreases loans.len(),
{
    if loans.len() > 0 {
        lemma_owed_total_nonneg(loans.drop_last());
    }
}

pub proof fn lemma_owed_total_prefix(loans: Seq<LoanCalcInput>, i: int)
    requires
        0 <= i <= loans.len(),
    ensures
        0 <= owed_total(loans.take(i)) <= owed_total(loans),
    decreases loans.len() - i,
{
    if i < loans.len() {
        lemma_owed_total_prefix(loans, i + 1);
        lemma_owed_total_nonneg(loans.take(i));
        assert(loans.take(i + 1).drop_last() =~= loans.take(i));
    } else {
        assert(loans.take(i) =~= loans);
        lemma_owed_total_nonneg(loans);
    }
}

fn month_key(d: Date) -> (k: i64)
    requires
        d.wf(),
    ensures
        k == d.month_index(),
{
    d.year as i64 * 12 + d.month as i64 - 1
}

/// Entries of a month nobody pays in add nothing.
proof fn lemma_key_sums_absent(e: Seq<DatedRow>, q: int)
    requires
        !has_key(e, q),
    ensures
        key_payment(e, q) == 0,
        key_interest(e, q) == 0,
        key_principal(e, q) == 0,
    decreases e.len(),
{
    if e.len() > 0 {
        let d = e.drop_last();
        if has_key(d, q) {
            let w = choose|i: int| 0 <= i < d.len() && row_key(d[i]) == q;
            assert(e[w] == d[w]);
        }
        lemma_key_sums_absent(d, q);
        if row_key(e.last()) == q {
            assert(row_key(e[e.len() - 1]) == q);
        }
    }
}

/// Payment, interest and principal of the entries, summed per month and keyed by the month.
fn month_totals(entries: &Vec<DatedRow>) -> (m: BTreeMap<i64, (i64, i64, i64)>)
    requires
        abs_payment(entries@) <= i64::MAX,
        abs_interest(entries@) <= i64::MAX,
        abs_principal(entries@) <= i64::MAX,
        forall|i: int| 0 <= i < entries@.len() ==> (#[trigger] entries@[i]).date.wf(),
    ensures
        forall|q: i64| #[trigger] m@.contains_key(q) <==> has_key(entries@, q as int),
        forall|q: i64|
            #[trigger] m@.contains_key(q) ==> m@[q].0 == key_payment(entries@, q as int) && m@[q].1
                == key_interest(entries@, q as int) && m@[q].2 == key_principal(entries@, q as int),
{
    let mut m: BTreeMap<i64, (i64, i64, i64)> = BTreeMap::new();
    let mut i: usize = 0;
    proof {
        assert(entries@.take(0) =~= Seq::<DatedRow>::empty());
    }
    while i < entries.len()
        invariant
            0 <= i <= entries@.len(),
            abs_payment(entries@) <= i64::MAX,
            abs_interest(entries@) <= i64::MAX,
            abs_principal(entries@) <= i64::MAX,
            forall|j: int| 0 <= j < entries@.len() ==> (#[trigger] entries@[j]).date.wf(),
            forall|q: i64| #[trigger] m@.contains_key(q) <==> has_key(entries@.take(i as int), q as int),
            forall|q: i64|
                #[trigger] m@.contains_key(q) ==> m@[q].0 == key_payment(entries@.take(i as int), q as int)
                    && m@[q].1 == key_interest(entries@.take(i as int), q as int) && m@[q].2
                    == key_principal(entries@.take(i as int), q as int),
        decreases entries.len() - i,
    {
        let row = entries[i];
        let k = month_key(row.date);
        let ghost prev = entries@.take(i as int);
        let ghost t = entries@.take(i + 1);
        proof {
            assert(t.drop_last() =~= prev);
            assert(t.last() == entries@[i as int]);
            lemma_sums_bounded(t, k as int);
            lemma_abs_prefix(entries@, i + 1);
            if !has_key(prev, k as int) {
                lemma_key_sums_absent(prev, k as int);
            }
        }
        let cur = match m.get(&k) {
            Some(v) => *v,
            None => (0, 0, 0),
        };
        let next = (cur.0 + row.payment_minor, cur.1 + row.interest_minor, cur.2 + row.principal_minor);
        let ghost old_m = m@;
        m.insert(k, next);
        proof {
            assert(t[i as int] == row);
            assert forall|q: i64| #[trigger] m@.contains_key(q) <==> has_key(t, q as int) by {
                if q == k {
                    assert(row_key(t[i as int]) == q as int);
                } else {
                    if has_key(t, q as int) {
                        let w = choose|j: int| 0 <= j < t.len() && row_key(t[j]) == q as int;
                        assert(w < i);
                        assert(prev[w] == t[w]);
                    }
                    if has_key(prev, q as int) {
                        let w = choose|j: int| 0 <= j < prev.len() && row_key(prev[j]) == q as int;
                        assert(t[w] == prev[w]);
                    }
                }
            }
        }
        i = i + 1;
    }
    proof {
        assert(entries@.take(i as int) =~= entries@);
    }
    m
}

/// The months of a month-keyed table with their sums, in increasing month order.
fn months_in_order(m: &BTreeMap<i64, (i64, i64, i64)>) -> (v: Vec<(i64, (i64, i64, i64))>)
    ensures
        forall|k: int| 0 <= k < v@.len() ==> #[trigger] m@.contains_key(v@[k].0) && m@[v@[k].0] == v@[k].1,
        forall|q: i64| #[trigger] m@.contains_key(q) ==> exists|k: int| 0 <= k < v@.len() && v@[k].0 == q,
        forall|i: int, j: int| 0 <= i < j < v@.len() ==> (#[trigger] v@[i]).0 < (#[trigger] v@[j]).0,
{
    let mut v: Vec<(i64, (i64, i64, i64))> = Vec::new();
    let entries = m.iter();
    let ghost s = entries.remaining();
    let ghost keys = s.map_values(|kv: (&i64, &(i64, i64, i64))| *kv.0);
    proof {
        assert(vstd::laws_cmp::obeys_cmp::<i64>());
        assert(vstd::std_specs::btree::increasing_seq(keys));
        vstd::std_specs::btree::axiom_increasing_seq_meaning(keys);
        assert forall|i: int, j: int| 0 <= i < j < keys.len() implies keys[i] < keys[j] by {
            assert(keys[i].cmp_spec(&keys[j]) is Less);
        }
    }
    for kv in it: entries
        invariant
            s == vstd::std_specs::btree::spec_btree_map_iter(m).remaining(),
            it.seq() == s,
            v@.len() == it.index(),
            forall|k: int| 0 <= k < it.index() ==> #[trigger] v@[k] == (*s[k].0, *s[k].1),
    {
        v.push((*kv.0, *kv.1));
    }
    proof {
        assert(v@.len() == s.len());
        assert forall|q: i64| #[trigger] m@.contains_key(q) implies exists|k: int| 0 <= k < v@.len() && v@[k].0 == q by {
            assert(s.contains((&q, &m@[q])));
            let idx = choose|idx: int| 0 <= idx < s.len() && s[idx] == (&q, &m@[q]);
            assert(v@[idx].0 == q);
        }
        assert forall|i: int, j: int| 0 <= i < j < v@.len() implies (#[trigger] v@[i]).0 < (#[trigger] v@[j]).0 by {
            assert(keys[i] == v@[i].0);
            assert(keys[j] == v@[j].0);
        }
    }
    v
}

/// Two strictly increasing sequences with the same members are the same sequence.
proof fn lemma_sorted_same_members(a: Seq<int>, b: Seq<int>)
    requires
        forall|i: int, j: int| 0 <= i < j < a.len() ==> #[trigger] a[i] < #[trigger] a[j],
        forall|i: int, j: int| 0 <= i < j < b.len() ==> #[trigger] b[i] < #[trigger] b[j],
        forall|x: int| #[trigger] a.contains(x) <==> b.contains(x),
    ensures
        a == b,
    decreases a.len() + b.len(),
{
    if a.len() == 0 {
        if b.len() > 0 {
            assert(b.contains(b[0]));
            assert(a.contains(b[0]));
        }
        assert(b =~= a);
    } else if b.len() == 0 {
        assert(a.contains(a[0]));
        assert(b.contains(a[0]));
    } else {
        assert(a.contains(a[0]));
        assert(b.contains(b[0]));
        assert(a.contains(b[0]));
        assert(b.contains(a[0]));
        let i = choose|i: int| 0 <= i < a.len() && a[i] == b[0];
        let j = choose|j: int| 0 <= j < b.len() && b[j] == a[0];
        if i > 0 {
            assert(a[0] < a[i]);
        }
        if j > 0 {
            assert(b[0] < b[j]);
        }
        assert(a[0] == b[0]);
        let a1 = a.drop_first();
        let b1 = b.drop_first();
        assert forall|x: int| #[trigger] a1.contains(x) <==> b1.contains(x) by {
            if a1.contains(x) {
                let k = choose|k: int| 0 <= k < a1.len() && a1[k] == x;
                assert(a[k + 1] == x);
                assert(a[0] < a[k + 1]);
                assert(a.contains(x));
                assert(b.contains(x));
                let l = choose|l: int| 0 <= l < b.len() && b[l] == x;
                assert(l > 0);
                assert(b1[l - 1] == x);
            }
            if b1.contains(x) {
                let k = choose|k: int| 0 <= k < b1.len() && b1[k] == x;
                assert(b[k + 1] == x);
                assert(b[0] < b[k + 1]);
                assert(b.contains(x));
                assert(a.contains(x));
                let l = choose|l: int| 0 <= l < a.len() && a[l] == x;
                assert(l > 0);
                assert(a1[l - 1] == x);
            }
        }
        lemma_sorted_same_members(a1, b1);
        assert(a =~= seq![a[0]] + a1);
        assert(b =~= seq![b[0]] + b1);
    }
}

/// The first day of the month with index `q`.
fn month_start_of(q: i64) -> (d: Date)
    requires
        MIN_YEAR * 12 <= q < (MAX_YEAR + 1) * 12,
    ensures
        d == month_start(q as int),
        d.wf(),
{
    let shifted = q - MIN_YEAR as i64 * 12;
    let y = shifted / 12 + MIN_YEAR as i64;
    let m = shifted % 12 + 1;
    proof {
        vstd::arithmetic::div_mod::lemma_fundamental_div_mod(shifted as int, 12);
        vstd::arithmetic::div_mod::lemma_fundamental_div_mod_converse(q as int, 12, y as int, m - 1);
        lemma_month_start_wf(q as int);
    }
    Date { year: y as i32, month: m as u32, day: 1 }
}

/// Merge amortization schedules for multiple loans, grouped by calendar month (an ordered
/// map from month index to the month's sums). Returns one row per month with summed
/// payments, interest, principal and the running total balance across all loans.
pub fn build_combined_schedule(loans: &[LoanCalcInput], as_of: Date) -> (rows: Vec<AmortizationRow>)
    requires
        combined_computable(loans@, as_of),
    ensures
        rows@.len() == combined_keys(combined_entries(loans@, as_of)).len(),
        forall|i: int|
            0 <= i < rows@.len() ==> combined_row_matches(
                #[trigger] rows@[i],
                combined_keys(combined_entries(loans@, as_of))[i],
                combined_entries(loans@, as_of),
                owed_total(loans@),
            ),
{
    let ghost e = combined_entries(loans@, as_of);
    let mut entries: Vec<DatedRow> = Vec::new();
    let mut owed: i64 = 0;
    let mut any_active = false;
    let mut i: usize = 0;
    proof {
        lemma_sums_bounded(e, 0);
    }
    while i < loans.len()
        invariant
            0 <= i <= loans@.len(),
            combined_computable(loans@, as_of),
            e == combined_entries(loans@, as_of),
            abs_principal(e) >= 0,
            entries@ == combined_entries(loans@.take(i as int), as_of),
            owed == owed_total(loans@.take(i as int)),
            any_active == (entries@.len() > 0),
            forall|j: int| 0 <= j < entries@.len() ==> (#[trigger] entries@[j]).date.wf(),
        decreases loans.len() - i,
    {
        let loan = &loans[i];
        proof {
            assert(loans@.take(i + 1).drop_last() =~= loans@.take(i as int));
            assert(loans@.take(i + 1).last() == loans@[i as int]);
            lemma_owed_total_prefix(loans@, i + 1);
        }
        if loan.remaining_balance_minor > 0 {
            let schedule = amortization_rows(loan, as_of);
            let ghost before = entries@;
            let mut k: usize = 0;
            while k < schedule.len()
                invariant
                    0 <= k <= schedule@.len(),
                    entries@ == before + schedule@.take(k as int),
                    forall|j: int| 0 <= j < before.len() ==> (#[trigger] before[j]).date.wf(),
                    forall|j: int| 0 <= j < schedule@.len() ==> (#[trigger] schedule@[j]).date.wf(),
                    forall|j: int| 0 <= j < entries@.len() ==> (#[trigger] entries@[j]).date.wf(),
                decreases schedule.len() - k,
            {
                entries.push(schedule[k]);
                proof {
                    assert(before + schedule@.take(k + 1) =~= (before + schedule@.take(k as int)).push(
                        schedule@[k as int],
                    ));
                }
                k = k + 1;
            }
            proof {
                assert(schedule@.take(k as int) =~= schedule@);
                assert(schedule@.len() > 0 ==> entries@.len() > 0);
            }
            owed = owed + loan.remaining_balance_minor;
            any_active = any_active || schedule.len() > 0;
        } else {
            proof {
                assert(entries@ + Seq::<DatedRow>::empty() =~= entries@);
            }
        }
        i = i + 1;
    }
    proof {
        assert(loans@.take(loans@.len() as int) =~= loans@);
    }
    let mut rows: Vec<AmortizationRow> = Vec::new();
    if !any_active {
        proof {
            assert(combined_keys(e) =~= Seq::<int>::empty());
        }
        return rows;
    }
    let ghost keys = combined_keys(e);
    let ghost total_owed = owed_total(loans@);
    proof {
        assert forall|j: int| 0 <= j < e.len() implies row_key(#[trigger] e[j]) > before_all_keys() by {
            assert(entries@[j].date.wf());
        }
        lemma_principal_upto_none(e, before_all_keys());
        lemma_owed_total_prefix(loans@, loans@.len() as int);
        lemma_sums_bounded(e, 0);
        lemma_combined_keys(e);
    }
    let totals = month_totals(&entries);
    let months = months_in_order(&totals);
    let ghost ks = months@.map_values(|p: (i64, (i64, i64, i64))| p.0 as int);
    proof {
        assert forall|i: int, j: int| 0 <= i < j < ks.len() implies #[trigger] ks[i] < #[trigger] ks[j] by {
            assert(months@[i].0 < months@[j].0);
        }
        assert forall|x: int| #[trigger] ks.contains(x) <==> keys.contains(x) by {
            if ks.contains(x) {
                let k = choose|k: int| 0 <= k < ks.len() && ks[k] == x;
                assert(totals@.contains_key(months@[k].0));
                assert(has_key(e, x));
            }
            if keys.contains(x) {
                assert(has_key(e, x));
                let w = choose|i: int| 0 <= i < e.len() && row_key(e[i]) == x;
                assert(e[w].date.wf());
                let q = x as i64;
                assert(has_key(e, q as int));
                assert(totals@.contains_key(q));
                let k = choose|k: int| 0 <= k < months@.len() && months@[k].0 == q;
                assert(ks[k] == x);
            }
        }
        lemma_sorted_same_members(ks, keys);
    }
    let mut running: i64 = owed;
    let mut k: usize = 0;
    while k < months.len()
        invariant
            0 <= k <= months@.len(),
            entries@ == e,
            forall|j: int| 0 <= j < e.len() ==> (#[trigger] e[j]).date.wf(),
            abs_payment(e) <= i64::MAX,
            abs_interest(e) <= i64::MAX,
            total_owed + abs_principal(e) <= i64::MAX,
            abs_principal(e) >= 0,
            total_owed >= 0,
            principal_upto(e, before_all_keys()) == 0,
            keys == combined_keys(e),
            forall|q: int| #[trigger] keys.contains(q) <==> has_key(e, q),
            ks == keys,
            ks == months@.map_values(|p: (i64, (i64, i64, i64))| p.0 as int),
            forall|q: i64|
                #[trigger] totals@.contains_key(q) ==> totals@[q].0 == key_payment(e, q as int) && totals@[q].1
                    == key_interest(e, q as int) && totals@[q].2 == key_principal(e, q as int),
            forall|j: int| 0 <= j < months@.len() ==> #[trigger] totals@.contains_key(months@[j].0) && totals@[months@[j].0] == months@[j].1,
            running == total_owed - key_principal_prefix(e, keys, k as int),
            rows@.len() == k,
            forall|j: int| 0 <= j < k ==> combined_row_matches(#[trigger] rows@[j], keys[j], e, total_owed),
        decreases months.len() - k,
    {
        let (q, (payment, interest, principal)) = months[k];
        proof {
            assert(keys[k as int] == q as int);
            assert(totals@.contains_key(months@[k as int].0));
            lemma_principal_upto_keys(e, k as int);
            lemma_sums_bounded(e, q as int);
            assert(keys.contains(q as int));
            let w = choose|i: int| 0 <= i < e.len() && row_key(e[i]) == q as int;
            assert(e[w].date.wf());
            assert(key_principal_prefix(e, keys, k + 1) == key_principal_prefix(e, keys, k as int) + key_principal(e, q as int));
        }
        running = running - principal;
        let month_date = month_start_of(q);
        let row = AmortizationRow {
            date: date_to_string(month_date),
            payment_minor: payment,
            interest_minor: interest,
            principal_minor: principal,
            balance_minor: if running > 0 {
                running
            } else {
                0
            },
        };
        let ghost old_rows = rows@;
        rows.push(row);
        proof {
            assert forall|j: int| 0 <= j < k + 1 implies combined_row_matches(#[trigger] rows@[j], keys[j], e, total_owed) by {
                if j < k {
                    assert(rows@[j] == old_rows[j]);
                }
            }
        }
        k = k + 1;
    }
    proof {
        assert(keys.len() == months@.len());
    }
    rows
}

/// The months collected after `last` lie after it, ascend strictly and each occurs among
/// the entries; with enough fuel every month of an entry after `last` is collected.
proof fn lemma_keys_from(e: Seq<DatedRow>, last: int, fuel: nat)
    ensures
        ({
            let ks = keys_from(e, last, fuel);
            &&& forall|i: int| 0 <= i < ks.len() ==> #[trigger] ks[i] > last && has_key(e, ks[i])
            &&& forall|i: int, j: int| 0 <= i < j < ks.len() ==> #[trigger] ks[i] < #[trigger] ks[j]
            &&& fuel >= count_above(e, last) ==> forall|q: int|
                q > last && #[trigger] has_key(e, q) ==> ks.contains(q)
        }),
    decreases fuel,
{
    let ks = keys_from(e, last, fuel);
    lemma_min_key_above(e, last);
    if fuel == 0 {
        if count_above(e, last) == 0 {
            assert forall|q: int| q > last && #[trigger] has_key(e, q) implies ks.contains(q) by {
                let w = choose|i: int| 0 <= i < e.len() && row_key(e[i]) == q;
                assert(row_key(e[w]) <= last);
            }
        }
    } else {
        match min_key_above(e, last) {
            None => {
                assert forall|q: int| q > last && #[trigger] has_key(e, q) implies ks.contains(q) by {
                    let w = choose|i: int| 0 <= i < e.len() && row_key(e[i]) == q;
                    assert(row_key(e[w]) <= last);
                }
            },
            Some(q0) => {
                let rest = keys_from(e, q0, (fuel - 1) as nat);
                lemma_keys_from(e, q0, (fuel - 1) as nat);
                lemma_count_above_drops(e, last, q0);
                assert(ks == seq![q0] + rest);
                assert forall|i: int| 0 <= i < ks.len() implies #[trigger] ks[i] > last && has_key(e, ks[i]) by {
                    if i > 0 {
                        assert(ks[i] == rest[i - 1]);
                    }
                }
                assert forall|i: int, j: int| 0 <= i < j < ks.len() implies #[trigger] ks[i] < #[trigger] ks[j] by {
                    assert(ks[j] == rest[j - 1]);
                    if i > 0 {
                        assert(ks[i] == rest[i - 1]);
                    }
                }
                if fuel >= count_above(e, last) {
                    assert forall|q: int| q > last && #[trigger] has_key(e, q) implies ks.contains(q) by {
                        let w = choose|i: int| 0 <= i < e.len() && row_key(e[i]) == q;
                        assert(row_key(e[w]) >= q0);
                        if q == q0 {
                            assert(ks[0] == q);
                        } else {
                            assert(rest.contains(q));
                            let k = choose|k: int| 0 <= k < rest.len() && rest[k] == q;
                            assert(ks[k + 1] == q);
                        }
                    }
                }
            },
        }
    }
}

/// For entries on real dates, the merged months are exactly the months in which some
/// entry falls, in strictly increasing order.
pub proof fn lemma_combined_keys(e: Seq<DatedRow>)
    requires
        forall|i: int| 0 <= i < e.len() ==> (#[trigger] e[i]).date.wf(),
    ensures
        ({
            let ks = combined_keys(e);
            &&& forall|i: int, j: int| 0 <= i < j < ks.len() ==> #[trigger] ks[i] < #[trigger] ks[j]
            &&& forall|q: int| #[trigger] ks.contains(q) <==> has_key(e, q)
        }),
{
    let ks = combined_keys(e);
    lemma_min_key_above(e, before_all_keys());
    lemma_keys_from(e, before_all_keys(), e.len());
    assert forall|q: int| #[trigger] ks.contains(q) <==> has_key(e, q) by {
        if ks.contains(q) {
            let k = choose|k: int| 0 <= k < ks.len() && ks[k] == q;
            assert(has_key(e, ks[k]));
        }
        if has_key(e, q) {
            let w = choose|i: int| 0 <= i < e.len() && row_key(e[i]) == q;
            assert(e[w].date.wf());
            assert(q > before_all_keys());
        }
    }
}

/// The rows of loans that can be projected fall on real dates.
proof fn lemma_combined_entries_wf(loans: Seq<LoanCalcInput>, as_of: Date)
    requires
        forall|i: int|
            0 <= i < loans.len() && (#[trigger] loans[i]).remaining_balance_minor > 0 ==> projectable(
                loans[i],
                as_of,
            ),
    ensures
        forall|i: int|
            0 <= i < combined_entries(loans, as_of).len() ==> (#[trigger] combined_entries(loans, as_of)[i]).date.wf(),
    decreases loans.len(),
{
    if loans.len() > 0 {
        let d = loans.drop_last();
        assert forall|i: int| 0 <= i < d.len() && (#[trigger] d[i]).remaining_balance_minor > 0 implies projectable(
            d[i],
            as_of,
        ) by {
            assert(d[i] == loans[i]);
        }
        lemma_combined_entries_wf(d, as_of);
        let l = loans.last();
        let prev = combined_entries(d, as_of);
        let e = combined_entries(loans, as_of);
        if l.remaining_balance_minor > 0 {
            assert(l == loans[loans.len() - 1]);
            lemma_projected_dates_wf(l, as_of);
            let own = dated_rows_spec(l, as_of);
            assert(e == prev + own);
            assert forall|i: int| 0 <= i < e.len() implies (#[trigger] e[i]).date.wf() by {
                if i >= prev.len() {
                    assert(e[i] == own[i - prev.len()]);
                    assert(own[i - prev.len()].date == projected_steps(l, as_of)[i - prev.len()].date);
                }
            }
        } else {
            assert(e =~= prev);
        }
    }
}

/// The merged schedule of several loans has exactly one row for each month in which any
/// of them has a payment, in strictly increasing month order.
pub proof fn lemma_combined_schedule_months(loans: Seq<LoanCalcInput>, as_of: Date)
    requires
        combined_computable(loans, as_of),
    ensures
        ({
            let e = combined_entries(loans, as_of);
            let ks = combined_keys(e);
            &&& forall|i: int, j: int| 0 <= i < j < ks.len() ==> #[trigger] ks[i] < #[trigger] ks[j]
            &&& forall|q: int| #[trigger] ks.contains(q) <==> has_key(e, q)
        }),
{
    lemma_combined_entries_wf(loans, as_of);
    lemma_combined_keys(combined_entries(loans, as_of));
}

/// Principal of the first `n` rows of a merged schedule.
pub open spec fn rows_principal_sum(rows: Seq<AmortizationRow>, n: int) -> int
    decreases n,
{
    if n <= 0 {
        0
    } else {
        rows_principal_sum(rows, n - 1) + rows[n - 1].principal_minor
    }
}

/// The principal of all entries up to the `k`-th merged month is the principal of the
/// merged months up to and including it.
proof fn lemma_principal_upto_keys(e: Seq<DatedRow>, k: int)
    requires
        forall|i: int| 0 <= i < e.len() ==> (#[trigger] e[i]).date.wf(),
        0 <= k < combined_keys(e).len(),
    ensures
        principal_upto(e, combined_keys(e)[k]) == principal_upto(e, before_all_keys()) + key_principal_prefix(
            e,
            combined_keys(e),
            k + 1,
        ),
    decreases k,
{
    let ks = combined_keys(e);
    lemma_combined_keys(e);
    let prev = if k == 0 {
        before_all_keys()
    } else {
        ks[k - 1]
    };
    if k > 0 {
        lemma_principal_upto_keys(e, k - 1);
        assert(ks[k - 1] < ks[k]);
    } else {
        assert(ks.contains(ks[0]));
        assert(has_key(e, ks[0]));
        let w = choose|i: int| 0 <= i < e.len() && row_key(e[i]) == ks[0];
        assert(e[w].date.wf());
    }
    assert forall|i: int| 0 <= i < e.len() implies !(prev < row_key(#[trigger] e[i]) < ks[k]) by {
        let q = row_key(e[i]);
        if prev < q < ks[k] {
            assert(has_key(e, q));
            assert(ks.contains(q));
            let m = choose|m: int| 0 <= m < ks.len() && ks[m] == q;
            if m < k {
                if k > 0 {
                    if m < k - 1 {
                        assert(ks[m] < ks[k - 1]);
                    }
                }
            } else if m > k {
                assert(ks[k] < ks[m]);
            }
        }
    }
    lemma_principal_upto_step(e, prev, ks[k]);
    assert(key_principal_prefix(e, ks, k + 1) == key_principal_prefix(e, ks, k) + key_principal(e, ks[k]));
    if k == 0 {
        assert(key_principal_prefix(e, ks, 0) == 0);
    }
}

/// Merged principal of the first `n` merged months.
pub open spec fn key_principal_prefix(e: Seq<DatedRow>, ks: Seq<int>, n: int) -> int
    decreases n,
{
    if n <= 0 {
        0
    } else {
        key_principal_prefix(e, ks, n - 1) + key_principal(e, ks[n - 1])
    }
}

/// Loans that owe nothing contribute no entries.
proof fn lemma_no_entries_when_settled(loans: Seq<LoanCalcInput>, as_of: Date)
    requires
        forall|i: int| 0 <= i < loans.len() ==> (#[trigger] loans[i]).remaining_balance_minor <= 0,
    ensures
        combined_entries(loans, as_of).len() == 0,
        owed_total(loans) == 0,
    decreases loans.len(),
{
    if loans.len() > 0 {
        let d = loans.drop_last();
        assert forall|i: int| 0 <= i < d.len() implies (#[trigger] d[i]).remaining_balance_minor <= 0 by {
            assert(d[i] == loans[i]);
        }
        lemma_no_entries_when_settled(d, as_of);
        assert(loans.last() == loans[loans.len() - 1]);
    }
}

/// The merged schedule of loans that all owe nothing is empty; otherwise each merged row's
/// balance is the total still owed less the principal of that row and all rows before it,
/// never below zero.
pub proof fn lemma_combined_balance_is_running_total(
    loans: Seq<LoanCalcInput>,
    as_of: Date,
    rows: Seq<AmortizationRow>,
)
    requires
        combined_computable(loans, as_of),
        rows.len() == combined_keys(combined_entries(loans, as_of)).len(),
        forall|i: int|
            0 <= i < rows.len() ==> combined_row_matches(
                #[trigger] rows[i],
                combined_keys(combined_entries(loans, as_of))[i],
                combined_entries(loans, as_of),
                owed_total(loans),
            ),
    ensures
        (forall|i: int| 0 <= i < loans.len() ==> (#[trigger] loans[i]).remaining_balance_minor <= 0)
            ==> rows.len() == 0,
        forall|k: int|
            0 <= k < rows.len() ==> (#[trigger] rows[k]).balance_minor == max_int(
                owed_total(loans) - rows_principal_sum(rows, k + 1),
                0,
            ),
{
    let e = combined_entries(loans, as_of);
    let ks = combined_keys(e);
    if forall|i: int| 0 <= i < loans.len() ==> (#[trigger] loans[i]).remaining_balance_minor <= 0 {
        lemma_no_entries_when_settled(loans, as_of);
        assert(ks =~= Seq::<int>::empty());
    }
    lemma_combined_entries_wf(loans, as_of);
    assert forall|i: int| 0 <= i < e.len() implies row_key(#[trigger] e[i]) > before_all_keys() by {
        assert(e[i].date.wf());
    }
    lemma_principal_upto_none(e, before_all_keys());
    assert forall|n: int| 0 <= n <= rows.len() implies #[trigger] rows_principal_sum(rows, n)
        == key_principal_prefix(e, ks, n) by {
        lemma_rows_principal_prefix(e, ks, rows, owed_total(loans), n);
    }
    assert forall|k: int| 0 <= k < rows.len() implies (#[trigger] rows[k]).balance_minor == max_int(
        owed_total(loans) - rows_principal_sum(rows, k + 1),
        0,
    ) by {
        lemma_principal_upto_keys(e, k);
        assert(rows_principal_sum(rows, k + 1) == key_principal_prefix(e, ks, k + 1));
    }
}

proof fn lemma_rows_principal_prefix(
    e: Seq<DatedRow>,
    ks: Seq<int>,
    rows: Seq<AmortizationRow>,
    owed: int,
    n: int,
)
    requires
        0 <= n <= rows.len(),
        rows.len() == ks.len(),
        forall|i: int| 0 <= i < rows.len() ==> combined_row_matches(#[trigger] rows[i], ks[i], e, owed),
    ensures
        rows_principal_sum(rows, n) == key_principal_prefix(e, ks, n),
    decreases n,
{
    if n > 0 {
        lemma_rows_principal_prefix(e, ks, rows, owed, n - 1);
        assert(combined_row_matches(rows[n - 1], ks[n - 1], e, owed));
    }
}

/// `x`, or one past `i64::MAX` when it is larger.
spec fn capped(x: int) -> int {
    min_of(x, i64::MAX as int + 1)
}

/// Whether the merged schedule can be built for `loans` from `as_of`.
pub fn combined_computable_check(loans: &[LoanCalcInput], as_of: Date) -> (r: bool)
    ensures
        r == combined_computable(loans@, as_of),
{
    let mut i: usize = 0;
    while i < loans.len()
        invariant
            0 <= i <= loans@.len(),
            forall|k: int|
                0 <= k < i && (#[trigger] loans@[k]).remaining_balance_minor > 0 ==> projectable(
                    loans@[k],
                    as_of,
                ) && amortization_fits(loans@[k], as_of),
        decreases loans.len() - i,
    {
        let l = &loans[i];
        if l.remaining_balance_minor > 0 {
            if !projectable_check(l, as_of) || !amortization_fits_check(l, as_of) {
                return false;
            }
        }
        i = i + 1;
    }
    let cmax: i128 = i64::MAX as i128 + 1;
    let mut pay: i128 = 0;
    let mut int_sum: i128 = 0;
    let mut owed_pr: i128 = 0;
    let mut i: usize = 0;
    proof {
        assert(loans@.take(0) =~= Seq::<LoanCalcInput>::empty());
    }
    while i < loans.len()
        invariant
            0 <= i <= loans@.len(),
            cmax == i64::MAX as int + 1,
            forall|k: int|
                0 <= k < loans@.len() && (#[trigger] loans@[k]).remaining_balance_minor > 0 ==> projectable(
                    loans@[k],
                    as_of,
                ) && amortization_fits(loans@[k], as_of),
            pay == capped(abs_payment(combined_entries(loans@.take(i as int), as_of))),
            int_sum == capped(abs_interest(combined_entries(loans@.take(i as int), as_of))),
            owed_pr == capped(
                owed_total(loans@.take(i as int)) + abs_principal(combined_entries(loans@.take(i as int), as_of)),
            ),
        decreases loans.len() - i,
    {
        let l = &loans[i];
        let ghost before = combined_entries(loans@.take(i as int), as_of);
        proof {
            assert(loans@.take(i + 1).drop_last() =~= loans@.take(i as int));
            assert(loans@.take(i + 1).last() == loans@[i as int]);
            lemma_sums_bounded(before, 0);
            lemma_owed_total_nonneg(loans@.take(i as int));
        }
        if l.remaining_balance_minor > 0 {
            let rows = amortization_rows(l, as_of);
            owed_pr = if owed_pr + (l.remaining_balance_minor as i128) < cmax {
                owed_pr + l.remaining_balance_minor as i128
            } else {
                cmax
            };
            let ghost owed_next = owed_total(loans@.take(i + 1));
            let mut k: usize = 0;
            proof {
                assert(before + rows@.take(0) =~= before);
            }
            while k < rows.len()
                invariant
                    0 <= k <= rows@.len(),
                    cmax == i64::MAX as int + 1,
                    owed_next >= 0,
                    pay == capped(abs_payment(before + rows@.take(k as int))),
                    int_sum == capped(abs_interest(before + rows@.take(k as int))),
                    owed_pr == capped(owed_next + abs_principal(before + rows@.take(k as int))),
                    abs_payment(before + rows@.take(k as int)) >= 0,
                    abs_interest(before + rows@.take(k as int)) >= 0,
                    abs_principal(before + rows@.take(k as int)) >= 0,
                decreases rows.len() - k,
            {
                let row = rows[k];
                proof {
                    assert((before + rows@.take(k + 1)).drop_last() =~= before + rows@.take(k as int));
                    assert((before + rows@.take(k + 1)).last() == rows@[k as int]);
                }
                let p = row.payment_minor as i128;
                let q = row.interest_minor as i128;
                let c = row.principal_minor as i128;
                let ap = if p >= 0 {
                    p
                } else {
                    -p
                };
                let aq = if q >= 0 {
                    q
                } else {
                    -q
                };
                let ac = if c >= 0 {
                    c
                } else {
                    -c
                };
                pay = if pay + ap < cmax {
                    pay + ap
                } else {
                    cmax
                };
                int_sum = if int_sum + aq < cmax {
                    int_sum + aq
                } else {
                    cmax
                };
                owed_pr = if owed_pr + ac < cmax {
                    owed_pr + ac
                } else {
                    cmax
                };
                k = k + 1;
            }
            proof {
                assert(rows@.take(k as int) =~= rows@);
                assert(combined_entries(loans@.take(i + 1), as_of) == before + rows@);
            }
        } else {
            proof {
                assert(combined_entries(loans@.take(i + 1), as_of) =~= before);
            }
        }
        i = i + 1;
    }
    proof {
        assert(loans@.take(loans@.len() as int) =~= loans@);
    }
    pay <= i64::MAX as i128 && int_sum <= i64::MAX as i128 && owed_pr <= i64::MAX as i128
}

/// The month totals of one row: its own payment, interest and principal in its month,
/// nothing in any other month.
pub proof fn lemma_month_sums_of_one_row(r: DatedRow, q: int)
    ensures
        key_payment(seq![r], q) == if row_key(r) == q { r.payment_minor as int } else { 0 },
        key_interest(seq![r], q) == if row_key(r) == q { r.interest_minor as int } else { 0 },
        key_principal(seq![r], q) == if row_key(r) == q { r.principal_minor as int } else { 0 },
{
    let s = seq![r];
    let none = Seq::<DatedRow>::empty();
    assert(s.drop_last() =~= none);
    assert(s.last() == r);
    assert(key_payment(none, q) == 0);
    assert(key_interest(none, q) == 0);
    assert(key_principal(none, q) == 0);
    assert(key_payment(s, q) == key_payment(none, q) + if row_key(r) == q { r.payment_minor as int } else { 0 });
    assert(key_interest(s, q) == key_interest(none, q) + if row_key(r) == q { r.interest_minor as int } else { 0 });
    assert(key_principal(s, q) == key_principal(none, q) + if row_key(r) == q { r.principal_minor as int } else { 0 });
}

/// Month totals add up over groups of rows: the payment, interest and principal of the
/// rows of two groups together in any month are those of the first group plus those of
/// the second.
pub proof fn lemma_month_sums_add(a: Seq<DatedRow>, b: Seq<DatedRow>, q: int)
    ensures
        key_payment(a + b, q) == key_payment(a, q) + key_payment(b, q),
        key_interest(a + b, q) == key_interest(a, q) + key_interest(b, q),
        key_principal(a + b, q) == key_principal(a, q) + key_principal(b, q),
    decreases b.len(),
{
    if b.len() == 0 {
        assert(a + b =~= a);
    } else {
        lemma_month_sums_add(a, b.drop_last(), q);
        assert((a + b).drop_last() =~= a + b.drop_last());
        assert((a + b).last() == b.last());
    }
}

/// Adding a loan to the household adds its own schedule's payment, interest and principal
/// in each month to the merged totals of that month (a loan that owes nothing adds
/// nothing), so every merged month sums the rows of all loans falling in it.
pub proof fn lemma_adding_a_loan_adds_its_months(loans: Seq<LoanCalcInput>, l: LoanCalcInput, as_of: Date, q: int)
    ensures
        ({
            let before = combined_entries(loans, as_of);
            let after = combined_entries(loans.push(l), as_of);
            let own = dated_rows_spec(l, as_of);
            &&& key_payment(after, q) == key_payment(before, q) + if l.remaining_balance_minor > 0 {
                key_payment(own, q)
            } else {
                0
            }
            &&& key_interest(after, q) == key_interest(before, q) + if l.remaining_balance_minor > 0 {
                key_interest(own, q)
            } else {
                0
            }
            &&& key_principal(after, q) == key_principal(before, q) + if l.remaining_balance_minor > 0 {
                key_principal(own, q)
            } else {
                0
            }
        }),
{
    let ext = loans.push(l);
    assert(ext.drop_last() =~= loans);
    assert(ext.last() == l);
    let before = combined_entries(loans, as_of);
    if l.remaining_balance_minor > 0 {
        lemma_month_sums_add(before, dated_rows_spec(l, as_of), q);
    } else {
        assert(combined_entries(ext, as_of) =~= before);
    }
}

} // verus!
