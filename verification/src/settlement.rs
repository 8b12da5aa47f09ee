use vstd::prelude::*;
use vstd::arithmetic::div_mod::{
    lemma_div_is_ordered, lemma_div_multiples_vanish, lemma_fundamental_div_mod, lemma_mod_bound,
};
use vstd::arithmetic::mul::{
    lemma_mul_inequality, lemma_mul_is_commutative, lemma_mul_is_distributive_add,
    lemma_mul_nonnegative,
};
use crate::ledger::Wager;

verus! {

/// One payout instruction: transfer `amount` to `bettor`. Only instructions
/// with `amount > 0` are ever produced.
#[derive(Debug)]
pub struct Payout {
    pub bettor: String,
    pub amount: u128,
}

/// Per-outcome total produced by aggregation: the sum of all stakes placed
/// on `label`.
#[derive(Debug)]
pub struct OutcomeTotal {
    pub label: String,
    pub total: u128,
}

/// The pool: the sum of all stake amounts across all outcome labels.
pub open spec fn pool_of(s: Seq<Wager>) -> int
    decreases s.len(),
{
    if s.len() == 0 {
        0
    } else {
        pool_of(s.drop_last()) + s.last().amount
    }
}

/// The sum of the stake amounts of the wagers placed on `label`.
pub open spec fn total_for(s: Seq<Wager>, label: Seq<char>) -> int
    decreases s.len(),
{
    if s.len() == 0 {
        0
    } else {
        total_for(s.drop_last(), label) + if s.last().outcome@ == label {
            s.last().amount as int
        } else {
            0
        }
    }
}

/// The pari-mutuel share of one winning wager under the floor rounding
/// policy: `floor(amount * pool / total_win)`.
pub open spec fn share_of(amount: int, total_win: int, pool: int) -> int {
    amount * pool / total_win
}

/// The payout instructions for the winning wagers of `s`, in entry order,
/// keeping only strictly positive shares.
pub open spec fn payouts_from(
    s: Seq<Wager>,
    winning: Seq<char>,
    total_win: int,
    pool: int,
) -> Seq<(Seq<char>, int)>
    decreases s.len(),
{
    if s.len() == 0 {
        Seq::empty()
    } else {
        let rest = payouts_from(s.drop_last(), winning, total_win, pool);
        let w = s.last();
        if w.outcome@ == winning && share_of(w.amount as int, total_win, pool) > 0 {
            rest.push((w.bettor@, share_of(w.amount as int, total_win, pool)))
        } else {
            rest
        }
    }
}

/// The full settlement of a wager sequence: every wager on the winning label
/// receives `floor(amount * pool / total_win)`; if nothing was staked on the
/// winning label, nobody is paid and the pool stays with the market.
pub open spec fn settlement_of(s: Seq<Wager>, winning: Seq<char>) -> Seq<(Seq<char>, int)> {
    if total_for(s, winning) > 0 {
        payouts_from(s, winning, total_for(s, winning), pool_of(s))
    } else {
        Seq::empty()
    }
}

/// The abstract content of a payout listing: bettor identity and amount.
pub open spec fn payouts_view(r: Seq<Payout>) -> Seq<(Seq<char>, int)> {
    r.map(|i: int, p: Payout| (p.bettor@, p.amount as int))
}

/// The total amount over a payout listing.
pub open spec fn sum_of(p: Seq<(Seq<char>, int)>) -> int
    decreases p.len(),
{
    if p.len() == 0 {
        0
    } else {
        sum_of(p.drop_last()) + p.last().1
    }
}

/// The pool is non-negative and at most one maximal stake per entry.
pub proof fn lemma_pool_bounds(s: Seq<Wager>)
    ensures
        0 <= pool_of(s) <= s.len() * (u32::MAX as int),
    decreases s.len(),
{
    if s.len() == 0 {
    } else {
        lemma_pool_bounds(s.drop_last());
        assert((s.len() - 1) * (u32::MAX as int) + (u32::MAX as int) == s.len() * (
        u32::MAX as int)) by (nonlinear_arith);
    }
}

/// What one label gathers is non-negative and never exceeds the pool.
pub proof fn lemma_total_for_bounds(s: Seq<Wager>, label: Seq<char>)
    ensures
        0 <= total_for(s, label) <= pool_of(s),
    decreases s.len(),
{
    if s.len() > 0 {
        lemma_total_for_bounds(s.drop_last(), label);
    }
}

/// Floor division distributes super-additively: rounding two shares down
/// loses at least as much as rounding their sum down.
proof fn lemma_div_superadd(x: int, y: int, d: int)
    requires
        0 <= x,
        0 <= y,
        0 < d,
    ensures
        x / d + y / d <= (x + y) / d,
{
    lemma_fundamental_div_mod(x, d);
    lemma_fundamental_div_mod(y, d);
    lemma_mod_bound(x, d);
    lemma_mod_bound(y, d);
    lemma_mul_is_distributive_add(d, x / d, y / d);
    assert(d * (x / d + y / d) <= x + y);
    lemma_mul_nonnegative(d, x / d + y / d);
    lemma_div_is_ordered(d * (x / d + y / d), x + y, d);
    lemma_div_multiples_vanish(x / d + y / d, d);
}

/// The payouts of a prefix stay below that prefix's proportional share of
/// the pool.
proof fn lemma_payouts_from_sum(s: Seq<Wager>, winning: Seq<char>, total_win: int, pool: int)
    requires
        0 < total_win,
        0 <= pool,
    ensures
        0 <= sum_of(payouts_from(s, winning, total_win, pool)) <= total_for(s, winning) * pool
            / total_win,
    decreases s.len(),
{
    lemma_total_for_bounds(s, winning);
    if s.len() == 0 {
        assert(0int * pool == 0) by (nonlinear_arith);
        lemma_div_is_ordered(0, 0, total_win);
    } else {
        let rest = s.drop_last();
        let w = s.last();
        let t0 = total_for(rest, winning);
        lemma_payouts_from_sum(rest, winning, total_win, pool);
        lemma_total_for_bounds(rest, winning);
        lemma_pool_bounds(rest);
        lemma_mul_nonnegative(t0, pool);
        lemma_mul_nonnegative(w.amount as int, pool);
        let pr = payouts_from(rest, winning, total_win, pool);
        if w.outcome@ == winning {
            lemma_mul_is_distributive_add(pool, t0, w.amount as int);
            lemma_mul_is_commutative(pool, t0);
            lemma_mul_is_commutative(pool, w.amount as int);
            lemma_mul_is_commutative(pool, t0 + w.amount as int);
            assert((t0 + w.amount) * pool == t0 * pool + (w.amount as int) * pool);
            lemma_div_superadd(t0 * pool, (w.amount as int) * pool, total_win);
            let sh = share_of(w.amount as int, total_win, pool);
            if sh > 0 {
                let pair = (w.bettor@, sh);
                assert(payouts_from(s, winning, total_win, pool) == pr.push(pair));
                assert(pr.push(pair).drop_last() =~= pr);
                assert(pr.push(pair).last() == pair);
                assert(sum_of(payouts_from(s, winning, total_win, pool)) == sum_of(pr) + sh);
            } else {
                // the last share is not positive, hence zero: the sum is
                // unchanged and the bound only grows
                assert((w.amount as int) * pool / total_win >= 0) by {
                    vstd::arithmetic::div_mod::lemma_div_pos_is_pos(
                        (w.amount as int) * pool,
                        total_win,
                    );
                }
            }
        }
    }
}

/// Conservation under the floor rounding policy: a settlement never pays
/// out more than the pool it draws from. (Each winning wager receives
/// `floor(amount * pool / total_win)`; any rounding remainder stays with
/// the market rather than being redistributed.)
pub proof fn lemma_settlement_conservation(s: Seq<Wager>, winning: Seq<char>)
    ensures
        0 <= sum_of(settlement_of(s, winning)) <= pool_of(s),
{
    lemma_pool_bounds(s);
    lemma_total_for_bounds(s, winning);
    let t = total_for(s, winning);
    let p = pool_of(s);
    if t > 0 {
        lemma_payouts_from_sum(s, winning, t, p);
        lemma_mul_is_commutative(t, p);
        lemma_div_multiples_vanish(p, t);
        assert(t * p / t == p);
    }
}

/// The sum of all recorded stakes, in the smallest currency unit.
pub fn total_pool(wagers: &Vec<Wager>) -> (r: u128)
    ensures
        r as int == pool_of(wagers@),
{
    let n = wagers.len();
    let mut total: u128 = 0;
    let mut i: usize = 0;
    while i < n
        invariant
            n == wagers@.len(),
            i <= n,
            total as int == pool_of(wagers@.subrange(0, i as int)),
            total as int <= i * 0xFFFF_FFFFint,
        decreases n - i,
    {
        proof {
            assert(wagers@.subrange(0, i + 1int).drop_last() =~= wagers@.subrange(0, i as int));
            assert((i + 1int) * 0xFFFF_FFFFint == i * 0xFFFF_FFFFint + 0xFFFF_FFFFint)
                by (nonlinear_arith);
            lemma_mul_inequality(i + 1int, usize::MAX as int, 0xFFFF_FFFFint);
            assert(usize::MAX as int <= 0xFFFF_FFFF_FFFF_FFFFint);
            lemma_mul_inequality(usize::MAX as int, 0xFFFF_FFFF_FFFF_FFFFint, 0xFFFF_FFFFint);
        }
        total = total + (wagers[i].amount as u128);
        i += 1;
    }
    proof {
        assert(wagers@.subrange(0, n as int) =~= wagers@);
    }
    total
}

/// The total staked on one outcome label.
pub fn total_for_label(wagers: &Vec<Wager>, label: &String) -> (r: u128)
    ensures
        r as int == total_for(wagers@, label@),
{
    let n = wagers.len();
    let mut total: u128 = 0;
    let mut i: usize = 0;
    while i < n
        invariant
            n == wagers@.len(),
            i <= n,
            total as int == total_for(wagers@.subrange(0, i as int), label@),
            total as int <= i * 0xFFFF_FFFFint,
        decreases n - i,
    {
        proof {
            assert(wagers@.subrange(0, i + 1int).drop_last() =~= wagers@.subrange(0, i as int));
            assert((i + 1int) * 0xFFFF_FFFFint == i * 0xFFFF_FFFFint + 0xFFFF_FFFFint)
                by (nonlinear_arith);
            lemma_mul_inequality(i + 1int, usize::MAX as int, 0xFFFF_FFFFint);
            assert(usize::MAX as int <= 0xFFFF_FFFF_FFFF_FFFFint);
            lemma_mul_inequality(usize::MAX as int, 0xFFFF_FFFF_FFFF_FFFFint, 0xFFFF_FFFFint);
        }
        if wagers[i].outcome == *label {
            total = total + (wagers[i].amount as u128);
        }
        i += 1;
    }
    proof {
        assert(wagers@.subrange(0, n as int) =~= wagers@);
    }
    total
}

/// Computes the payout instructions for the revealed winning label: every
/// wager whose label equals the winning label receives
/// `floor(amount * pool / total_win)` of the entire pool; zero shares are
/// skipped, losing wagers receive nothing, and if nothing was staked on the
/// winning label no payout is made at all. Instructions come in ledger
/// entry order.
pub fn settle(wagers: &Vec<Wager>, winning: &String) -> (r: Vec<Payout>)
    ensures
        payouts_view(r@) == settlement_of(wagers@, winning@),
        forall|k: int| 0 <= k < r@.len() ==> (#[trigger] r@[k].amount) > 0,
{
    let total_win = total_for_label(wagers, winning);
    if total_win == 0 {
        let r: Vec<Payout> = Vec::new();
        proof {
            assert(payouts_view(r@) =~= settlement_of(wagers@, winning@));
        }
        return r;
    }
    let pool = total_pool(wagers);
    let n = wagers.len();
    proof {
        lemma_pool_bounds(wagers@);
        lemma_mul_inequality(n as int, usize::MAX as int, 0xFFFF_FFFFint);
        assert(usize::MAX as int <= 0xFFFF_FFFF_FFFF_FFFFint);
        lemma_mul_inequality(usize::MAX as int, 0xFFFF_FFFF_FFFF_FFFFint, 0xFFFF_FFFFint);
    }
    let mut out: Vec<Payout> = Vec::new();
    let mut i: usize = 0;
    while i < n
        invariant
            n == wagers@.len(),
            i <= n,
            total_win as int == total_for(wagers@, winning@),
            total_win > 0,
            pool as int == pool_of(wagers@),
            pool as int <= 0xFFFF_FFFF_FFFF_FFFFint * 0xFFFF_FFFFint,
            payouts_view(out@) == payouts_from(
                wagers@.subrange(0, i as int),
                winning@,
                total_win as int,
                pool as int,
            ),
            forall|k: int| 0 <= k < out@.len() ==> (#[trigger] out@[k].amount) > 0,
        decreases n - i,
    {
        proof {
            assert(wagers@.subrange(0, i + 1int).drop_last() =~= wagers@.subrange(0, i as int));
            assert(wagers@.subrange(0, i + 1int).last() == wagers@[i as int]);
        }
        let w = &wagers[i];
        if w.outcome == *winning {
            proof {
                assert((w.amount as int) * (pool as int) <= 0xFFFF_FFFFint * (
                0xFFFF_FFFF_FFFF_FFFFint * 0xFFFF_FFFFint)) by (nonlinear_arith)
                    requires
                        0 <= w.amount <= 0xFFFF_FFFFint,
                        0 <= pool as int <= 0xFFFF_FFFF_FFFF_FFFFint * 0xFFFF_FFFFint,
                ;
            }
            let share = (w.amount as u128) * pool / total_win;
            if share > 0 {
                let ghost before = out@;
                out.push(Payout { bettor: w.bettor.clone(), amount: share });
                proof {
                    assert(payouts_view(out@) =~= payouts_view(before).push(
                        (w.bettor@, share as int),
                    ));
                }
            }
        }
        i += 1;
    }
    proof {
        assert(wagers@.subrange(0, n as int) =~= wagers@);
    }
    out
}

fn find_label(labels: &Vec<String>, label: &String) -> (r: Option<usize>)
    ensures
        match r {
            Some(j) => j < labels@.len() && labels@[j as int]@ == label@,
            None => forall|k: int| 0 <= k < labels@.len() ==> (#[trigger] labels@[k]@) != label@,
        },
{
    let n = labels.len();
    let mut j: usize = 0;
    while j < n
        invariant
            n == labels@.len(),
            j <= n,
            forall|k: int| 0 <= k < j ==> (#[trigger] labels@[k]@) != label@,
        decreases n - j,
    {
        if labels[j] == *label {
            return Some(j);
        }
        j += 1;
    }
    None
}

/// Whether at least one wager carries this outcome label.
#[verifier::opaque]
pub open spec fn label_appears(s: Seq<Wager>, lab: Seq<char>) -> bool {
    exists|i: int| 0 <= i < s.len() && (#[trigger] s[i].outcome@) == lab
}

/// Whether the label listing holds this label.
#[verifier::opaque]
pub open spec fn has_label(ls: Seq<String>, lab: Seq<char>) -> bool {
    exists|k: int| 0 <= k < ls.len() && (#[trigger] ls[k]@) == lab
}

/// Whether the aggregate holds an entry for this label.
#[verifier::opaque]
pub open spec fn covers_label(r: Seq<OutcomeTotal>, lab: Seq<char>) -> bool {
    exists|k: int| 0 <= k < r.len() && (#[trigger] r[k].label@) == lab
}

proof fn lemma_has_label_intro(ls: Seq<String>, k: int, lab: Seq<char>)
    requires
        0 <= k < ls.len(),
        ls[k]@ == lab,
    ensures
        has_label(ls, lab),
{
    reveal(has_label);
}

proof fn lemma_has_label_push(ls: Seq<String>, x: String, lab: Seq<char>)
    requires
        has_label(ls, lab),
    ensures
        has_label(ls.push(x), lab),
{
    reveal(has_label);
    let k = choose|k: int| 0 <= k < ls.len() && (#[trigger] ls[k]@) == lab;
    assert(ls.push(x)[k]@ == lab);
}

/// The distinct outcome labels among the wagers, in order of first
/// occurrence.
fn distinct_labels(wagers: &Vec<Wager>) -> (r: Vec<String>)
    ensures
        forall|k: int, l: int|
            0 <= k < l < r@.len() ==> (#[trigger] r@[k]@) != (#[trigger] r@[l]@),
        forall|idx: int|
            #![trigger wagers@[idx]]
            0 <= idx < wagers@.len() ==> has_label(r@, wagers@[idx].outcome@),
        forall|k: int| 0 <= k < r@.len() ==> #[trigger] label_appears(wagers@, r@[k]@),
{
    let n = wagers.len();
    let mut labels: Vec<String> = Vec::new();
    let mut i: usize = 0;
    while i < n
        invariant
            n == wagers@.len(),
            i <= n,
            forall|k: int, l: int|
                0 <= k < l < labels@.len() ==> (#[trigger] labels@[k]@) != (#[trigger] labels@[l]@),
            forall|idx: int|
                #![trigger wagers@[idx]]
                0 <= idx < i ==> has_label(labels@, wagers@[idx].outcome@),
            forall|k: int| 0 <= k < labels@.len() ==> #[trigger] label_appears(wagers@, labels@[k]@),
        decreases n - i,
    {
        let ghost before = labels@;
        match find_label(&labels, &wagers[i].outcome) {
            Some(j) => {
                proof {
                    lemma_has_label_intro(labels@, j as int, wagers@[i as int].outcome@);
                }
            },
            None => {
                labels.push(wagers[i].outcome.clone());
                proof {
                    assert forall|idx: int| #![trigger wagers@[idx]]
                        0 <= idx < i + 1 implies has_label(labels@, wagers@[idx].outcome@) by {
                        if idx < i {
                            lemma_has_label_push(
                                before,
                                wagers@[i as int].outcome,
                                wagers@[idx].outcome@,
                            );
                            assert(labels@ =~= before.push(wagers@[i as int].outcome));
                        } else {
                            lemma_has_label_intro(
                                labels@,
                                labels@.len() - 1,
                                wagers@[idx].outcome@,
                            );
                        }
                    }
                    assert(label_appears(wagers@, wagers@[i as int].outcome@)) by {
                        reveal(label_appears);
                        assert(wagers@[i as int].outcome@ == wagers@[i as int].outcome@);
                    }
                }
            },
        }
        i += 1;
    }
    labels
}

/// Aggregates the stakes per distinct outcome label: one entry per label
/// that occurs among the wagers (and none for any other label), carrying
/// the exact total staked on it, in order of first occurrence.
pub fn aggregate_totals(wagers: &Vec<Wager>) -> (r: Vec<OutcomeTotal>)
    ensures
        forall|k: int|
            0 <= k < r@.len() ==> (#[trigger] r@[k].total) as int == total_for(
                wagers@,
                r@[k].label@,
            ),
        forall|k: int, l: int|
            0 <= k < l < r@.len() ==> (#[trigger] r@[k].label@) != (#[trigger] r@[l].label@),
        forall|idx: int|
            #![trigger wagers@[idx]]
            0 <= idx < wagers@.len() ==> covers_label(r@, wagers@[idx].outcome@),
        forall|k: int| 0 <= k < r@.len() ==> #[trigger] label_appears(wagers@, r@[k].label@),
{
    let n = wagers.len();
    let labels = distinct_labels(wagers);
    // one exact total per distinct label
    let m = labels.len();
    let mut totals: Vec<OutcomeTotal> = Vec::new();
    let mut k: usize = 0;
    while k < m
        invariant
            m == labels@.len(),
            k <= m,
            n == wagers@.len(),
            totals@.len() == k,
            forall|p: int, q: int|
                0 <= p < q < labels@.len() ==> (#[trigger] labels@[p]@) != (#[trigger] labels@[q]@),
            forall|idx: int|
                #![trigger wagers@[idx]]
                0 <= idx < n ==> has_label(labels@, wagers@[idx].outcome@),
            forall|j: int|
                0 <= j < labels@.len() ==> #[trigger] label_appears(wagers@, labels@[j]@),
            forall|q: int|
                0 <= q < k ==> (#[trigger] totals@[q].label@) == labels@[q]@,
            forall|q: int|
                0 <= q < k ==> (#[trigger] totals@[q].total) as int == total_for(
                    wagers@,
                    labels@[q]@,
                ),
        decreases m - k,
    {
        let t = total_for_label(wagers, &labels[k]);
        totals.push(OutcomeTotal { label: labels[k].clone(), total: t });
        k += 1;
    }
    proof {
        assert forall|idx: int| #![trigger wagers@[idx]]
            0 <= idx < wagers@.len() implies covers_label(totals@, wagers@[idx].outcome@) by {
            reveal(has_label);
            reveal(covers_label);
            assert(has_label(labels@, wagers@[idx].outcome@));
            let j = choose|j: int|
                0 <= j < labels@.len() && (#[trigger] labels@[j]@) == wagers@[idx].outcome@;
            assert(totals@[j].label@ == wagers@[idx].outcome@);
        }
    }
    totals
}

} // verus!
