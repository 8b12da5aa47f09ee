use vstd::prelude::*;
use crate::errors::MarketError;

verus! {

/// One recorded wager: bettor identity, stake amount in the smallest
/// currency unit, and the chosen outcome label. A wager is immutable once
/// recorded, except for full replacement when the same bettor bets again.
#[derive(Debug)]
pub struct Wager {
    pub bettor: String,
    pub amount: u32,
    pub outcome: String,
}

/// Every bettor identity occurs at most once among the entries.
pub open spec fn distinct_bettors(s: Seq<Wager>) -> bool {
    forall|i: int, j: int|
        0 <= i < j < s.len() ==> (#[trigger] s[i].bettor@) != (#[trigger] s[j].bettor@)
}

/// The mapping from bettor identity to that bettor's wager that a sequence
/// of entries denotes; a later entry for the same identity wins.
pub open spec fn wager_map_of(s: Seq<Wager>) -> Map<Seq<char>, Wager>
    decreases s.len(),
{
    if s.len() == 0 {
        Map::empty()
    } else {
        wager_map_of(s.drop_last()).insert(s.last().bettor@, s.last())
    }
}

/// The mapping from bettor identity to exactly one active wager.
/// Insert-or-overwrite and full-scan read; no removal (bets cannot be
/// cancelled).
pub struct StakeLedger {
    entries: Vec<Wager>,
}

impl View for StakeLedger {
    type V = Seq<Wager>;

    closed spec fn view(&self) -> Seq<Wager> {
        self.entries@
    }
}

impl StakeLedger {
    /// Well-formedness: one entry per bettor identity.
    pub open spec fn wf(self) -> bool {
        distinct_bettors(self@)
    }

    /// The ledger as a mapping from bettor identity to wager.
    pub open spec fn map_view(self) -> Map<Seq<char>, Wager> {
        wager_map_of(self@)
    }

    pub fn new() -> (r: StakeLedger)
        ensures
            r@ == Seq::<Wager>::empty(),
            r.wf(),
    {
        StakeLedger { entries: Vec::new() }
    }

    pub fn len(&self) -> (r: usize)
        ensures
            r == self@.len(),
    {
        self.entries.len()
    }

    /// All recorded wagers, in recording order (first bet of each bettor).
    pub fn wagers(&self) -> (r: &Vec<Wager>)
        ensures
            r@ == self@,
    {
        &self.entries
    }

    fn find_index(&self, bettor: &String) -> (r: Option<usize>)
        ensures
            match r {
                Some(i) => i < self@.len() && self@[i as int].bettor@ == bettor@,
                None => forall|i: int| 0 <= i < self@.len() ==> self@[i].bettor@ != bettor@,
            },
    {
        let n = self.entries.len();
        let mut i: usize = 0;
        while i < n
            invariant
                n == self@.len(),
                i <= n,
                forall|k: int| 0 <= k < i ==> self@[k].bettor@ != bettor@,
            decreases n - i,
        {
            if self.entries[i].bettor == *bettor {
                return Some(i);
            }
            i += 1;
        }
        None
    }

    /// Inserts the bettor's wager, or overwrites the bettor's previous one:
    /// a bettor holds at most one active wager, and the last write wins.
    pub fn record_bet(&mut self, bettor: String, outcome: String, amount: u32)
        requires
            old(self).wf(),
        ensures
            final(self).wf(),
            final(self).map_view() == old(self).map_view().insert(
                bettor@,
                (Wager { bettor, amount, outcome }),
            ),
            old(self).map_view().contains_key(bettor@) ==> final(self)@.len() == old(self)@.len(),
            !old(self).map_view().contains_key(bettor@) ==> final(self)@.len() == old(self)@.len()
                + 1,
    {
        proof {
            lemma_wager_map_contains(self@, bettor@);
        }
        let ghost prev = self@;
        let w = Wager { bettor, amount, outcome };
        match self.find_index(&w.bettor) {
            Some(i) => {
                self.entries.remove(i);
                self.entries.push(w);
                proof {
                    lemma_remove_then_push(prev, i as int, w);
                }
            },
            None => {
                self.entries.push(w);
                proof {
                    let t = prev.push(w);
                    assert(t.drop_last() =~= prev);
                    assert(wager_map_of(t) == wager_map_of(prev).insert(w.bettor@, w));
                    assert forall|p: int, q: int|
                        0 <= p < q < t.len() implies (#[trigger] t[p].bettor@)
                        != (#[trigger] t[q].bettor@) by {
                        if q < t.len() - 1 {
                            assert(t[p] == prev[p]);
                            assert(t[q] == prev[q]);
                        } else {
                            assert(t[p] == prev[p]);
                        }
                    }
                }
            },
        }
    }

    /// Rebuilds a ledger from a persisted listing of entries, validating the
    /// one-wager-per-bettor invariant; a listing with a repeated bettor
    /// identity is corrupt.
    pub fn from_entries(entries: Vec<Wager>) -> (r: Result<StakeLedger, MarketError>)
        ensures
            match r {
                Ok(l) => l@ == entries@ && l.wf(),
                Err(e) => e == MarketError::CorruptState && !distinct_bettors(entries@),
            },
    {
        let n = entries.len();
        let mut i: usize = 0;
        while i < n
            invariant
                n == entries@.len(),
                i <= n,
                forall|p: int, q: int|
                    0 <= p < q < entries@.len() && p < i ==> (#[trigger] entries@[p].bettor@)
                        != (#[trigger] entries@[q].bettor@),
            decreases n - i,
        {
            let mut j: usize = i + 1;
            while j < n
                invariant
                    n == entries@.len(),
                    i < j <= n,
                    forall|q: int| i < q < j ==> entries@[i as int].bettor@ != (#[trigger] entries@[q].bettor@),
                decreases n - j,
            {
                if entries[i].bettor == entries[j].bettor {
                    return Err(MarketError::CorruptState);
                }
                j += 1;
            }
            i += 1;
        }
        Ok(StakeLedger { entries })
    }
}

/// The bettors of `wager_map_of(s)` are exactly the bettors of the entries.
pub proof fn lemma_wager_map_contains(s: Seq<Wager>, k: Seq<char>)
    ensures
        wager_map_of(s).contains_key(k) <==> exists|i: int|
            0 <= i < s.len() && (#[trigger] s[i].bettor@) == k,
    decreases s.len(),
{
    if s.len() > 0 {
        lemma_wager_map_contains(s.drop_last(), k);
        if s.last().bettor@ == k {
            assert(s[s.len() - 1].bettor@ == k);
        } else if wager_map_of(s).contains_key(k) {
            let i = choose|i: int| 0 <= i < s.drop_last().len() && (#[trigger] s.drop_last()[i].bettor@) == k;
            assert(s[i].bettor@ == k);
        } else {
            assert forall|i: int| 0 <= i < s.len() implies (#[trigger] s[i].bettor@) != k by {
                if i < s.len() - 1 {
                    assert(s.drop_last()[i].bettor@ == s[i].bettor@);
                }
            }
        }
    }
}

/// Replacing the one entry that holds a bettor's wager by a new wager of the
/// same bettor, at the end of the sequence, denotes the same mapping as a
/// plain insert, and keeps the entries distinct.
proof fn lemma_remove_then_push(s: Seq<Wager>, i: int, w: Wager)
    requires
        distinct_bettors(s),
        0 <= i < s.len(),
        s[i].bettor@ == w.bettor@,
    ensures
        distinct_bettors(s.remove(i).push(w)),
        wager_map_of(s.remove(i).push(w)) == wager_map_of(s).insert(w.bettor@, w),
{
    let t = s.remove(i).push(w);
    assert forall|p: int, q: int| 0 <= p < q < t.len() implies (#[trigger] t[p].bettor@)
        != (#[trigger] t[q].bettor@) by {
        if q < t.len() - 1 {
            // both p and q land in s at positions other than i
            let sp: int = if p < i { p } else { p + 1 };
            let sq: int = if q < i { q } else { q + 1 };
            assert(t[p] == s[sp]);
            assert(t[q] == s[sq]);
        } else {
            let sp: int = if p < i { p } else { p + 1 };
            assert(t[p] == s[sp]);
            assert(s[sp].bettor@ != s[i].bettor@);
        }
    }
    assert(t.drop_last() =~= s.remove(i));
    assert(wager_map_of(t) == wager_map_of(s.remove(i)).insert(w.bettor@, w));
    lemma_wager_map_skip(s, i, w);
}

/// Dropping the one entry of a bettor from a distinct sequence and then
/// inserting a new wager of that bettor gives the same mapping as inserting
/// over the whole sequence: the dropped entry was the only one for the
/// bettor, and the insert overwrites it.
proof fn lemma_wager_map_skip(s: Seq<Wager>, i: int, w: Wager)
    requires
        distinct_bettors(s),
        0 <= i < s.len(),
        w.bettor@ == s[i].bettor@,
    ensures
        wager_map_of(s.remove(i)).insert(w.bettor@, w) == wager_map_of(s).insert(w.bettor@, w),
    decreases s.len(),
{
    if i == s.len() - 1 {
        assert(s.remove(i) =~= s.drop_last());
        assert(wager_map_of(s) == wager_map_of(s.drop_last()).insert(s.last().bettor@, s.last()));
        assert(s.last().bettor@ == w.bettor@);
        assert(wager_map_of(s.drop_last()).insert(w.bettor@, w) =~= wager_map_of(s.drop_last()).insert(
            s.last().bettor@,
            s.last(),
        ).insert(w.bettor@, w));
    } else {
        let dl = s.drop_last();
        assert(distinct_bettors(dl)) by {
            assert forall|p: int, q: int|
                0 <= p < q < dl.len() implies (#[trigger] dl[p].bettor@) != (#[trigger] dl[q].bettor@) by {
                assert(dl[p] == s[p]);
                assert(dl[q] == s[q]);
            }
        }
        assert(dl[i] == s[i]);
        lemma_wager_map_skip(dl, i, w);
        // peel the unchanged last entry off both sides
        assert(s.remove(i).drop_last() =~= dl.remove(i));
        assert(s.remove(i).last() == s.last());
        assert(s.remove(i).len() == s.len() - 1 >= 1);
        assert(wager_map_of(s.remove(i)) == wager_map_of(dl.remove(i)).insert(
            s.last().bettor@,
            s.last(),
        ));
        assert(wager_map_of(s) == wager_map_of(dl).insert(s.last().bettor@, s.last()));
        // the re-inserted bettor differs from the last entry's bettor
        assert(w.bettor@ != s.last().bettor@);
        assert(wager_map_of(dl.remove(i)).insert(s.last().bettor@, s.last()).insert(w.bettor@, w)
            =~= wager_map_of(dl.remove(i)).insert(w.bettor@, w).insert(s.last().bettor@, s.last()));
        assert(wager_map_of(dl).insert(w.bettor@, w).insert(s.last().bettor@, s.last())
            =~= wager_map_of(dl).insert(s.last().bettor@, s.last()).insert(w.bettor@, w));
    }
}

/// One wager per distinct bettor: a well-formed ledger sequence has exactly
/// as many entries as its mapping has bettors.
pub proof fn lemma_one_wager_per_bettor(s: Seq<Wager>)
    requires
        distinct_bettors(s),
    ensures
        wager_map_of(s).dom().len() == s.len(),
        wager_map_of(s).dom().finite(),
    decreases s.len(),
{
    if s.len() > 0 {
        assert(distinct_bettors(s.drop_last())) by {
            assert forall|p: int, q: int|
                0 <= p < q < s.drop_last().len() implies (#[trigger] s.drop_last()[p].bettor@)
                != (#[trigger] s.drop_last()[q].bettor@) by {
                assert(s.drop_last()[p] == s[p]);
                assert(s.drop_last()[q] == s[q]);
            }
        }
        lemma_one_wager_per_bettor(s.drop_last());
        lemma_wager_map_contains(s.drop_last(), s.last().bettor@);
        assert(forall|i: int|
            0 <= i < s.drop_last().len() ==> (#[trigger] s.drop_last()[i].bettor@) == s[i].bettor@);
        assert(!wager_map_of(s.drop_last()).contains_key(s.last().bettor@));
        assert(wager_map_of(s).dom() =~= wager_map_of(s.drop_last()).dom().insert(
            s.last().bettor@,
        ));
        vstd::set::axiom_set_insert_len(wager_map_of(s.drop_last()).dom(), s.last().bettor@);
    }
}

/// Re-betting replaces rather than accumulates: writing a bettor's wager
/// twice denotes the same mapping as writing only the second wager.
pub proof fn lemma_last_write_wins(m: Map<Seq<char>, Wager>, b: Seq<char>, w1: Wager, w2: Wager)
    ensures
        m.insert(b, w1).insert(b, w2) == m.insert(b, w2),
{
    assert(m.insert(b, w1).insert(b, w2) =~= m.insert(b, w2));
}

} // verus!
