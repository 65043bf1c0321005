//! Per-target hit counts gathered during one emitter's pass.
use vstd::prelude::*;

verus! {

/// Whether `name` is a key of the tally `t`.
pub open spec fn has_key(t: Seq<(Seq<char>, nat)>, name: Seq<char>) -> bool {
    exists|i: int| 0 <= i < t.len() && t[i].0 == name
}

/// The tally `t` after one more hit on `name`: its count goes up by one, or
/// the name is appended with a count of one when it is not yet a key.
pub open spec fn with_hit(t: Seq<(Seq<char>, nat)>, name: Seq<char>) -> Seq<(Seq<char>, nat)> {
    if has_key(t, name) {
        let i = choose|i: int| 0 <= i < t.len() && t[i].0 == name;
        t.update(i, (name, t[i].1 + 1))
    } else {
        t.push((name, 1))
    }
}

/// The tally of a sequence of credited names: each distinct name once, in the
/// order of its first hit, with the number of its hits.
pub open spec fn tally_of(hits: Seq<Seq<char>>) -> Seq<(Seq<char>, nat)>
    decreases hits.len(),
{
    if hits.len() == 0 {
        seq![]
    } else {
        with_hit(tally_of(hits.drop_last()), hits.last())
    }
}

/// No two entries of `t` share a name.
pub open spec fn keys_unique(t: Seq<(Seq<char>, nat)>) -> bool {
    forall|i: int, j: int| 0 <= i < t.len() && 0 <= j < t.len() && t[i].0 == t[j].0 ==> i == j
}

/// Every count of `t` lies in `1..=bound`.
pub open spec fn counts_within(t: Seq<(Seq<char>, nat)>, bound: nat) -> bool {
    forall|i: int| 0 <= i < t.len() ==> 1 <= #[trigger] t[i].1 <= bound
}

/// One hit adds at most one key, keeps keys unique, and raises one count by
/// one; the keys stay among the names hit.
pub proof fn lemma_with_hit(t: Seq<(Seq<char>, nat)>, name: Seq<char>, bound: nat)
    requires
        keys_unique(t),
        counts_within(t, bound),
    ensures
        keys_unique(with_hit(t, name)),
        counts_within(with_hit(t, name), bound + 1),
        has_key(with_hit(t, name), name),
        forall|i: int|
            0 <= i < with_hit(t, name).len() ==> (#[trigger] with_hit(t, name)[i]).0 == name
                || has_key(t, with_hit(t, name)[i].0),
{
    let u = with_hit(t, name);
    if has_key(t, name) {
        let i = choose|i: int| 0 <= i < t.len() && t[i].0 == name;
        assert(u[i].0 == name);
        assert forall|a: int| 0 <= a < u.len() implies u[a].0 == name || has_key(t, u[a].0) by {
            if a != i {
                assert(t[a].0 == u[a].0);
            }
        }
    } else {
        assert(u[t.len() as int].0 == name);
        assert forall|a: int| 0 <= a < u.len() implies u[a].0 == name || has_key(t, u[a].0) by {
            if a < t.len() {
                assert(t[a].0 == u[a].0);
            }
        }
    }
}

/// The tally of `hits` has unique keys, each one a name of `hits`, and
/// counts between one and the number of hits.
pub proof fn lemma_tally_of(hits: Seq<Seq<char>>)
    ensures
        keys_unique(tally_of(hits)),
        counts_within(tally_of(hits), hits.len()),
        forall|i: int|
            0 <= i < tally_of(hits).len() ==> hits.contains(#[trigger] tally_of(hits)[i].0),
    decreases hits.len(),
{
    if hits.len() > 0 {
        let prev = hits.drop_last();
        lemma_tally_of(prev);
        lemma_with_hit(tally_of(prev), hits.last(), prev.len());
        let t = tally_of(hits);
        assert forall|i: int| 0 <= i < t.len() implies hits.contains(#[trigger] t[i].0) by {
            if t[i].0 == hits.last() {
                assert(hits[hits.len() - 1] == hits.last());
            } else {
                let k = choose|k: int| 0 <= k < tally_of(prev).len() && tally_of(prev)[k].0 == t[i].0;
                assert(prev.contains(tally_of(prev)[k].0));
                let m = choose|m: int| 0 <= m < prev.len() && prev[m] == t[i].0;
                assert(hits[m] == prev[m]);
            }
        }
    }
}

/// One target of a tally and the number of hits credited to it.
#[derive(Debug, PartialEq, Eq)]
pub struct TargetCount {
    pub name: String,
    pub hits: u64,
}

/// Hit counts keyed by target name, kept in the order of each name's first
/// hit.
pub struct HitTally {
    entries: Vec<TargetCount>,
    recorded: u64,
}

/// The entries as (name, hits) pairs.
pub open spec fn entry_views(entries: Seq<TargetCount>) -> Seq<(Seq<char>, nat)> {
    entries.map_values(|e: TargetCount| (e.name@, e.hits as nat))
}

impl View for HitTally {
    type V = Seq<(Seq<char>, nat)>;

    closed spec fn view(&self) -> Seq<(Seq<char>, nat)> {
        entry_views(self.entries@)
    }
}

impl HitTally {
    /// The number of hits recorded so far.
    pub closed spec fn recorded(&self) -> nat {
        self.recorded as nat
    }

    /// Keys are unique and every count lies between one and the number of
    /// hits recorded.
    pub closed spec fn wf(&self) -> bool {
        &&& keys_unique(self@)
        &&& counts_within(self@, self.recorded as nat)
    }

    /// An empty tally.
    pub fn new() -> (r: HitTally)
        ensures
            r.wf(),
            r@ == Seq::<(Seq<char>, nat)>::empty(),
            r.recorded() == 0,
    {
        let r = HitTally { entries: Vec::new(), recorded: 0 };
        assert(r@ =~= Seq::<(Seq<char>, nat)>::empty());
        r
    }

    /// Counts one more hit on the target called `name`.
    pub fn record(&mut self, name: &String)
        requires
            old(self).wf(),
            old(self).recorded() < u64::MAX,
        ensures
            final(self).wf(),
            final(self)@ == with_hit(old(self)@, name@),
            final(self).recorded() == old(self).recorded() + 1,
    {
        let ghost t = self@;
        let ghost before = self.recorded;
        let mut i: usize = 0;
        while i < self.entries.len()
            invariant
                i <= self.entries.len(),
                self@ == t,
                self.wf(),
                self.recorded == before,
                before < u64::MAX,
                t == old(self)@,
                before == old(self).recorded,
                forall|k: int| 0 <= k < i ==> t[k].0 != name@,
            decreases self.entries.len() - i,
        {
            if self.entries[i].name == *name {
                assert(t[i as int].0 == name@);
                let ghost c = choose|c: int| 0 <= c < t.len() && t[c].0 == name@;
                assert(c == i);
                let hits = self.entries[i].hits;
                assert(hits as nat == t[i as int].1);
                let old_name = self.entries[i].name.clone();
                self.entries.set(i, TargetCount { name: old_name, hits: hits + 1 });
                self.recorded = self.recorded + 1;
                proof {
                    lemma_with_hit(t, name@, (self.recorded - 1) as nat);
                    assert(self@ =~= with_hit(t, name@));
                }
                return;
            }
            i = i + 1;
        }
        self.entries.push(TargetCount { name: name.clone(), hits: 1 });
        self.recorded = self.recorded + 1;
        proof {
            assert(!has_key(t, name@));
            lemma_with_hit(t, name@, (self.recorded - 1) as nat);
            assert(self@ =~= with_hit(t, name@));
        }
    }

    /// The number of distinct targets hit.
    pub fn len(&self) -> (r: usize)
        ensures
            r == self@.len(),
    {
        self.entries.len()
    }

    /// The entries, in the order of each target's first hit.
    pub fn into_entries(self) -> (r: Vec<TargetCount>)
        ensures
            entry_views(r@) == self@,
    {
        self.entries
    }
}

} // verus!
