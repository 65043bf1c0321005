//! A run of the estimator: every shape emits in turn, in collection order,
//! and each of its rays is credited to at most one other shape.
use vstd::prelude::*;

use crate::attribution::{credited_shape, first_hit, is_candidate, lemma_credited_shape, name_views};
use crate::tally::{entry_views, lemma_tally_of, tally_of, HitTally, TargetCount};

verus! {

/// One estimate of a run: of the `emissions` rays that `from_shape` emitted,
/// `hits` were credited to `to_shape`. The view factor from one to the other
/// is the ratio `hits / emissions`.
#[derive(Debug, PartialEq, Eq)]
pub struct ViewFactorResult {
    pub from_shape: String,
    pub to_shape: String,
    pub hits: u64,
    pub emissions: u64,
}

/// The mathematical content of a `ViewFactorResult`.
pub struct EstimateView {
    pub from_shape: Seq<char>,
    pub to_shape: Seq<char>,
    pub hits: nat,
    pub emissions: nat,
}

impl View for ViewFactorResult {
    type V = EstimateView;

    open spec fn view(&self) -> EstimateView {
        EstimateView {
            from_shape: self.from_shape@,
            to_shape: self.to_shape@,
            hits: self.hits as nat,
            emissions: self.emissions as nat,
        }
    }
}

/// The views of a list of results.
pub open spec fn estimate_views(v: Seq<ViewFactorResult>) -> Seq<EstimateView> {
    v.map_values(|r: ViewFactorResult| r@)
}

/// The names credited, trial by trial, with the rays of shape `emitter`,
/// given for each trial which shapes its ray strikes; rays credited to no
/// shape leave no name.
pub open spec fn credited_names(names: Seq<Seq<char>>, emitter: int, trials: Seq<Seq<bool>>) -> Seq<
    Seq<char>,
>
    decreases trials.len(),
{
    if trials.len() == 0 {
        seq![]
    } else {
        let prev = credited_names(names, emitter, trials.drop_last());
        match credited_shape(names, emitter, trials.last()) {
            Some(j) => prev.push(names[j]),
            None => prev,
        }
    }
}

/// The estimates of the pass of shape `emitter`: one per target credited at
/// least once, in the order of its first hit.
pub open spec fn pass_estimates(
    names: Seq<Seq<char>>,
    emitter: int,
    emissions: nat,
    trials: Seq<Seq<bool>>,
) -> Seq<EstimateView> {
    tally_of(credited_names(names, emitter, trials)).map_values(
        |e: (Seq<char>, nat)|
            EstimateView { from_shape: names[emitter], to_shape: e.0, hits: e.1, emissions },
    )
}

/// The estimates of a run whose shapes `0 .. passes.len()` emitted with the
/// trials given in `passes`, pass after pass.
pub open spec fn run_estimates(
    names: Seq<Seq<char>>,
    emissions: nat,
    passes: Seq<Seq<Seq<bool>>>,
) -> Seq<EstimateView>
    decreases passes.len(),
{
    if passes.len() == 0 {
        seq![]
    } else {
        run_estimates(names, emissions, passes.drop_last()) + pass_estimates(
            names,
            passes.len() - 1,
            emissions,
            passes.last(),
        )
    }
}

/// State of a run in progress: the shape emitting now, its trials so far, its
/// tally, and the estimates of the shapes that have finished.
pub struct ViewFactorRun {
    names: Vec<String>,
    emissions: u64,
    emitter: usize,
    trials: u64,
    tally: HitTally,
    results: Vec<ViewFactorResult>,
    completed: Ghost<Seq<Seq<Seq<bool>>>>,
    current: Ghost<Seq<Seq<bool>>>,
}

impl ViewFactorRun {
    /// The names of the scene's shapes.
    pub closed spec fn names(&self) -> Seq<Seq<char>> {
        name_views(self.names@)
    }

    /// The number of rays each shape emits.
    pub closed spec fn emissions(&self) -> nat {
        self.emissions as nat
    }

    /// The index of the shape emitting now; the number of shapes once all
    /// have emitted.
    pub closed spec fn emitter(&self) -> nat {
        self.emitter as nat
    }

    /// For each shape that has finished emitting, which shapes each of its
    /// rays struck.
    pub closed spec fn completed(&self) -> Seq<Seq<Seq<bool>>> {
        self.completed@
    }

    /// Which shapes each ray of the shape emitting now struck.
    pub closed spec fn current(&self) -> Seq<Seq<bool>> {
        self.current@
    }

    /// The estimates of the shapes that have finished emitting.
    pub closed spec fn estimates(&self) -> Seq<EstimateView> {
        estimate_views(self.results@)
    }

    /// The run's state agrees with the trials it was fed: the tally counts
    /// the current shape's credited rays, and the stored results are the
    /// estimates of the shapes that finished.
    pub closed spec fn wf(&self) -> bool {
        &&& self.emissions > 0
        &&& self.emitter <= self.names.len()
        &&& self.completed@.len() == self.emitter
        &&& forall|i: int|
            0 <= i < self.completed@.len() ==> (#[trigger] self.completed@[i]).len()
                == self.emissions
        &&& self.current@.len() == self.trials
        &&& self.emitter < self.names.len() ==> self.trials < self.emissions
        &&& self.emitter == self.names.len() ==> self.trials == 0
        &&& self.tally.wf()
        &&& self.tally@ == tally_of(
            credited_names(self.names(), self.emitter as int, self.current@),
        )
        &&& self.tally.recorded() <= self.trials
        &&& self.estimates() == run_estimates(self.names(), self.emissions as nat, self.completed@)
    }

    /// A run over shapes called `names`, each emitting `emissions` rays; the
    /// first shape emits first.
    pub fn new(names: Vec<String>, emissions: u64) -> (r: ViewFactorRun)
        requires
            emissions > 0,
        ensures
            r.wf(),
            r.names() == name_views(names@),
            r.emissions() == emissions,
            r.emitter() == 0,
            r.completed() == Seq::<Seq<Seq<bool>>>::empty(),
            r.current() == Seq::<Seq<bool>>::empty(),
            r.estimates() == Seq::<EstimateView>::empty(),
    {
        let r = ViewFactorRun {
            names,
            emissions,
            emitter: 0,
            trials: 0,
            tally: HitTally::new(),
            results: Vec::new(),
            completed: Ghost(Seq::empty()),
            current: Ghost(Seq::empty()),
        };
        assert(r.estimates() =~= Seq::<EstimateView>::empty());
        r
    }

    /// The shape whose ray is to be sampled next; `None` once every shape has
    /// emitted all its rays.
    pub fn current_emitter(&self) -> (r: Option<usize>)
        requires
            self.wf(),
        ensures
            self.emitter() < self.names().len() ==> r == Some(self.emitter() as usize),
            self.emitter() >= self.names().len() ==> r is None,
    {
        if self.emitter < self.names.len() {
            Some(self.emitter)
        } else {
            None
        }
    }

    /// Takes the outcome of one sampled ray of the shape emitting now: for
    /// each shape of the scene, whether the ray strikes it. Returns the shape
    /// credited with the ray. After the last ray of a shape its estimates are
    /// added, and the next shape in collection order emits.
    pub fn record(&mut self, strikes: &Vec<bool>) -> (r: Option<usize>)
        requires
            old(self).wf(),
            old(self).emitter() < old(self).names().len(),
            strikes.len() == old(self).names().len(),
        ensures
            final(self).wf(),
            final(self).names() == old(self).names(),
            final(self).emissions() == old(self).emissions(),
            r matches Some(j) ==> credited_shape(
                old(self).names(),
                old(self).emitter() as int,
                strikes@,
            ) == Some(j as int),
            r is None ==> credited_shape(
                old(self).names(),
                old(self).emitter() as int,
                strikes@,
            ) is None,
            ({
                let trials = old(self).current().push(strikes@);
                if trials.len() == old(self).emissions() {
                    &&& final(self).completed() == old(self).completed().push(trials)
                    &&& final(self).current() == Seq::<Seq<bool>>::empty()
                    &&& final(self).emitter() == old(self).emitter() + 1
                } else {
                    &&& final(self).completed() == old(self).completed()
                    &&& final(self).current() == trials
                    &&& final(self).emitter() == old(self).emitter()
                }
            }),
    {
        let ghost names = self.names();
        let ghost e = self.emitter as int;
        let ghost trials = self.current@.push(strikes@);
        let ghost prev = credited_names(names, e, self.current@);
        proof {
            assert(trials.drop_last() =~= self.current@);
        }
        let hit = first_hit(&self.names, self.emitter, strikes);
        match hit {
            Some(j) => {
                proof {
                    assert(prev.push(names[j as int]).drop_last() =~= prev);
                }
                self.tally.record(&self.names[j]);
            },
            None => {},
        }
        assert(self.tally@ == tally_of(credited_names(names, e, trials)));
        self.trials = self.trials + 1;
        self.current = Ghost(trials);
        if self.trials == self.emissions {
            let mut done = HitTally::new();
            std::mem::swap(&mut done, &mut self.tally);
            let entries = done.into_entries();
            let mut pass = pass_results(&self.names, self.emitter, self.emissions, &entries);
            let ghost before = self.results@;
            self.results.append(&mut pass);
            proof {
                let c = self.completed@.push(trials);
                assert(c.drop_last() =~= self.completed@);
                assert(estimate_views(self.results@) =~= estimate_views(before) + pass_estimates(
                    names,
                    e,
                    self.emissions as nat,
                    trials,
                ));
                self.completed@ = c;
            }
            self.emitter = self.emitter + 1;
            self.trials = 0;
            self.current = Ghost(Seq::empty());
            proof {
                assert(credited_names(names, self.emitter as int, Seq::empty()) =~= Seq::empty());
                assert(tally_of(Seq::<Seq<char>>::empty()) =~= Seq::empty());
            }
        }
        hit
    }

    /// The estimates of a run in which every shape has emitted.
    pub fn finish(self) -> (r: Vec<ViewFactorResult>)
        requires
            self.wf(),
            self.emitter() == self.names().len(),
        ensures
            self.completed().len() == self.names().len(),
            forall|i: int|
                0 <= i < self.completed().len() ==> (#[trigger] self.completed()[i]).len()
                    == self.emissions(),
            estimate_views(r@) == self.estimates(),
            estimate_views(r@) == run_estimates(self.names(), self.emissions(), self.completed()),
            forall|k: int|
                0 <= k < r@.len() ==> {
                    &&& (#[trigger] r@[k]).to_shape@ != r@[k].from_shape@
                    &&& 1 <= r@[k].hits <= r@[k].emissions
                    &&& r@[k].emissions == self.emissions()
                },
            self.names().len() == 1 ==> r@.len() == 0,
    {
        proof {
            let e = run_estimates(self.names(), self.emissions(), self.completed());
            lemma_no_self_target(self.names(), self.emissions(), self.completed());
            lemma_estimate_bounds(self.names(), self.emissions(), self.completed());
            assert forall|k: int| 0 <= k < self.results@.len() implies {
                &&& (#[trigger] self.results@[k]).to_shape@ != self.results@[k].from_shape@
                &&& 1 <= self.results@[k].hits <= self.results@[k].emissions
                &&& self.results@[k].emissions == self.emissions()
            } by {
                assert(estimate_views(self.results@)[k] == e[k]);
            }
            if self.names().len() == 1 {
                lemma_single_shape_run_is_empty(self.names(), self.emissions(), self.completed());
            }
        }
        self.results
    }
}

/// Every name credited with a ray of shape `emitter` is the name of a shape of
/// the scene, differs from the emitter's, and there are no more of them than
/// trials.
pub proof fn lemma_credited_names(names: Seq<Seq<char>>, emitter: int, trials: Seq<Seq<bool>>)
    ensures
        credited_names(names, emitter, trials).len() <= trials.len(),
        forall|k: int|
            0 <= k < credited_names(names, emitter, trials).len() ==> {
                &&& #[trigger] credited_names(names, emitter, trials)[k] != names[emitter]
                &&& names.contains(credited_names(names, emitter, trials)[k])
            },
    decreases trials.len(),
{
    if trials.len() > 0 {
        lemma_credited_names(names, emitter, trials.drop_last());
        lemma_credited_shape(names, emitter, trials.last());
        let prev = credited_names(names, emitter, trials.drop_last());
        let cn = credited_names(names, emitter, trials);
        match credited_shape(names, emitter, trials.last()) {
            Some(j) => {
                assert(is_candidate(names, emitter, trials.last(), j));
                assert forall|k: int| 0 <= k < cn.len() implies {
                    &&& #[trigger] cn[k] != names[emitter]
                    &&& names.contains(cn[k])
                } by {
                    if k < prev.len() {
                        assert(cn[k] == prev[k]);
                    } else {
                        assert(cn[k] == names[j]);
                    }
                }
            },
            None => {},
        }
    }
}

/// Every estimate of the pass of shape `emitter` comes from that shape, goes
/// to another shape of the scene, and counts between one and all of the
/// pass's trials.
proof fn lemma_pass_estimates(
    names: Seq<Seq<char>>,
    emitter: int,
    emissions: nat,
    trials: Seq<Seq<bool>>,
)
    ensures
        forall|k: int|
            0 <= k < pass_estimates(names, emitter, emissions, trials).len() ==> {
                let e = #[trigger] pass_estimates(names, emitter, emissions, trials)[k];
                &&& e.from_shape == names[emitter]
                &&& e.to_shape != names[emitter]
                &&& names.contains(e.to_shape)
                &&& 1 <= e.hits <= trials.len()
                &&& e.emissions == emissions
            },
{
    let cn = credited_names(names, emitter, trials);
    lemma_credited_names(names, emitter, trials);
    lemma_tally_of(cn);
    let t = tally_of(cn);
    let pe = pass_estimates(names, emitter, emissions, trials);
    assert forall|k: int| 0 <= k < pe.len() implies {
        let e = #[trigger] pe[k];
        &&& e.from_shape == names[emitter]
        &&& e.to_shape != names[emitter]
        &&& names.contains(e.to_shape)
        &&& 1 <= e.hits <= trials.len()
        &&& e.emissions == emissions
    } by {
        assert(pe[k].to_shape == t[k].0);
        assert(cn.contains(t[k].0));
        let m = choose|m: int| 0 <= m < cn.len() && cn[m] == t[k].0;
        assert(cn[m] != names[emitter]);
    }
}

/// Self-exclusion: no estimate of a run has its emitting shape as its target.
pub proof fn lemma_no_self_target(
    names: Seq<Seq<char>>,
    emissions: nat,
    passes: Seq<Seq<Seq<bool>>>,
)
    ensures
        forall|k: int|
            0 <= k < run_estimates(names, emissions, passes).len() ==> (#[trigger] run_estimates(
                names,
                emissions,
                passes,
            )[k]).to_shape != run_estimates(names, emissions, passes)[k].from_shape,
    decreases passes.len(),
{
    if passes.len() > 0 {
        let prev = run_estimates(names, emissions, passes.drop_last());
        let last = pass_estimates(names, passes.len() - 1, emissions, passes.last());
        lemma_no_self_target(names, emissions, passes.drop_last());
        lemma_pass_estimates(names, passes.len() - 1, emissions, passes.last());
        let r = run_estimates(names, emissions, passes);
        assert forall|k: int| 0 <= k < r.len() implies (#[trigger] r[k]).to_shape
            != r[k].from_shape by {
            if k < prev.len() {
                assert(r[k] == prev[k]);
            } else {
                assert(r[k] == last[k - prev.len()]);
            }
        }
    }
}

/// In a run in which every shape that emitted sent `emissions` rays, each
/// estimate goes from a shape of the scene to a shape of the scene and
/// credits it with at least one and at most `emissions` rays: its view factor
/// lies in `(0, 1]`.
pub proof fn lemma_estimate_bounds(
    names: Seq<Seq<char>>,
    emissions: nat,
    passes: Seq<Seq<Seq<bool>>>,
)
    requires
        passes.len() <= names.len(),
        forall|i: int| 0 <= i < passes.len() ==> (#[trigger] passes[i]).len() == emissions,
    ensures
        forall|k: int|
            0 <= k < run_estimates(names, emissions, passes).len() ==> {
                let e = #[trigger] run_estimates(names, emissions, passes)[k];
                &&& names.contains(e.from_shape)
                &&& names.contains(e.to_shape)
                &&& 1 <= e.hits <= e.emissions
                &&& e.emissions == emissions
            },
    decreases passes.len(),
{
    if passes.len() > 0 {
        let i = passes.len() - 1;
        let prev = run_estimates(names, emissions, passes.drop_last());
        let last = pass_estimates(names, i, emissions, passes.last());
        lemma_estimate_bounds(names, emissions, passes.drop_last());
        lemma_pass_estimates(names, i, emissions, passes.last());
        assert(passes[i] == passes.last());
        let r = run_estimates(names, emissions, passes);
        assert forall|k: int| 0 <= k < r.len() implies {
            let e = #[trigger] r[k];
            &&& names.contains(e.from_shape)
            &&& names.contains(e.to_shape)
            &&& 1 <= e.hits <= e.emissions
            &&& e.emissions == emissions
        } by {
            if k < prev.len() {
                assert(r[k] == prev[k]);
            } else {
                assert(r[k] == last[k - prev.len()]);
                assert(names[i] == r[k].from_shape);
            }
        }
    }
}

/// A scene of a single shape yields no estimate: no ray can be credited to
/// another shape.
pub proof fn lemma_single_shape_run_is_empty(
    names: Seq<Seq<char>>,
    emissions: nat,
    passes: Seq<Seq<Seq<bool>>>,
)
    requires
        names.len() == 1,
        passes.len() <= 1,
    ensures
        run_estimates(names, emissions, passes) == Seq::<EstimateView>::empty(),
{
    if passes.len() == 1 {
        let trials = passes.last();
        let cn = credited_names(names, 0, trials);
        lemma_credited_names(names, 0, trials);
        if cn.len() > 0 {
            assert(names.contains(cn[0]));
            let m = choose|m: int| 0 <= m < names.len() && names[m] == cn[0];
            assert(m == 0);
        }
        assert(cn =~= Seq::<Seq<char>>::empty());
        assert(tally_of(cn) =~= Seq::empty());
        assert(pass_estimates(names, 0, emissions, trials) =~= Seq::<EstimateView>::empty());
        assert(run_estimates(names, emissions, passes.drop_last()) =~= Seq::<EstimateView>::empty());
        assert(run_estimates(names, emissions, passes) =~= Seq::<EstimateView>::empty());
    }
}

/// Reproducibility: two runs over shapes of the same names with the same
/// number of emissions, fed the same strike observations, hold the same
/// estimates.
pub proof fn lemma_runs_reproducible(a: ViewFactorRun, b: ViewFactorRun)
    requires
        a.wf(),
        b.wf(),
        a.names() == b.names(),
        a.emissions() == b.emissions(),
        a.completed() == b.completed(),
    ensures
        a.estimates() == b.estimates(),
{
}

/// The results of one pass, one per tally entry, in the tally's order.
fn pass_results(
    names: &Vec<String>,
    emitter: usize,
    emissions: u64,
    entries: &Vec<TargetCount>,
) -> (r: Vec<ViewFactorResult>)
    requires
        emitter < names.len(),
    ensures
        estimate_views(r@) == entry_views(entries@).map_values(
            |e: (Seq<char>, nat)|
                EstimateView {
                    from_shape: names@[emitter as int]@,
                    to_shape: e.0,
                    hits: e.1,
                    emissions: emissions as nat,
                },
        ),
{
    let ghost target = entry_views(entries@).map_values(
        |e: (Seq<char>, nat)|
            EstimateView {
                from_shape: names@[emitter as int]@,
                to_shape: e.0,
                hits: e.1,
                emissions: emissions as nat,
            },
    );
    let mut r: Vec<ViewFactorResult> = Vec::new();
    let mut k: usize = 0;
    while k < entries.len()
        invariant
            k <= entries.len(),
            emitter < names.len(),
            target.len() == entries.len(),
            target == entry_views(entries@).map_values(
                |e: (Seq<char>, nat)|
                    EstimateView {
                        from_shape: names@[emitter as int]@,
                        to_shape: e.0,
                        hits: e.1,
                        emissions: emissions as nat,
                    },
            ),
            r.len() == k,
            estimate_views(r@) =~= target.take(k as int),
        decreases entries.len() - k,
    {
        r.push(
            ViewFactorResult {
                from_shape: names[emitter].clone(),
                to_shape: entries[k].name.clone(),
                hits: entries[k].hits,
                emissions,
            },
        );
        assert(entry_views(entries@)[k as int] == (entries@[k as int].name@, entries@[k as int].hits as nat));
        assert(r@[k as int]@ == target[k as int]);
        k = k + 1;
        assert(estimate_views(r@) =~= target.take(k as int));
    }
    assert(target.take(k as int) =~= target);
    r
}

} // verus!
