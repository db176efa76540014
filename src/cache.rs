use crate::player::Player;
use crate::project::{obs_model, Observation};
use crate::series::{key_model, KeyModel, Metric, MetricModel, ScalarField, SeriesKey};
use crate::stats::StatCategory;
use vstd::prelude::*;

verus! {

/// How a series takes new absolute values. Category statistics are lifetime
/// totals exported as increment-only counters, fed with the difference to the
/// last applied value. Scalar fields (health, food level, ...) go up and down
/// and are exported as freely settable gauges.
#[derive(Debug, Clone, Copy, PartialEq, Eq, Structural)]
pub enum SeriesKind {
    Counter,
    Gauge,
}

pub open spec fn kind_of(k: KeyModel) -> SeriesKind {
    match k.1 {
        MetricModel::Stat(_, _) => SeriesKind::Counter,
        MetricModel::Scalar(_) => SeriesKind::Gauge,
    }
}

/// What the exported handle of a series must do for one observation.
#[derive(Debug, Clone, Copy, PartialEq, Eq, Structural)]
pub enum Update {
    /// Add this non-negative amount to the counter.
    Add(u64),
    /// Set the gauge to this value.
    Assign(u64),
    /// The counter would have to go down from `last` to `value`: nothing is
    /// applied and the series keeps `last` as its baseline.
    Rejected { last: u64, value: u64 },
}

/// The update for a new absolute `value` given the last applied one, and the
/// series' last applied value afterwards.
pub open spec fn step(kind: SeriesKind, last: u64, value: u64) -> (Update, u64) {
    match kind {
        SeriesKind::Counter => if value >= last {
            (Update::Add((value - last) as u64), value)
        } else {
            (Update::Rejected { last, value }, last)
        },
        SeriesKind::Gauge => (Update::Assign(value), value),
    }
}

/// Computes the update for a new absolute value (see `step`).
pub fn next_update(kind: SeriesKind, last: u64, value: u64) -> (r: (Update, u64))
    ensures
        r == step(kind, last, value),
{
    match kind {
        SeriesKind::Counter => if value >= last {
            (Update::Add(value - last), value)
        } else {
            (Update::Rejected { last, value }, last)
        },
        SeriesKind::Gauge => (Update::Assign(value), value),
    }
}

/// A cached series: its key and the last absolute value applied to it.
pub type SeriesModel = (KeyModel, u64);

/// No two series share a key.
pub open spec fn keys_unique(s: Seq<SeriesModel>) -> bool {
    forall|i: int, j: int| 0 <= i < s.len() && 0 <= j < s.len() && i != j ==> s[i].0 != s[j].0
}

pub open spec fn has_key(s: Seq<SeriesModel>, k: KeyModel) -> bool {
    exists|i: int| 0 <= i < s.len() && s[i].0 == k
}

/// The position of the series with key `k` (meaningful when `has_key`).
pub open spec fn index_of(s: Seq<SeriesModel>, k: KeyModel) -> int {
    choose|i: int| 0 <= i < s.len() && s[i].0 == k
}

/// The last applied value of the series with key `k`, 0 before it exists.
pub open spec fn last_of(s: Seq<SeriesModel>, k: KeyModel) -> u64 {
    if has_key(s, k) {
        s[index_of(s, k)].1
    } else {
        0
    }
}

/// The cache after applying absolute value `v` for key `k`: the series is
/// created with baseline 0 on first sight, then stepped.
pub open spec fn apply_spec(s: Seq<SeriesModel>, k: KeyModel, v: u64) -> Seq<SeriesModel> {
    let next = step(kind_of(k), last_of(s, k), v).1;
    if has_key(s, k) {
        s.update(index_of(s, k), (k, next))
    } else {
        s.push((k, next))
    }
}

/// The cache after applying a run of observations, in order.
pub open spec fn apply_all(s: Seq<SeriesModel>, obs: Seq<(KeyModel, u64)>) -> Seq<SeriesModel>
    decreases obs.len(),
{
    if obs.len() == 0 {
        s
    } else {
        apply_all(apply_spec(s, obs[0].0, obs[0].1), obs.subrange(1, obs.len() as int))
    }
}

/// The outcome of applying one observation to the cache.
#[derive(Debug, Clone, Copy, PartialEq, Eq, Structural)]
pub struct Applied {
    /// Position of the series in the cache, stable for the cache's lifetime.
    pub handle: usize,
    /// Whether the series was created by this call; the caller then
    /// registers its exported handle, exactly once.
    pub created: bool,
    pub update: Update,
}

/// What `apply` reports for value `v` of key `k`.
pub open spec fn applied_spec(s: Seq<SeriesModel>, k: KeyModel, v: u64) -> Applied {
    let update = step(kind_of(k), last_of(s, k), v).0;
    if has_key(s, k) {
        Applied { handle: index_of(s, k) as usize, created: false, update }
    } else {
        Applied { handle: s.len() as usize, created: true, update }
    }
}

#[derive(Debug)]
struct Series {
    key: SeriesKey,
    last_observed: u64,
}

spec fn series_model(x: Series) -> SeriesModel {
    (key_model(x.key), x.last_observed)
}

/// The table of series created so far, each with its last applied value.
/// Series are never removed; a series' position is its handle.
#[derive(Debug)]
pub struct StatCache {
    series: Vec<Series>,
}

impl View for StatCache {
    type V = Seq<SeriesModel>;

    closed spec fn view(&self) -> Self::V {
        self.series@.map_values(|x: Series| series_model(x))
    }
}

pub proof fn lemma_index_of_unique(s: Seq<SeriesModel>, k: KeyModel, i: int)
    requires
        keys_unique(s),
        0 <= i < s.len(),
        s[i].0 == k,
    ensures
        has_key(s, k),
        index_of(s, k) == i,
{
    let c = index_of(s, k);
    assert(s[c].0 == s[i].0);
}

/// An update that leaves the exported value where it was.
pub open spec fn is_noop(u: Update, last: u64) -> bool {
    match u {
        Update::Add(d) => d == 0,
        Update::Assign(v) => v == last,
        Update::Rejected { .. } => true,
    }
}

/// No two observations of a run share a key.
pub open spec fn run_keys_distinct(obs: Seq<(KeyModel, u64)>) -> bool {
    forall|i: int, j: int| 0 <= i < obs.len() && 0 <= j < obs.len() && i != j ==> obs[i].0 != obs[j].0
}

pub proof fn lemma_apply_facts(s: Seq<SeriesModel>, k: KeyModel, v: u64)
    requires
        keys_unique(s),
    ensures
        keys_unique(apply_spec(s, k, v)),
        has_key(apply_spec(s, k, v), k),
        last_of(apply_spec(s, k, v), k) == step(kind_of(k), last_of(s, k), v).1,
        apply_spec(s, k, v).len() == if has_key(s, k) { s.len() } else { s.len() + 1 },
        forall|k2: KeyModel|
            k2 != k ==> (has_key(apply_spec(s, k, v), k2) == has_key(s, k2) && last_of(
                apply_spec(s, k, v),
                k2,
            ) == last_of(s, k2)),
{
    let r = apply_spec(s, k, v);
    let n = step(kind_of(k), last_of(s, k), v).1;
    if has_key(s, k) {
        let x = index_of(s, k);
        assert(r == s.update(x, (k, n)));
        assert forall|a: int, b: int| 0 <= a < r.len() && 0 <= b < r.len() && a != b implies r[a].0
            != r[b].0 by {
            assert(r[a].0 == s[a].0 && r[b].0 == s[b].0);
        }
        lemma_index_of_unique(r, k, x);
    } else {
        assert(r == s.push((k, n)));
        assert forall|a: int, b: int| 0 <= a < r.len() && 0 <= b < r.len() && a != b implies r[a].0
            != r[b].0 by {
            if a < s.len() && b < s.len() {
                assert(r[a].0 == s[a].0 && r[b].0 == s[b].0);
            } else if a < s.len() {
                assert(r[a].0 == s[a].0);
                assert(!(0 <= a < s.len() && s[a].0 == k));
            } else {
                assert(r[b].0 == s[b].0);
                assert(!(0 <= b < s.len() && s[b].0 == k));
            }
        }
        lemma_index_of_unique(r, k, s.len() as int);
    }
    assert forall|k2: KeyModel| k2 != k implies (has_key(r, k2) == has_key(s, k2) && last_of(r, k2)
        == last_of(s, k2)) by {
        if has_key(s, k2) {
            let j = index_of(s, k2);
            assert(r[j] == s[j]);
            lemma_index_of_unique(r, k2, j);
        } else if has_key(r, k2) {
            let j = index_of(r, k2);
            if j < s.len() {
                assert(s[j].0 == k2);
            }
        }
    }
}

/// Applying a run keeps one series per key, and the series afterwards are
/// exactly those of the keys known before or observed in the run.
pub proof fn lemma_run_keys(s: Seq<SeriesModel>, obs: Seq<(KeyModel, u64)>)
    requires
        keys_unique(s),
    ensures
        keys_unique(apply_all(s, obs)),
        forall|k: KeyModel|
            #[trigger] has_key(apply_all(s, obs), k) == (has_key(s, k) || exists|i: int|
                0 <= i < obs.len() && (#[trigger] obs[i]).0 == k),
    decreases obs.len(),
{
    if obs.len() > 0 {
        let s1 = apply_spec(s, obs[0].0, obs[0].1);
        let rest = obs.subrange(1, obs.len() as int);
        lemma_apply_facts(s, obs[0].0, obs[0].1);
        lemma_run_keys(s1, rest);
        assert(apply_all(s, obs) == apply_all(s1, rest));
        assert forall|k: KeyModel|
            has_key(apply_all(s, obs), k) == (has_key(s, k) || exists|i: int|
                0 <= i < obs.len() && (#[trigger] obs[i]).0 == k) by {
            let e_rest = exists|i: int| 0 <= i < rest.len() && (#[trigger] rest[i]).0 == k;
            let e_obs = exists|i: int| 0 <= i < obs.len() && (#[trigger] obs[i]).0 == k;
            assert(has_key(apply_all(s1, rest), k) == (has_key(s1, k) || e_rest));
            if k == obs[0].0 {
                assert(has_key(s1, k));
                assert(e_obs);
            } else {
                assert(has_key(s1, k) == has_key(s, k));
                if e_rest {
                    let i = choose|i: int| 0 <= i < rest.len() && (#[trigger] rest[i]).0 == k;
                    assert(obs[i + 1] == rest[i]);
                    assert(e_obs);
                }
                if e_obs {
                    let i = choose|i: int| 0 <= i < obs.len() && (#[trigger] obs[i]).0 == k;
                    assert(i > 0);
                    assert(rest[i - 1] == obs[i]);
                    assert(e_rest);
                }
            }
        }
    }
}

/// Two observations with equal keys never create two series: the second
/// finds the series the first one made.
pub proof fn lemma_same_key_one_series(s: Seq<SeriesModel>, k: KeyModel, v1: u64, v2: u64)
    requires
        keys_unique(s),
    ensures
        keys_unique(apply_spec(apply_spec(s, k, v1), k, v2)),
        !applied_spec(apply_spec(s, k, v1), k, v2).created,
        apply_spec(apply_spec(s, k, v1), k, v2).len() == apply_spec(s, k, v1).len(),
        apply_spec(s, k, v1).len() <= s.len() + 1,
{
    lemma_apply_facts(s, k, v1);
    lemma_apply_facts(apply_spec(s, k, v1), k, v2);
}

/// Keys that a run does not touch keep their state.
proof fn lemma_run_frame(s: Seq<SeriesModel>, obs: Seq<(KeyModel, u64)>, k: KeyModel)
    requires
        keys_unique(s),
        forall|i: int| 0 <= i < obs.len() ==> (#[trigger] obs[i]).0 != k,
    ensures
        has_key(apply_all(s, obs), k) == has_key(s, k),
        last_of(apply_all(s, obs), k) == last_of(s, k),
    decreases obs.len(),
{
    if obs.len() > 0 {
        let s1 = apply_spec(s, obs[0].0, obs[0].1);
        let rest = obs.subrange(1, obs.len() as int);
        lemma_apply_facts(s, obs[0].0, obs[0].1);
        assert forall|i: int| 0 <= i < rest.len() implies (#[trigger] rest[i]).0 != k by {
            assert(rest[i] == obs[i + 1]);
        }
        lemma_run_frame(s1, rest, k);
    }
}

/// After a run with distinct keys, each observed key holds the value its
/// single observation stepped it to.
proof fn lemma_run_values(s: Seq<SeriesModel>, obs: Seq<(KeyModel, u64)>)
    requires
        keys_unique(s),
        run_keys_distinct(obs),
    ensures
        forall|i: int|
            0 <= i < obs.len() ==> has_key(apply_all(s, obs), (#[trigger] obs[i]).0) && last_of(
                apply_all(s, obs),
                obs[i].0,
            ) == step(kind_of(obs[i].0), last_of(s, obs[i].0), obs[i].1).1,
    decreases obs.len(),
{
    if obs.len() > 0 {
        let s1 = apply_spec(s, obs[0].0, obs[0].1);
        let rest = obs.subrange(1, obs.len() as int);
        lemma_apply_facts(s, obs[0].0, obs[0].1);
        assert forall|a: int, b: int|
            0 <= a < rest.len() && 0 <= b < rest.len() && a != b implies rest[a].0 != rest[b].0 by {
            assert(rest[a] == obs[a + 1] && rest[b] == obs[b + 1]);
        }
        lemma_run_values(s1, rest);
        assert forall|i: int| 0 <= i < rest.len() implies (#[trigger] rest[i]).0 != obs[0].0 by {
            assert(rest[i] == obs[i + 1]);
        }
        lemma_run_frame(s1, rest, obs[0].0);
        assert forall|i: int|
            0 <= i < obs.len() implies has_key(apply_all(s, obs), (#[trigger] obs[i]).0) && last_of(
                apply_all(s, obs),
                obs[i].0,
            ) == step(kind_of(obs[i].0), last_of(s, obs[i].0), obs[i].1).1 by {
            if i > 0 {
                assert(rest[i - 1] == obs[i]);
                assert(obs[i].0 != obs[0].0);
            }
        }
    }
}

/// A value that an observation already stepped a series to is a fixed point:
/// observing it again changes nothing and applies nothing.
proof fn lemma_step_again(t: Seq<SeriesModel>, k: KeyModel, l0: u64, v: u64)
    requires
        keys_unique(t),
        has_key(t, k),
        last_of(t, k) == step(kind_of(k), l0, v).1,
    ensures
        apply_spec(t, k, v) == t,
        is_noop(applied_spec(t, k, v).update, last_of(t, k)),
{
    let x = index_of(t, k);
    assert(apply_spec(t, k, v) =~= t);
}

proof fn lemma_run_fixed(t: Seq<SeriesModel>, obs: Seq<(KeyModel, u64)>)
    requires
        forall|i: int| 0 <= i < obs.len() ==> apply_spec(t, (#[trigger] obs[i]).0, obs[i].1) == t,
    ensures
        apply_all(t, obs) == t,
    decreases obs.len(),
{
    if obs.len() > 0 {
        let rest = obs.subrange(1, obs.len() as int);
        assert(apply_spec(t, obs[0].0, obs[0].1) == t);
        assert forall|i: int| 0 <= i < rest.len() implies apply_spec(t, (#[trigger] rest[i]).0, rest[i].1) == t by {
            assert(rest[i] == obs[i + 1]);
        }
        lemma_run_fixed(t, rest);
    }
}

/// Applying the same run of observations (distinct keys) a second time
/// leaves the cache as the first pass left it, and every update of the
/// second pass applies nothing.
pub proof fn lemma_rescrape_idempotent(s: Seq<SeriesModel>, obs: Seq<(KeyModel, u64)>)
    requires
        keys_unique(s),
        run_keys_distinct(obs),
    ensures
        apply_all(apply_all(s, obs), obs) == apply_all(s, obs),
        forall|i: int|
            0 <= i < obs.len() ==> apply_spec(apply_all(s, obs), (#[trigger] obs[i]).0, obs[i].1)
                == apply_all(s, obs) && is_noop(
                applied_spec(apply_all(s, obs), obs[i].0, obs[i].1).update,
                last_of(apply_all(s, obs), obs[i].0),
            ),
{
    let t = apply_all(s, obs);
    lemma_run_keys(s, obs);
    lemma_run_values(s, obs);
    assert forall|i: int| 0 <= i < obs.len() implies apply_spec(t, (#[trigger] obs[i]).0, obs[i].1)
        == t && is_noop(applied_spec(t, obs[i].0, obs[i].1).update, last_of(t, obs[i].0)) by {
        lemma_step_again(t, obs[i].0, last_of(s, obs[i].0), obs[i].1);
    }
    lemma_run_fixed(t, obs);
}

impl StatCache {
    pub open spec fn wf(&self) -> bool {
        keys_unique(self@)
    }

    /// An empty cache.
    pub fn new() -> (r: StatCache)
        ensures
            r.wf(),
            r@ == Seq::<SeriesModel>::empty(),
    {
        let r = StatCache { series: Vec::new() };
        assert(r@ =~= Seq::<SeriesModel>::empty());
        r
    }

    /// Number of series created so far.
    pub fn len(&self) -> (r: usize)
        ensures
            r == self@.len(),
    {
        self.series.len()
    }

    /// The handle of the series with this key, if it exists.
    pub fn find(&self, key: &SeriesKey) -> (r: Option<usize>)
        requires
            self.wf(),
        ensures
            match r {
                Some(i) => has_key(self@, key_model(*key)) && i == index_of(self@, key_model(*key)),
                None => !has_key(self@, key_model(*key)),
            },
    {
        let mut i: usize = 0;
        while i < self.series.len()
            invariant
                self.wf(),
                i <= self@.len(),
                forall|j: int| 0 <= j < i ==> self@[j].0 != key_model(*key),
            decreases self@.len() - i,
        {
            proof {
                assert(self@[i as int] == series_model(self.series@[i as int]));
            }
            if self.series[i].key.same_as(key) {
                proof {
                    lemma_index_of_unique(self@, key_model(*key), i as int);
                }
                return Some(i);
            }
            i = i + 1;
        }
        None
    }

    /// The last applied value of the series with this key, if it exists.
    pub fn last_value(&self, key: &SeriesKey) -> (r: Option<u64>)
        requires
            self.wf(),
        ensures
            match r {
                Some(v) => has_key(self@, key_model(*key)) && v == last_of(self@, key_model(*key)),
                None => !has_key(self@, key_model(*key)),
            },
    {
        match self.find(key) {
            Some(i) => {
                proof {
                    assert(self@[i as int] == series_model(self.series@[i as int]));
                }
                Some(self.series[i].last_observed)
            },
            None => None,
        }
    }

    /// Gets or creates the series of `key` and applies absolute value
    /// `value` to it. A series is created at most once per key.
    pub fn apply(&mut self, key: &SeriesKey, value: u64) -> (r: Applied)
        requires
            old(self).wf(),
        ensures
            final(self).wf(),
            final(self)@ == apply_spec(old(self)@, key_model(*key), value),
            r == applied_spec(old(self)@, key_model(*key), value),
    {
        let ghost s = self@;
        let ghost k = key_model(*key);
        let kind = match &key.metric {
            Metric::Stat(_, _) => SeriesKind::Counter,
            Metric::Scalar(_) => SeriesKind::Gauge,
        };
        match self.find(key) {
            Some(i) => {
                proof {
                    assert(s[i as int] == series_model(self.series@[i as int]));
                }
                let (update, next) = next_update(kind, self.series[i].last_observed, value);
                self.series[i].last_observed = next;
                proof {
                    assert(self@ =~= s.update(i as int, (k, next)));
                    assert forall|a: int, b: int|
                        0 <= a < self@.len() && 0 <= b < self@.len() && a != b implies self@[a].0
                        != self@[b].0 by {
                        assert(self@[a].0 == s[a].0 && self@[b].0 == s[b].0);
                    }
                }
                Applied { handle: i, created: false, update }
            },
            None => {
                let (update, next) = next_update(kind, 0, value);
                let handle = self.series.len();
                self.series.push(Series { key: key.duplicate(), last_observed: next });
                proof {
                    assert(self@ =~= s.push((k, next)));
                    assert forall|a: int, b: int|
                        0 <= a < self@.len() && 0 <= b < self@.len() && a != b implies self@[a].0
                        != self@[b].0 by {
                        if a < s.len() && b < s.len() {
                            assert(self@[a].0 == s[a].0 && self@[b].0 == s[b].0);
                        } else if a < s.len() {
                            assert(self@[a].0 == s[a].0);
                        } else {
                            assert(self@[b].0 == s[b].0);
                        }
                    }
                }
                Applied { handle, created: true, update }
            },
        }
    }

    /// Applies one projected observation.
    pub fn apply_observation(&mut self, obs: &Observation) -> (r: Applied)
        requires
            old(self).wf(),
        ensures
            final(self).wf(),
            final(self)@ == apply_spec(old(self)@, obs_model(*obs).0, obs.value),
            r == applied_spec(old(self)@, obs_model(*obs).0, obs.value),
    {
        self.apply(&obs.key, obs.value)
    }

    /// Sets the counter of one category type key of a player to an absolute
    /// value.
    pub fn set_counter(
        &mut self,
        player: &Player,
        category: &StatCategory,
        category_type: &String,
        value: u64,
    ) -> (r: Applied)
        requires
            old(self).wf(),
        ensures
            final(self).wf(),
            final(self)@ == apply_spec(
                old(self)@,
                (player.uuid@, MetricModel::Stat(*category, category_type@)),
                value,
            ),
            r == applied_spec(
                old(self)@,
                (player.uuid@, MetricModel::Stat(*category, category_type@)),
                value,
            ),
    {
        let key = SeriesKey {
            player_id: player.uuid.clone(),
            metric: Metric::Stat(*category, category_type.clone()),
        };
        self.apply(&key, value)
    }

    /// Sets the gauge of one scalar field of a player.
    pub fn set_gauge(&mut self, player: &Player, field: ScalarField, value: u64) -> (r: Applied)
        requires
            old(self).wf(),
        ensures
            final(self).wf(),
            final(self)@ == apply_spec(old(self)@, (player.uuid@, MetricModel::Scalar(field)), value),
            r == applied_spec(old(self)@, (player.uuid@, MetricModel::Scalar(field)), value),
    {
        let key = SeriesKey { player_id: player.uuid.clone(), metric: Metric::Scalar(field) };
        self.apply(&key, value)
    }
}

} // verus!
