use crate::error::ExportError;
use crate::player::Player;
use crate::series::{
    key_model, scalar_at, scalar_fields, scalar_value, KeyModel, Metric, MetricModel,
    ScalarField, SeriesKey,
};
use crate::stats::{
    category_at, category_index, stat_categories, EntryModel, NbtStats, StatCategory, StatValue,
};
use vstd::prelude::*;

verus! {

/// One projected sample: the series it belongs to, the player label and the
/// absolute value read from the save data.
#[derive(Debug)]
pub struct Observation {
    pub key: SeriesKey,
    pub player_name: String,
    pub value: u64,
}

/// Key, player label and value of an observation.
pub type ObsModel = (KeyModel, Seq<char>, u64);

pub open spec fn obs_model(o: Observation) -> ObsModel {
    (key_model(o.key), o.player_name@, o.value)
}

pub open spec fn obs_models(v: Seq<Observation>) -> Seq<ObsModel> {
    v.map_values(|o: Observation| obs_model(o))
}

/// The entries of the category at position `i`, empty when it is absent.
pub open spec fn present_entries(t: Seq<Option<Seq<EntryModel>>>, i: int) -> Seq<EntryModel> {
    match t[i] {
        Some(es) => es,
        None => Seq::empty(),
    }
}

pub open spec fn count_of(v: StatValue) -> u64 {
    match v {
        StatValue::Count(n) => n,
        StatValue::NotANumber => 0,
    }
}

pub open spec fn stat_observation(
    id: Seq<char>,
    name: Seq<char>,
    i: int,
    e: EntryModel,
) -> ObsModel {
    ((id, MetricModel::Stat(category_at(i), e.0)), name, count_of(e.1))
}

/// Observations of the category at position `i`, one per entry, in entry order.
pub open spec fn category_observations(
    id: Seq<char>,
    name: Seq<char>,
    t: Seq<Option<Seq<EntryModel>>>,
    i: int,
) -> Seq<ObsModel> {
    present_entries(t, i).map_values(|e: EntryModel| stat_observation(id, name, i, e))
}

/// Observations of the first `n` categories, category after category.
pub open spec fn stat_observations(
    id: Seq<char>,
    name: Seq<char>,
    t: Seq<Option<Seq<EntryModel>>>,
    n: int,
) -> Seq<ObsModel>
    decreases n,
{
    if n <= 0 {
        Seq::empty()
    } else {
        stat_observations(id, name, t, n - 1) + category_observations(id, name, t, n - 1)
    }
}

pub open spec fn scalar_observation(id: Seq<char>, name: Seq<char>, nbt: NbtStats, f: ScalarField) -> ObsModel {
    ((id, MetricModel::Scalar(f)), name, scalar_value(nbt, f))
}

/// The five scalar observations, in the fixed field order.
pub open spec fn scalar_observations(id: Seq<char>, name: Seq<char>, nbt: NbtStats) -> Seq<ObsModel> {
    Seq::new(5, |i: int| scalar_observation(id, name, nbt, scalar_at(i)))
}

/// Every leaf of every present category holds a number.
pub open spec fn all_numeric(t: Seq<Option<Seq<EntryModel>>>) -> bool {
    forall|i: int, j: int|
        0 <= i < 9 && 0 <= j < present_entries(t, i).len() ==> (#[trigger] present_entries(t, i)[j]).1 is Count
}

/// What projecting a player yields: the observations of all present
/// categories in category order, then the five scalars; or
/// `NonNumericValue` when a leaf holds no number.
pub open spec fn projection(p: Player) -> Result<Seq<ObsModel>, ExportError> {
    let t = p.stats@;
    if all_numeric(t) {
        Ok(stat_observations(p.uuid@, p.name@, t, 9) + scalar_observations(p.uuid@, p.name@, p.nbt_stats))
    } else {
        Err(ExportError::NonNumericValue)
    }
}

pub open spec fn is_scalar_obs(o: ObsModel) -> bool {
    o.0.1 is Scalar
}

proof fn lemma_filter_all<A>(s: Seq<A>, pred: spec_fn(A) -> bool)
    requires
        forall|i: int| 0 <= i < s.len() ==> pred(#[trigger] s[i]),
    ensures
        s.filter(pred) == s,
    decreases s.len(),
{
    reveal(Seq::filter);
    if s.len() > 0 {
        lemma_filter_all(s.drop_last(), pred);
        assert(s.drop_last().push(s.last()) =~= s);
    }
}

proof fn lemma_filter_none<A>(s: Seq<A>, pred: spec_fn(A) -> bool)
    requires
        forall|i: int| 0 <= i < s.len() ==> !pred(#[trigger] s[i]),
    ensures
        s.filter(pred).len() == 0,
    decreases s.len(),
{
    reveal(Seq::filter);
    if s.len() > 0 {
        lemma_filter_none(s.drop_last(), pred);
    }
}

/// Each observation of the first `n` categories belongs to one of them and
/// carries one of its type keys; no two share a key.
proof fn lemma_stat_observations(id: Seq<char>, name: Seq<char>, t: Seq<Option<Seq<EntryModel>>>, n: int)
    requires
        0 <= n <= 9,
        t.len() == 9,
        forall|i: int| 0 <= i < 9 && (#[trigger] t[i]) is Some ==> crate::stats::keys_distinct(t[i]->0),
    ensures
        forall|j: int| 0 <= j < stat_observations(id, name, t, n).len() ==> {
            let o = #[trigger] stat_observations(id, name, t, n)[j];
            &&& o.0.0 == id
            &&& o.0.1 is Stat
            &&& category_index(o.0.1->Stat_0) < n
            &&& t[category_index(o.0.1->Stat_0) as int] is Some
        },
        forall|a: int, b: int|
            0 <= a < stat_observations(id, name, t, n).len() && 0 <= b < stat_observations(id, name, t, n).len() && a != b
                ==> (#[trigger] stat_observations(id, name, t, n)[a]).0 != (#[trigger] stat_observations(id, name, t, n)[b]).0,
    decreases n,
{
    if n > 0 {
        lemma_stat_observations(id, name, t, n - 1);
        let prev = stat_observations(id, name, t, n - 1);
        let cur = category_observations(id, name, t, n - 1);
        let all = stat_observations(id, name, t, n);
        assert(all == prev + cur);
        crate::stats::lemma_category_at_index(n - 1);
        assert forall|j: int| 0 <= j < all.len() implies {
            let o = #[trigger] all[j];
            &&& o.0.0 == id
            &&& o.0.1 is Stat
            &&& category_index(o.0.1->Stat_0) < n
            &&& t[category_index(o.0.1->Stat_0) as int] is Some
        } by {
            if j < prev.len() {
                assert(all[j] == prev[j]);
            } else {
                assert(all[j] == cur[j - prev.len()]);
                assert(present_entries(t, n - 1).len() > 0);
            }
        }
        assert forall|a: int, b: int| 0 <= a < all.len() && 0 <= b < all.len() && a != b
            implies (#[trigger] all[a]).0 != (#[trigger] all[b]).0 by {
            if a < prev.len() && b < prev.len() {
                assert(all[a] == prev[a] && all[b] == prev[b]);
            } else if a >= prev.len() && b >= prev.len() {
                assert(all[a] == cur[a - prev.len()] && all[b] == cur[b - prev.len()]);
                let es = present_entries(t, n - 1);
                assert(es[a - prev.len()].0 != es[b - prev.len()].0);
            } else if a < prev.len() {
                assert(all[a] == prev[a] && all[b] == cur[b - prev.len()]);
            } else {
                assert(all[b] == prev[b] && all[a] == cur[a - prev.len()]);
            }
        }
    }
}

/// A category absent from the stats tree yields no observation, and its
/// absence is no error: whether the projection succeeds depends on the
/// present categories only.
pub proof fn lemma_absent_category(p: Player, c: StatCategory)
    requires
        p.wf(),
        p.stats@[category_index(c) as int] is None,
    ensures
        (projection(p) is Ok) == all_numeric(p.stats@),
        projection(p) is Ok ==> forall|j: int|
            0 <= j < projection(p)->Ok_0.len() ==> !((#[trigger] projection(p)->Ok_0[j]).0.1 matches MetricModel::Stat(c2, _) && c2 == c),
{
    let t = p.stats@;
    let sp = stat_observations(p.uuid@, p.name@, t, 9);
    let sc = scalar_observations(p.uuid@, p.name@, p.nbt_stats);
    lemma_stat_observations(p.uuid@, p.name@, t, 9);
    if projection(p) is Ok {
        let all = projection(p)->Ok_0;
        assert(all == sp + sc);
        assert forall|j: int| 0 <= j < all.len() implies !((#[trigger] all[j]).0.1 matches MetricModel::Stat(c2, _) && c2 == c) by {
            if j < sp.len() {
                assert(all[j] == sp[j]);
            } else {
                assert(all[j] == sc[j - sp.len()]);
            }
        }
    }
}

/// Every valid player yields exactly five scalar observations, whatever its
/// stats tree holds.
pub proof fn lemma_five_scalars(p: Player)
    requires
        p.wf(),
        projection(p) is Ok,
    ensures
        projection(p)->Ok_0.filter(|o: ObsModel| is_scalar_obs(o)).len() == 5,
{
    let t = p.stats@;
    let sp = stat_observations(p.uuid@, p.name@, t, 9);
    let sc = scalar_observations(p.uuid@, p.name@, p.nbt_stats);
    let pred = |o: ObsModel| is_scalar_obs(o);
    lemma_stat_observations(p.uuid@, p.name@, t, 9);
    assert forall|i: int| 0 <= i < sp.len() implies !pred(#[trigger] sp[i]) by {}
    assert forall|i: int| 0 <= i < sc.len() implies pred(#[trigger] sc[i]) by {}
    lemma_filter_none(sp, pred);
    lemma_filter_all(sc, pred);
    Seq::filter_distributes_over_add(sp, sc, pred);
}

/// No two observations of one projection share a series key.
pub proof fn lemma_projection_keys_distinct(p: Player)
    requires
        p.wf(),
        projection(p) is Ok,
    ensures
        forall|a: int, b: int|
            0 <= a < projection(p)->Ok_0.len() && 0 <= b < projection(p)->Ok_0.len() && a != b
                ==> (#[trigger] projection(p)->Ok_0[a]).0 != (#[trigger] projection(p)->Ok_0[b]).0,
{
    let t = p.stats@;
    let sp = stat_observations(p.uuid@, p.name@, t, 9);
    let sc = scalar_observations(p.uuid@, p.name@, p.nbt_stats);
    let all = projection(p)->Ok_0;
    lemma_stat_observations(p.uuid@, p.name@, t, 9);
    assert(all == sp + sc);
    assert forall|a: int, b: int| 0 <= a < all.len() && 0 <= b < all.len() && a != b
        implies (#[trigger] all[a]).0 != (#[trigger] all[b]).0 by {
        if a < sp.len() && b < sp.len() {
            assert(all[a] == sp[a] && all[b] == sp[b]);
        } else if a >= sp.len() && b >= sp.len() {
            assert(all[a] == sc[a - sp.len()] && all[b] == sc[b - sp.len()]);
        } else if a < sp.len() {
            assert(all[a] == sp[a] && all[b] == sc[b - sp.len()]);
        } else {
            assert(all[b] == sp[b] && all[a] == sc[a - sp.len()]);
        }
    }
}

pub open spec fn projected(r: Result<Vec<Observation>, ExportError>) -> Result<Seq<ObsModel>, ExportError> {
    match r {
        Ok(v) => Ok(obs_models(v@)),
        Err(e) => Err(e),
    }
}

/// Maps a player record to its observations (see `projection`).
pub fn project(player: &Player) -> (r: Result<Vec<Observation>, ExportError>)
    requires
        player.wf(),
    ensures
        projected(r) == projection(*player),
{
    let ghost id = player.uuid@;
    let ghost name = player.name@;
    let ghost t = player.stats@;
    let mut out: Vec<Observation> = Vec::new();
    let categories = stat_categories();
    let mut ci: usize = 0;
    while ci < 9
        invariant
            ci <= 9,
            player.wf(),
            t == player.stats@,
            id == player.uuid@,
            name == player.name@,
            categories@.len() == 9,
            forall|i: int| 0 <= i < 9 ==> #[trigger] categories@[i] == category_at(i),
            obs_models(out@) == stat_observations(id, name, t, ci as int),
            forall|i: int, j: int|
                0 <= i < ci && 0 <= j < present_entries(t, i).len() ==> (#[trigger] present_entries(t, i)[j]).1 is Count,
        decreases 9 - ci,
    {
        let category = categories[ci];
        proof {
            crate::stats::lemma_category_at_index(ci as int);
        }
        if let Some(entries) = player.stats.get_stat(&category) {
            let mut j: usize = 0;
            while j < entries.len()
                invariant
                    ci < 9,
                    j <= entries@.len(),
                    t == player.stats@,
                    id == player.uuid@,
                    name == player.name@,
                    category == category_at(ci as int),
                    t[ci as int] == Some(crate::stats::entries_model(entries@)),
                    obs_models(out@) == stat_observations(id, name, t, ci as int)
                        + category_observations(id, name, t, ci as int).subrange(0, j as int),
                    forall|i: int, k: int|
                        0 <= i < ci && 0 <= k < present_entries(t, i).len() ==> (#[trigger] present_entries(t, i)[k]).1 is Count,
                    forall|k: int| 0 <= k < j ==> (#[trigger] present_entries(t, ci as int)[k]).1 is Count,
                decreases entries@.len() - j,
            {
                let entry = &entries[j];
                proof {
                    assert(present_entries(t, ci as int)[j as int] == crate::stats::entry_model(*entry));
                }
                match entry.value {
                    StatValue::Count(n) => {
                        let ghost before = obs_models(out@);
                        let obs = Observation {
                            key: SeriesKey {
                                player_id: player.uuid.clone(),
                                metric: Metric::Stat(category, entry.type_key.clone()),
                            },
                            player_name: player.name.clone(),
                            value: n,
                        };
                        let ghost om = obs_model(obs);
                        out.push(obs);
                        proof {
                            let co = category_observations(id, name, t, ci as int);
                            assert(co[j as int] == stat_observation(id, name, ci as int, crate::stats::entry_model(*entry)));
                            assert(co.subrange(0, j + 1) =~= co.subrange(0, j as int).push(co[j as int]));
                            assert(om == co[j as int]);
                            assert(obs_models(out@) =~= before.push(om));
                        }
                    },
                    StatValue::NotANumber => {
                        proof {
                            assert(present_entries(t, ci as int)[j as int].1 is NotANumber);
                            assert(!all_numeric(t));
                        }
                        return Err(ExportError::NonNumericValue);
                    },
                }
                j = j + 1;
            }
            proof {
                let co = category_observations(id, name, t, ci as int);
                assert(co.subrange(0, j as int) =~= co);
            }
        } else {
            proof {
                assert(category_observations(id, name, t, ci as int) =~= Seq::<ObsModel>::empty());
                assert(stat_observations(id, name, t, ci as int) + Seq::<ObsModel>::empty() =~= stat_observations(id, name, t, ci as int));
            }
        }
        ci = ci + 1;
    }
    let ghost stat_part = obs_models(out@);
    let fields = scalar_fields();
    let mut fi: usize = 0;
    while fi < 5
        invariant
            fi <= 5,
            fields@.len() == 5,
            id == player.uuid@,
            name == player.name@,
            forall|i: int| 0 <= i < 5 ==> #[trigger] fields@[i] == scalar_at(i),
            obs_models(out@) == stat_part + scalar_observations(id, name, player.nbt_stats).subrange(0, fi as int),
        decreases 5 - fi,
    {
        let field = fields[fi];
        let ghost before = obs_models(out@);
        let obs = Observation {
            key: SeriesKey { player_id: player.uuid.clone(), metric: Metric::Scalar(field) },
            player_name: player.name.clone(),
            value: field.value_in(&player.nbt_stats),
        };
        let ghost om = obs_model(obs);
        out.push(obs);
        proof {
            let so = scalar_observations(id, name, player.nbt_stats);
            assert(om == so[fi as int]);
            assert(so.subrange(0, fi + 1) =~= so.subrange(0, fi as int).push(so[fi as int]));
            assert(obs_models(out@) =~= before.push(om));
        }
        fi = fi + 1;
    }
    proof {
        let so = scalar_observations(id, name, player.nbt_stats);
        assert(so.subrange(0, 5) =~= so);
    }
    Ok(out)
}

} // verus!
