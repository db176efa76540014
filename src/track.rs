use crate::cache::{
    applied_spec, apply_all, apply_spec, has_key, is_noop, keys_unique, last_of,
    lemma_rescrape_idempotent, lemma_run_keys, Applied, SeriesModel, StatCache,
};
use crate::error::ExportError;
use crate::player::Player;
use crate::project::{
    lemma_projection_keys_distinct, obs_models, project, projection, ObsModel, Observation,
};
use crate::series::KeyModel;
use vstd::prelude::*;

verus! {

/// The run of (key, absolute value) pairs a projection feeds to the cache.
pub open spec fn run_of(obs: Seq<ObsModel>) -> Seq<(KeyModel, u64)> {
    obs.map_values(|o: ObsModel| (o.0, o.2))
}

pub proof fn lemma_apply_all_push(s: Seq<SeriesModel>, obs: Seq<(KeyModel, u64)>, o: (KeyModel, u64))
    ensures
        apply_all(s, obs.push(o)) == apply_spec(apply_all(s, obs), o.0, o.1),
    decreases obs.len(),
{
    if obs.len() == 0 {
        let p = obs.push(o);
        assert(p.subrange(1, p.len() as int) =~= Seq::<(KeyModel, u64)>::empty());
        assert(p[0] == o);
        assert(apply_all(apply_spec(s, o.0, o.1), Seq::<(KeyModel, u64)>::empty()) == apply_spec(s, o.0, o.1));
        assert(apply_all(s, obs) == s);
    } else {
        let p = obs.push(o);
        let s1 = apply_spec(s, obs[0].0, obs[0].1);
        let rest = obs.subrange(1, obs.len() as int);
        assert(p.subrange(1, p.len() as int) =~= rest.push(o));
        assert(p[0] == obs[0]);
        lemma_apply_all_push(s1, rest, o);
    }
}

/// The cache state after a player's observations: unchanged when the
/// projection fails.
pub open spec fn track_spec(s: Seq<SeriesModel>, p: Player) -> Seq<SeriesModel> {
    match projection(p) {
        Ok(obs) => apply_all(s, run_of(obs)),
        Err(_) => s,
    }
}

/// A tracked player: its observations, and for each the cache's decision.
#[derive(Debug)]
pub struct PlayerUpdate {
    pub observations: Vec<Observation>,
    pub applied: Vec<Applied>,
}

/// `t` holds the observations `obs`, applied in order to cache state `s`.
pub open spec fn tracked_from(t: PlayerUpdate, s: Seq<SeriesModel>, obs: Seq<ObsModel>) -> bool {
    &&& obs_models(t.observations@) == obs
    &&& t.applied@.len() == obs.len()
    &&& forall|i: int|
        0 <= i < obs.len() ==> #[trigger] t.applied@[i] == applied_spec(
            apply_all(s, run_of(obs).take(i)),
            obs[i].0,
            obs[i].2,
        )
}

/// The result of tracking a player on cache state `s`.
pub open spec fn tracked_as(r: Result<PlayerUpdate, ExportError>, s: Seq<SeriesModel>, p: Player) -> bool {
    match projection(p) {
        Ok(obs) => r is Ok && tracked_from(r->Ok_0, s, obs),
        Err(e) => r is Err && r->Err_0 == e,
    }
}

/// Projects a player and applies each observation to the cache, in order.
/// A player whose projection fails leaves the cache untouched.
pub fn track_for_player(cache: &mut StatCache, player: &Player) -> (r: Result<PlayerUpdate, ExportError>)
    requires
        old(cache).wf(),
        player.wf(),
    ensures
        final(cache).wf(),
        final(cache)@ == track_spec(old(cache)@, *player),
        tracked_as(r, old(cache)@, *player),
{
    let ghost s0 = cache@;
    let obs = match project(player) {
        Ok(v) => v,
        Err(e) => return Err(e),
    };
    let ghost om = obs_models(obs@);
    let ghost run = run_of(om);
    let mut out: Vec<Applied> = Vec::new();
    let mut i: usize = 0;
    while i < obs.len()
        invariant
            i <= obs@.len(),
            om == obs_models(obs@),
            run == run_of(om),
            projection(*player) == Ok::<Seq<ObsModel>, ExportError>(om),
            cache.wf(),
            cache@ == apply_all(s0, run.take(i as int)),
            out@.len() == i,
            forall|j: int|
                0 <= j < i ==> #[trigger] out@[j] == applied_spec(
                    apply_all(s0, run.take(j)),
                    om[j].0,
                    om[j].2,
                ),
        decreases obs@.len() - i,
    {
        proof {
            assert(om[i as int] == crate::project::obs_model(obs@[i as int]));
            assert(run.take(i + 1) =~= run.take(i as int).push(run[i as int]));
            lemma_apply_all_push(s0, run.take(i as int), run[i as int]);
        }
        let a = cache.apply_observation(&obs[i]);
        out.push(a);
        i = i + 1;
    }
    proof {
        assert(run.take(obs@.len() as int) =~= run);
    }
    Ok(PlayerUpdate { observations: obs, applied: out })
}

/// Tracking the same unchanged player twice: the second pass leaves every
/// series' last applied value as the first pass left it, and each of its
/// updates applies nothing.
pub proof fn lemma_rescrape_player(s: Seq<SeriesModel>, p: Player)
    requires
        keys_unique(s),
        p.wf(),
    ensures
        track_spec(track_spec(s, p), p) == track_spec(s, p),
        projection(p) is Ok ==> forall|i: int|
            0 <= i < projection(p)->Ok_0.len() ==> is_noop(
                applied_spec(
                    track_spec(s, p),
                    (#[trigger] projection(p)->Ok_0[i]).0,
                    projection(p)->Ok_0[i].2,
                ).update,
                last_of(track_spec(s, p), projection(p)->Ok_0[i].0),
            ),
{
    if let Ok(obs) = projection(p) {
        let run = run_of(obs);
        lemma_projection_keys_distinct(p);
        assert forall|a: int, b: int| 0 <= a < run.len() && 0 <= b < run.len() && a != b implies run[a].0
            != run[b].0 by {
            assert(run[a].0 == obs[a].0 && run[b].0 == obs[b].0);
        }
        lemma_rescrape_idempotent(s, run);
        assert forall|i: int| 0 <= i < obs.len() implies is_noop(
            applied_spec(track_spec(s, p), (#[trigger] obs[i]).0, obs[i].2).update,
            last_of(track_spec(s, p), obs[i].0),
        ) by {
            assert(run[i] == (obs[i].0, obs[i].2));
        }
    }
}

/// The cache state after a batch: each loaded player is tracked in turn;
/// players that failed to load or project contribute nothing.
pub open spec fn batch_spec(s: Seq<SeriesModel>, ps: Seq<Result<Player, ExportError>>) -> Seq<SeriesModel>
    decreases ps.len(),
{
    if ps.len() == 0 {
        s
    } else {
        let s1 = batch_spec(s, ps.drop_last());
        match ps.last() {
            Ok(p) => track_spec(s1, p),
            Err(_) => s1,
        }
    }
}

/// The outcome reported for one player of a batch tracked on state `s`:
/// the load error, or what tracking the player gave.
pub open spec fn outcome_as(
    r: Result<PlayerUpdate, ExportError>,
    s: Seq<SeriesModel>,
    p: Result<Player, ExportError>,
) -> bool {
    match p {
        Ok(pl) => tracked_as(r, s, pl),
        Err(e) => r is Err && r->Err_0 == e,
    }
}

pub open spec fn batch_loaded_wf(ps: Seq<Result<Player, ExportError>>) -> bool {
    forall|i: int| 0 <= i < ps.len() ==> (#[trigger] ps[i] matches Ok(p) ==> p.wf())
}

/// Tracks a batch of players. A player that failed to load, or whose
/// projection fails, is reported and skipped; the others are tracked.
pub fn track_players(cache: &mut StatCache, players: &Vec<Result<Player, ExportError>>) -> (r: Vec<
    Result<PlayerUpdate, ExportError>,
>)
    requires
        old(cache).wf(),
        batch_loaded_wf(players@),
    ensures
        final(cache).wf(),
        final(cache)@ == batch_spec(old(cache)@, players@),
        r@.len() == players@.len(),
        forall|i: int|
            0 <= i < players@.len() ==> outcome_as(
                #[trigger] r@[i],
                batch_spec(old(cache)@, players@.take(i)),
                players@[i],
            ),
{
    let ghost s0 = cache@;
    let mut out: Vec<Result<PlayerUpdate, ExportError>> = Vec::new();
    let mut i: usize = 0;
    while i < players.len()
        invariant
            i <= players@.len(),
            batch_loaded_wf(players@),
            cache.wf(),
            cache@ == batch_spec(s0, players@.take(i as int)),
            out@.len() == i,
            forall|j: int|
                0 <= j < i ==> outcome_as(#[trigger] out@[j], batch_spec(s0, players@.take(j)), players@[j]),
        decreases players@.len() - i,
    {
        proof {
            assert(players@.take(i + 1).drop_last() =~= players@.take(i as int));
            assert(players@.take(i + 1).last() == players@[i as int]);
        }
        let outcome = match &players[i] {
            Ok(p) => {
                proof {
                    assert(players@[i as int] matches Ok(q) ==> q.wf());
                }
                track_for_player(cache, p)
            },
            Err(e) => Err(*e),
        };
        out.push(outcome);
        i = i + 1;
    }
    proof {
        assert(players@.take(players@.len() as int) =~= players@);
    }
    out
}

proof fn lemma_batch_unique(s: Seq<SeriesModel>, ps: Seq<Result<Player, ExportError>>)
    requires
        keys_unique(s),
    ensures
        keys_unique(batch_spec(s, ps)),
    decreases ps.len(),
{
    if ps.len() > 0 {
        lemma_batch_unique(s, ps.drop_last());
        let s1 = batch_spec(s, ps.drop_last());
        if let Ok(p) = ps.last() {
            if let Ok(obs) = projection(p) {
                lemma_run_keys(s1, run_of(obs));
            }
        }
    }
}

/// A failing player does not keep the others from being tracked: after a
/// batch, every observation of every player that loaded and projected has
/// its series, whatever happened to the players before and after it.
pub proof fn lemma_batch_isolation(s: Seq<SeriesModel>, ps: Seq<Result<Player, ExportError>>, i: int)
    requires
        keys_unique(s),
        0 <= i < ps.len(),
        ps[i] is Ok,
        projection(ps[i]->Ok_0) is Ok,
    ensures
        forall|j: int|
            0 <= j < projection(ps[i]->Ok_0)->Ok_0.len() ==> has_key(
                batch_spec(s, ps),
                (#[trigger] projection(ps[i]->Ok_0)->Ok_0[j]).0,
            ),
    decreases ps.len(),
{
    let obs = projection(ps[i]->Ok_0)->Ok_0;
    let run = run_of(obs);
    let s1 = batch_spec(s, ps.drop_last());
    lemma_batch_unique(s, ps.drop_last());
    if i == ps.len() - 1 {
        lemma_run_keys(s1, run);
        assert forall|j: int| 0 <= j < obs.len() implies has_key(batch_spec(s, ps), (#[trigger] obs[j]).0) by {
            assert(run[j].0 == obs[j].0);
        }
    } else {
        lemma_batch_isolation(s, ps.drop_last(), i);
        assert(ps.drop_last()[i] == ps[i]);
        assert forall|j: int| 0 <= j < obs.len() implies has_key(batch_spec(s, ps), (#[trigger] obs[j]).0) by {
            assert(has_key(s1, obs[j].0));
            if let Ok(p) = ps.last() {
                if let Ok(o2) = projection(p) {
                    lemma_run_keys(s1, run_of(o2));
                }
            }
        }
    }
}

} // verus!
