use crate::error::ExportError;
use crate::json::json_of;
use crate::stats::{stats_tree_of, NbtStats, Stats};
use vstd::prelude::*;

verus! {

/// One player's record for a scrape: identifier, display name, statistics
/// tree and the five scalar save-game fields.
#[derive(Debug)]
pub struct Player {
    pub uuid: String,
    pub name: String,
    pub stats: Stats,
    pub nbt_stats: NbtStats,
}

impl Player {
    pub open spec fn wf(&self) -> bool {
        self.stats.wf()
    }

    /// Assembles a record from its parts.
    pub fn new(uuid: String, name: String, stats: Stats, nbt_stats: NbtStats) -> (r: Player)
        ensures
            r.uuid == uuid,
            r.name == name,
            r.stats == stats,
            r.nbt_stats == nbt_stats,
    {
        Player { uuid, name, stats, nbt_stats }
    }

    /// Assembles a record from the player's resolved name, the text of its
    /// stats file and its scalar record. The stats tree is what the file's
    /// text yields (see `stats_tree_of`); text that is no JSON, or a document
    /// without a `stats` member, gives `ParseFailure`.
    pub fn from_sources(uuid: String, name: String, stats_json: String, nbt_stats: NbtStats) -> (r:
        Result<Player, ExportError>)
        ensures
            match stats_tree_of(json_of(stats_json@)) {
                Ok(t) => r matches Ok(p) && p.wf() && p.stats@ == t && p.uuid == uuid && p.name
                    == name && p.nbt_stats == nbt_stats,
                Err(e) => r == Err::<Player, ExportError>(e),
            },
    {
        let stats = Stats::from(stats_json)?;
        Ok(Player { uuid, name, stats, nbt_stats })
    }
}

} // verus!
