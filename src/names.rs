use crate::error::ExportError;
use vstd::prelude::*;

verus! {

/// A cached (player identifier, display name) pair.
pub type NameModel = (Seq<char>, Seq<char>);

pub open spec fn ids_unique(s: Seq<NameModel>) -> bool {
    forall|i: int, j: int| 0 <= i < s.len() && 0 <= j < s.len() && i != j ==> s[i].0 != s[j].0
}

pub open spec fn is_cached(s: Seq<NameModel>, id: Seq<char>) -> bool {
    exists|i: int| 0 <= i < s.len() && s[i].0 == id
}

pub open spec fn id_index(s: Seq<NameModel>, id: Seq<char>) -> int {
    choose|i: int| 0 <= i < s.len() && s[i].0 == id
}

/// The cached name of an identifier, if any.
pub open spec fn cached_name(s: Seq<NameModel>, id: Seq<char>) -> Option<Seq<char>> {
    if is_cached(s, id) {
        Some(s[id_index(s, id)].1)
    } else {
        None
    }
}

/// The cache after storing `name` for `id`; a later store for the same id wins.
pub open spec fn store_spec(s: Seq<NameModel>, id: Seq<char>, name: Seq<char>) -> Seq<NameModel> {
    if is_cached(s, id) {
        s.update(id_index(s, id), (id, name))
    } else {
        s.push((id, name))
    }
}

proof fn lemma_id_index(s: Seq<NameModel>, id: Seq<char>, i: int)
    requires
        ids_unique(s),
        0 <= i < s.len(),
        s[i].0 == id,
    ensures
        is_cached(s, id),
        id_index(s, id) == i,
{
    let c = id_index(s, id);
    assert(s[c].0 == s[i].0);
}

/// Storing a name makes it the cached name of its identifier and leaves the
/// other identifiers as they were; so a second resolution of the same
/// identifier is served from the cache without a remote lookup.
pub proof fn lemma_store_then_hit(s: Seq<NameModel>, id: Seq<char>, name: Seq<char>)
    requires
        ids_unique(s),
    ensures
        ids_unique(store_spec(s, id, name)),
        cached_name(store_spec(s, id, name), id) == Some(name),
        forall|other: Seq<char>|
            other != id ==> #[trigger] cached_name(store_spec(s, id, name), other) == cached_name(
                s,
                other,
            ),
{
    let r = store_spec(s, id, name);
    if is_cached(s, id) {
        let x = id_index(s, id);
        assert forall|a: int, b: int| 0 <= a < r.len() && 0 <= b < r.len() && a != b implies r[a].0
            != r[b].0 by {
            assert(r[a].0 == s[a].0 && r[b].0 == s[b].0);
        }
        lemma_id_index(r, id, x);
    } else {
        assert forall|a: int, b: int| 0 <= a < r.len() && 0 <= b < r.len() && a != b implies r[a].0
            != r[b].0 by {
            if a < s.len() && b < s.len() {
                assert(r[a].0 == s[a].0 && r[b].0 == s[b].0);
            } else if a < s.len() {
                assert(r[a].0 == s[a].0);
                assert(!(0 <= a < s.len() && s[a].0 == id));
            } else {
                assert(r[b].0 == s[b].0);
                assert(!(0 <= b < s.len() && s[b].0 == id));
            }
        }
        lemma_id_index(r, id, s.len() as int);
    }
    assert forall|other: Seq<char>| other != id implies #[trigger] cached_name(r, other)
        == cached_name(s, other) by {
        if is_cached(s, other) {
            let j = id_index(s, other);
            assert(r[j] == s[j]);
            lemma_id_index(r, other, j);
        } else if is_cached(r, other) {
            let j = id_index(r, other);
            if j < s.len() {
                assert(s[j].0 == other);
            }
        }
    }
}

/// Display names of players by identifier. It only grows: a name is stored
/// after a successful remote lookup and never evicted.
#[derive(Debug)]
pub struct NameCache {
    names: Vec<(String, String)>,
}

impl View for NameCache {
    type V = Seq<NameModel>;

    closed spec fn view(&self) -> Self::V {
        self.names@.map_values(|p: (String, String)| (p.0@, p.1@))
    }
}

impl NameCache {
    pub open spec fn wf(&self) -> bool {
        ids_unique(self@)
    }

    /// An empty cache.
    pub fn new() -> (r: NameCache)
        ensures
            r.wf(),
            r@ == Seq::<NameModel>::empty(),
    {
        let r = NameCache { names: Vec::new() };
        assert(r@ =~= Seq::<NameModel>::empty());
        r
    }

    fn position(&self, id: &String) -> (r: Option<usize>)
        requires
            self.wf(),
        ensures
            match r {
                Some(i) => is_cached(self@, id@) && i == id_index(self@, id@),
                None => !is_cached(self@, id@),
            },
    {
        let mut i: usize = 0;
        while i < self.names.len()
            invariant
                self.wf(),
                i <= self@.len(),
                forall|j: int| 0 <= j < i ==> self@[j].0 != id@,
            decreases self@.len() - i,
        {
            proof {
                assert(self@[i as int].0 == self.names@[i as int].0@);
            }
            if self.names[i].0 == *id {
                proof {
                    lemma_id_index(self@, id@, i as int);
                }
                return Some(i);
            }
            i = i + 1;
        }
        None
    }

    /// The cached name of `id`: on a hit no remote lookup is needed.
    pub fn lookup(&self, id: &String) -> (r: Option<String>)
        requires
            self.wf(),
        ensures
            match r {
                Some(n) => cached_name(self@, id@) == Some(n@),
                None => cached_name(self@, id@) is None,
            },
    {
        match self.position(id) {
            Some(i) => {
                proof {
                    assert(self@[i as int].1 == self.names@[i as int].1@);
                }
                Some(self.names[i].1.clone())
            },
            None => None,
        }
    }

    /// Stores the name found for `id`, replacing an earlier one.
    pub fn store(&mut self, id: String, name: String)
        requires
            old(self).wf(),
        ensures
            final(self).wf(),
            final(self)@ == store_spec(old(self)@, id@, name@),
    {
        let ghost s = self@;
        let ghost idv = id@;
        let ghost nv = name@;
        proof {
            lemma_store_then_hit(s, idv, nv);
        }
        match self.position(&id) {
            Some(i) => {
                self.names[i] = (id, name);
                assert(self@ =~= s.update(i as int, (idv, nv)));
            },
            None => {
                self.names.push((id, name));
                assert(self@ =~= s.push((idv, nv)));
            },
        }
    }

    /// Completes the resolution of `id` after a cache miss, with the outcome
    /// of the remote lookup: a found name is stored and returned; no name
    /// gives `NameNotFound` and stores nothing, so a later call retries.
    pub fn finish_lookup(&mut self, id: String, fetched: Option<String>) -> (r: Result<
        String,
        ExportError,
    >)
        requires
            old(self).wf(),
        ensures
            final(self).wf(),
            match fetched {
                Some(n) => r == Ok::<String, ExportError>(n) && final(self)@ == store_spec(
                    old(self)@,
                    id@,
                    n@,
                ),
                None => r == Err::<String, ExportError>(ExportError::NameNotFound)
                    && final(self)@ == old(self)@,
            },
    {
        match fetched {
            Some(name) => {
                self.store(id, name.clone());
                Ok(name)
            },
            None => Err(ExportError::NameNotFound),
        }
    }
}

} // verus!
