use crate::error::ExportError;
use crate::json::{find_member, json_of, member_of, parse_json, JsonPlain};
use vstd::prelude::*;

verus! {

/// The nine groups of lifetime statistics a player's stats file holds.
#[derive(Debug, Clone, Copy, PartialEq, Eq, Hash, Structural)]
pub enum StatCategory {
    Mined,
    Crafted,
    Broken,
    Custom,
    PickedUp,
    KilledBy,
    Used,
    Dropped,
    Killed,
}

/// Length of the game's namespace prefix `minecraft:`.
pub const PREFIX_LEN: usize = 10;

/// The short name of a category, as it appears after the namespace prefix.
pub open spec fn category_short_name(c: StatCategory) -> Seq<char> {
    match c {
        StatCategory::Mined => "mined"@,
        StatCategory::Crafted => "crafted"@,
        StatCategory::Broken => "broken"@,
        StatCategory::Custom => "custom"@,
        StatCategory::PickedUp => "picked_up"@,
        StatCategory::KilledBy => "killed_by"@,
        StatCategory::Used => "used"@,
        StatCategory::Dropped => "dropped"@,
        StatCategory::Killed => "killed"@,
    }
}

/// The raw category identifier used as key in the stats file.
pub open spec fn category_id(c: StatCategory) -> Seq<char> {
    "minecraft:"@ + category_short_name(c)
}

/// Position of a category in the fixed enumeration order.
pub open spec fn category_index(c: StatCategory) -> nat {
    match c {
        StatCategory::Mined => 0,
        StatCategory::Crafted => 1,
        StatCategory::Broken => 2,
        StatCategory::Custom => 3,
        StatCategory::PickedUp => 4,
        StatCategory::KilledBy => 5,
        StatCategory::Used => 6,
        StatCategory::Dropped => 7,
        StatCategory::Killed => 8,
    }
}

/// The category at a position of the fixed enumeration order.
pub open spec fn category_at(i: int) -> StatCategory
    recommends
        0 <= i < 9,
{
    if i == 0 {
        StatCategory::Mined
    } else if i == 1 {
        StatCategory::Crafted
    } else if i == 2 {
        StatCategory::Broken
    } else if i == 3 {
        StatCategory::Custom
    } else if i == 4 {
        StatCategory::PickedUp
    } else if i == 5 {
        StatCategory::KilledBy
    } else if i == 6 {
        StatCategory::Used
    } else if i == 7 {
        StatCategory::Dropped
    } else {
        StatCategory::Killed
    }
}

pub proof fn lemma_category_at_index(i: int)
    requires
        0 <= i < 9,
    ensures
        category_index(category_at(i)) == i,
{
}

/// All categories, in their fixed order.
pub fn stat_categories() -> (r: Vec<StatCategory>)
    ensures
        r@.len() == 9,
        forall|i: int| 0 <= i < 9 ==> #[trigger] r@[i] == category_at(i),
{
    vec![
        StatCategory::Mined,
        StatCategory::Crafted,
        StatCategory::Broken,
        StatCategory::Custom,
        StatCategory::PickedUp,
        StatCategory::KilledBy,
        StatCategory::Used,
        StatCategory::Dropped,
        StatCategory::Killed,
    ]
}

impl StatCategory {
    /// Position of the category in the fixed enumeration order.
    pub fn index(&self) -> (r: usize)
        ensures
            r == category_index(*self),
    {
        match self {
            StatCategory::Mined => 0,
            StatCategory::Crafted => 1,
            StatCategory::Broken => 2,
            StatCategory::Custom => 3,
            StatCategory::PickedUp => 4,
            StatCategory::KilledBy => 5,
            StatCategory::Used => 6,
            StatCategory::Dropped => 7,
            StatCategory::Killed => 8,
        }
    }

    /// The raw identifier of the category, `minecraft:<name>`.
    pub fn to_string(&self) -> (r: String)
        ensures
            r@ == category_id(*self),
    {
        let name = match self {
            StatCategory::Mined => "mined",
            StatCategory::Crafted => "crafted",
            StatCategory::Broken => "broken",
            StatCategory::Custom => "custom",
            StatCategory::PickedUp => "picked_up",
            StatCategory::KilledBy => "killed_by",
            StatCategory::Used => "used",
            StatCategory::Dropped => "dropped",
            StatCategory::Killed => "killed",
        };
        proof {
            reveal_strlit("minecraft:");
            reveal_strlit("mined");
            reveal_strlit("crafted");
            reveal_strlit("broken");
            reveal_strlit("custom");
            reveal_strlit("picked_up");
            reveal_strlit("killed_by");
            reveal_strlit("used");
            reveal_strlit("dropped");
            reveal_strlit("killed");
        }
        String::from_str("minecraft:").concat(name)
    }
}

/// Drops the namespace prefix; identifiers shorter than the prefix become empty.
pub open spec fn strip_prefix_spec(s: Seq<char>) -> Seq<char> {
    if s.len() <= PREFIX_LEN {
        Seq::empty()
    } else {
        s.subrange(PREFIX_LEN as int, s.len() as int)
    }
}

/// Removes the fixed-length namespace prefix (`minecraft:`) from an identifier.
pub fn remove_prefix(property: &String) -> (r: String)
    ensures
        r@ == strip_prefix_spec(property@),
{
    let s = property.as_str();
    let n = s.unicode_len();
    if n <= PREFIX_LEN {
        String::new()
    } else {
        String::from_str(s.substring_char(PREFIX_LEN, n))
    }
}

/// Exported metric name and help text of a category's series.
pub open spec fn category_metric_name(c: StatCategory) -> Seq<char> {
    "mc_"@ + category_short_name(c)
}

pub open spec fn category_help(c: StatCategory) -> Seq<char> {
    "collected stats for category `"@ + category_short_name(c) + "`"@
}

/// Metric name (`mc_<category>`) and help text for a category.
pub fn get_category_metadata(category: &StatCategory) -> (r: (String, String))
    ensures
        r.0@ == category_metric_name(*category),
        r.1@ == category_help(*category),
{
    let stat_str = remove_prefix(&category.to_string());
    proof {
        reveal_strlit("minecraft:");
        assert(category_id(*category).subrange(10, category_id(*category).len() as int)
            =~= category_short_name(*category));
    }
    let name = String::from_str("mc_").concat(stat_str.as_str());
    let help = String::from_str("collected stats for category `").concat(stat_str.as_str()).concat(
        "`",
    );
    (name, help)
}

/// The value of one statistic: a whole count, or a leaf that holds no number.
#[derive(Debug, Clone, Copy, PartialEq, Eq, Structural)]
pub enum StatValue {
    Count(u64),
    NotANumber,
}

/// One leaf of a stats tree: a game-defined type key and its value.
#[derive(Debug)]
pub struct StatEntry {
    pub type_key: String,
    pub value: StatValue,
}

pub type EntryModel = (Seq<char>, StatValue);

pub open spec fn entry_model(e: StatEntry) -> EntryModel {
    (e.type_key@, e.value)
}

pub open spec fn entries_model(es: Seq<StatEntry>) -> Seq<EntryModel> {
    es.map_values(|e: StatEntry| entry_model(e))
}

/// No two entries share a type key.
pub open spec fn keys_distinct(es: Seq<EntryModel>) -> bool {
    forall|i: int, j: int| 0 <= i < es.len() && 0 <= j < es.len() && i != j ==> es[i].0 != es[j].0
}

/// Sets the value of a type key: replaces the entry holding it, or appends one.
pub open spec fn put_entry(es: Seq<EntryModel>, k: Seq<char>, v: StatValue) -> Seq<EntryModel> {
    if exists|j: int| 0 <= j < es.len() && es[j].0 == k {
        let j = choose|j: int| 0 <= j < es.len() && es[j].0 == k;
        es.update(j, (k, v))
    } else {
        es.push((k, v))
    }
}

/// Sets one statistic in a tree model, creating its category when absent.
pub open spec fn put_stat(
    t: Seq<Option<Seq<EntryModel>>>,
    c: StatCategory,
    k: Seq<char>,
    v: StatValue,
) -> Seq<Option<Seq<EntryModel>>> {
    let i = category_index(c) as int;
    match t[i] {
        Some(es) => t.update(i, Some(put_entry(es, k, v))),
        None => t.update(i, Some(seq![(k, v)])),
    }
}

/// The statistic a JSON leaf gives: its count when it is a whole
/// non-negative number, else `NotANumber`.
pub open spec fn leaf_value(v: JsonPlain) -> StatValue {
    match v {
        JsonPlain::Number(Some(n)) => StatValue::Count(n),
        _ => StatValue::NotANumber,
    }
}

fn leaf_of(v: &JsonPlain) -> (r: StatValue)
    ensures
        r == leaf_value(*v),
{
    match v {
        JsonPlain::Number(Some(n)) => StatValue::Count(*n),
        _ => StatValue::NotANumber,
    }
}

/// The entries of a category object: its members in order, each setting
/// its type key (a repeated key keeps its first place and its last value).
pub open spec fn entries_of(ms: Seq<(String, JsonPlain)>) -> Seq<EntryModel>
    decreases ms.len(),
{
    if ms.len() == 0 {
        Seq::empty()
    } else {
        put_entry(entries_of(ms.drop_last()), ms.last().0@, leaf_value(ms.last().1))
    }
}

/// A category of the `stats` member: present when the member is an object
/// and holds an object under the category identifier.
pub open spec fn category_slot(member: JsonPlain, c: StatCategory) -> Option<Seq<EntryModel>> {
    match member {
        JsonPlain::Object(sm) => match member_of(sm@, category_id(c)) {
            Some(JsonPlain::Object(es)) => Some(entries_of(es@)),
            _ => None,
        },
        _ => None,
    }
}

/// The tree the `stats` member of a document describes.
pub open spec fn tree_of(member: JsonPlain) -> Seq<Option<Seq<EntryModel>>> {
    Seq::new(9, |i: int| category_slot(member, category_at(i)))
}

/// The `stats` member of a document that is an object.
pub open spec fn stats_member(doc: JsonPlain) -> Option<JsonPlain> {
    match doc {
        JsonPlain::Object(ms) => member_of(ms@, "stats"@),
        _ => None,
    }
}

/// The tree a stats file yields: `ParseFailure` when the text is no JSON
/// (`None`) or the document has no `stats` member.
pub open spec fn stats_tree_of(doc: Option<JsonPlain>) -> Result<Seq<Option<Seq<EntryModel>>>, ExportError> {
    match doc {
        Some(d) => match stats_member(d) {
            Some(m) => Ok(tree_of(m)),
            None => Err(ExportError::ParseFailure),
        },
        None => Err(ExportError::ParseFailure),
    }
}

/// A player's statistics tree: for each category, absent or a list of entries.
#[derive(Debug)]
pub struct Stats {
    categories: Vec<Option<Vec<StatEntry>>>,
}

pub open spec fn slot_model(o: Option<Vec<StatEntry>>) -> Option<Seq<EntryModel>> {
    match o {
        Some(v) => Some(entries_model(v@)),
        None => None,
    }
}

impl View for Stats {
    type V = Seq<Option<Seq<EntryModel>>>;

    closed spec fn view(&self) -> Self::V {
        self.categories@.map_values(|o: Option<Vec<StatEntry>>| slot_model(o))
    }
}

/// The absent categories among the first `n`, in category order.
pub open spec fn absent_upto(t: Seq<Option<Seq<EntryModel>>>, n: int) -> Seq<StatCategory>
    decreases n,
{
    if n <= 0 {
        Seq::empty()
    } else if t[n - 1] is None {
        absent_upto(t, n - 1).push(category_at(n - 1))
    } else {
        absent_upto(t, n - 1)
    }
}

/// Every category the tree lacks is listed, and only those.
pub proof fn lemma_absent_listed(t: Seq<Option<Seq<EntryModel>>>, n: int, c: StatCategory)
    requires
        0 <= n <= 9,
        t.len() == 9,
    ensures
        absent_upto(t, n).contains(c) == (category_index(c) < n && t[category_index(c) as int] is None),
    decreases n,
{
    if n > 0 {
        lemma_absent_listed(t, n - 1, c);
        lemma_category_at_index(n - 1);
        let prev = absent_upto(t, n - 1);
        if t[n - 1] is None {
            assert(absent_upto(t, n) == prev.push(category_at(n - 1)));
            if category_at(n - 1) == c {
                assert(absent_upto(t, n)[prev.len() as int] == c);
            } else if absent_upto(t, n).contains(c) {
                let k = choose|k: int| 0 <= k < absent_upto(t, n).len() && absent_upto(t, n)[k] == c;
                assert(k < prev.len());
                assert(prev[k] == c);
            }
            if prev.contains(c) {
                let k = choose|k: int| 0 <= k < prev.len() && prev[k] == c;
                assert(absent_upto(t, n)[k] == c);
            }
        }
    }
}

pub open spec fn stats_view(r: Result<Stats, ExportError>) -> Result<Seq<Option<Seq<EntryModel>>>, ExportError> {
    match r {
        Ok(s) => Ok(s@),
        Err(e) => Err(e),
    }
}

impl Stats {
    /// One slot per category, and no repeated type key inside a category.
    pub open spec fn wf(&self) -> bool {
        &&& self@.len() == 9
        &&& forall|i: int|
            0 <= i < 9 && (#[trigger] self@[i]) is Some ==> keys_distinct(self@[i]->0)
    }

    /// A tree with no category present.
    pub fn new() -> (r: Stats)
        ensures
            r.wf(),
            r@ == Seq::<Option<Seq<EntryModel>>>::new(9, |i: int| None),
    {
        let mut categories: Vec<Option<Vec<StatEntry>>> = Vec::new();
        let mut i: usize = 0;
        while i < 9
            invariant
                i <= 9,
                categories@.len() == i,
                forall|j: int| 0 <= j < i ==> #[trigger] categories@[j] is None,
            decreases 9 - i,
        {
            categories.push(None);
            i = i + 1;
        }
        let r = Stats { categories };
        assert(r@ =~= Seq::<Option<Seq<EntryModel>>>::new(9, |i: int| None));
        r
    }

    /// Marks a category as present; a present category keeps its entries.
    pub fn add_category(&mut self, category: StatCategory)
        requires
            old(self).wf(),
        ensures
            final(self).wf(),
            final(self)@ == (match old(self)@[category_index(category) as int] {
                Some(_) => old(self)@,
                None => old(self)@.update(category_index(category) as int, Some(Seq::empty())),
            }),
    {
        let i = category.index();
        if self.categories[i].is_none() {
            self.categories[i] = Some(Vec::new());
            proof {
                let t = old(self)@.update(i as int, Some(Seq::<EntryModel>::empty()));
                assert(entries_model(Seq::<StatEntry>::empty()) =~= Seq::<EntryModel>::empty());
                assert(self@ =~= t);
            }
        }
    }

    /// Sets the value of `type_key` in `category`, adding the category if absent.
    pub fn set_stat(&mut self, category: StatCategory, type_key: String, value: StatValue)
        requires
            old(self).wf(),
        ensures
            final(self).wf(),
            final(self)@ == put_stat(old(self)@, category, type_key@, value),
    {
        let i = category.index();
        let ghost k = type_key@;
        let slot = self.categories.remove(i);
        match slot {
            None => {
                let mut es: Vec<StatEntry> = Vec::new();
                es.push(StatEntry { type_key, value });
                self.categories.insert(i, Some(es));
                proof {
                    assert(entries_model(es@) =~= seq![(k, value)]);
                    assert(self@ =~= put_stat(old(self)@, category, k, value));
                }
            },
            Some(mut es) => {
                proof {
                    assert(old(self)@[i as int] == Some(entries_model(es@)));
                }
                put_entry_exec(&mut es, type_key, value);
                self.categories.insert(i, Some(es));
                proof {
                    assert(self@ =~= put_stat(old(self)@, category, k, value));
                }
            },
        }
    }

    /// Reads a stats file: a JSON document whose `stats` member maps category
    /// identifiers to objects of type keys and counts (see `stats_tree_of`).
    /// Text that is no JSON, or a document without a `stats` member, gives
    /// `ParseFailure`.
    pub fn from(data: String) -> (r: Result<Stats, ExportError>)
        ensures
            stats_view(r) == stats_tree_of(json_of(data@)),
            r matches Ok(s) ==> s.wf(),
    {
        match parse_json(data.as_str()) {
            Some(doc) => Stats::from_json(&doc),
            None => Err(ExportError::ParseFailure),
        }
    }

    /// Builds the tree of a parsed stats document (see `stats_tree_of`).
    pub fn from_json(doc: &JsonPlain) -> (r: Result<Stats, ExportError>)
        ensures
            stats_view(r) == stats_tree_of(Some(*doc)),
            r matches Ok(s) ==> s.wf(),
    {
        match doc {
            JsonPlain::Object(ms) => match find_member(ms, "stats") {
                Some(member) => Ok(Stats::from_stats_member(member)),
                None => Err(ExportError::ParseFailure),
            },
            _ => Err(ExportError::ParseFailure),
        }
    }

    /// Builds the tree held by the `stats` member of a document.
    pub fn from_stats_member(member: &JsonPlain) -> (r: Stats)
        ensures
            r.wf(),
            r@ == tree_of(*member),
    {
        let mut stats = Stats::new();
        let categories = stat_categories();
        let mut ci: usize = 0;
        while ci < 9
            invariant
                ci <= 9,
                stats.wf(),
                categories@.len() == 9,
                forall|i: int| 0 <= i < 9 ==> #[trigger] categories@[i] == category_at(i),
                forall|i: int| 0 <= i < ci ==> #[trigger] stats@[i] == category_slot(*member, category_at(i)),
                forall|i: int| ci <= i < 9 ==> #[trigger] stats@[i] is None,
            decreases 9 - ci,
        {
            let category = categories[ci];
            proof {
                lemma_category_at_index(ci as int);
            }
            if let JsonPlain::Object(sm) = member {
                let id = category.to_string();
                if let Some(slot) = find_member(sm, id.as_str()) {
                    if let JsonPlain::Object(es) = slot {
                        stats.add_category(category);
                        proof {
                            assert(es@.take(0) =~= Seq::<(String, JsonPlain)>::empty());
                        }
                        let mut j: usize = 0;
                        while j < es.len()
                            invariant
                                ci < 9,
                                j <= es@.len(),
                                category == category_at(ci as int),
                                category_index(category) == ci,
                                stats.wf(),
                                stats@[ci as int] == Some(entries_of(es@.take(j as int))),
                                forall|i: int| 0 <= i < ci ==> #[trigger] stats@[i] == category_slot(*member, category_at(i)),
                                forall|i: int| ci < i < 9 ==> #[trigger] stats@[i] is None,
                            decreases es@.len() - j,
                        {
                            let ghost before = stats@;
                            let value = leaf_of(&es[j].1);
                            stats.set_stat(category, es[j].0.clone(), value);
                            proof {
                                let tk = es@.take(j + 1);
                                assert(tk.drop_last() =~= es@.take(j as int));
                                assert(tk.last() == es@[j as int]);
                                assert(stats@ == before.update(ci as int, Some(entries_of(tk))));
                            }
                            j = j + 1;
                        }
                        proof {
                            assert(es@.take(es@.len() as int) =~= es@);
                        }
                    }
                }
            }
            ci = ci + 1;
        }
        proof {
            assert(stats@ =~= tree_of(*member));
        }
        stats
    }

    /// The categories the tree lacks, in category order: each one is worth a
    /// diagnostic, though no error.
    pub fn absent_categories(&self) -> (r: Vec<StatCategory>)
        requires
            self.wf(),
        ensures
            r@ == absent_upto(self@, 9),
    {
        let categories = stat_categories();
        let mut out: Vec<StatCategory> = Vec::new();
        let mut ci: usize = 0;
        while ci < 9
            invariant
                ci <= 9,
                self.wf(),
                categories@.len() == 9,
                forall|i: int| 0 <= i < 9 ==> #[trigger] categories@[i] == category_at(i),
                out@ == absent_upto(self@, ci as int),
            decreases 9 - ci,
        {
            let category = categories[ci];
            proof {
                lemma_category_at_index(ci as int);
            }
            if self.get_stat(&category).is_none() {
                out.push(category);
            }
            ci = ci + 1;
        }
        out
    }

    /// The entries of a category, or `None` when the tree lacks it.
    pub fn get_stat(&self, category: &StatCategory) -> (r: Option<&Vec<StatEntry>>)
        requires
            self.wf(),
        ensures
            match r {
                Some(es) => self@[category_index(*category) as int] == Some(entries_model(es@)),
                None => self@[category_index(*category) as int] is None,
            },
    {
        let i = category.index();
        match &self.categories[i] {
            Some(es) => Some(es),
            None => None,
        }
    }
}

/// The five numeric save-game fields of a player, in whole units.
#[derive(Debug, Clone, Copy, PartialEq, Eq, Structural)]
pub struct NbtStats {
    pub xp_total: u64,
    pub xp_level: u64,
    pub score: u64,
    pub health: u64,
    pub food_level: u64,
}

fn put_entry_exec(es: &mut Vec<StatEntry>, key: String, value: StatValue)
    requires
        keys_distinct(entries_model(old(es)@)),
    ensures
        keys_distinct(entries_model(final(es)@)),
        entries_model(final(es)@) == put_entry(entries_model(old(es)@), key@, value),
{
    let ghost m = entries_model(es@);
    let mut j: usize = 0;
    while j < es.len()
        invariant
            j <= es@.len(),
            es@ == old(es)@,
            m == entries_model(es@),
            keys_distinct(m),
            forall|x: int| 0 <= x < j ==> m[x].0 != key@,
        decreases es@.len() - j,
    {
        if es[j].type_key == key {
            proof {
                assert(m[j as int] == entry_model(es@[j as int]));
                assert(m[j as int].0 == key@);
            }
            es[j] = StatEntry { type_key: key, value };
            proof {
                let c = choose|x: int| 0 <= x < m.len() && m[x].0 == key@;
                assert(m[c].0 == m[j as int].0);
                assert(c == j);
                assert(entries_model(es@) =~= m.update(j as int, (key@, value)));
                let n = entries_model(es@);
                assert forall|a: int, b: int|
                    0 <= a < n.len() && 0 <= b < n.len() && a != b implies n[a].0 != n[b].0 by {
                    assert(n[a].0 == m[a].0 && n[b].0 == m[b].0);
                }
            }
            return;
        }
        proof {
            assert(m[j as int] == entry_model(es@[j as int]));
        }
        j = j + 1;
    }
    let ghost k = key@;
    es.push(StatEntry { type_key: key, value });
    assert(entries_model(es@) =~= m.push((k, value)));
    assert(keys_distinct(entries_model(es@)));
}

} // verus!
