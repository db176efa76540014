use crate::stats::{
    category_help, category_metric_name, get_category_metadata, remove_prefix, strip_prefix_spec,
    NbtStats, StatCategory,
};
use vstd::prelude::*;

verus! {

/// The five scalar save-game fields exported for every player.
#[derive(Debug, Clone, Copy, PartialEq, Eq, Structural)]
pub enum ScalarField {
    XpTotal,
    XpLevel,
    Score,
    Health,
    FoodLevel,
}

pub open spec fn scalar_metric_name(f: ScalarField) -> Seq<char> {
    match f {
        ScalarField::XpTotal => "mc_xp_total"@,
        ScalarField::XpLevel => "mc_xp_level"@,
        ScalarField::Score => "mc_score"@,
        ScalarField::Health => "mc_health"@,
        ScalarField::FoodLevel => "mc_food_level"@,
    }
}

pub open spec fn scalar_help(f: ScalarField) -> Seq<char> {
    match f {
        ScalarField::XpTotal => "total collected xp"@,
        ScalarField::XpLevel => "current player level"@,
        ScalarField::Score => "current player score"@,
        ScalarField::Health => "current player health"@,
        ScalarField::FoodLevel => "current player food level"@,
    }
}

pub open spec fn scalar_value(n: NbtStats, f: ScalarField) -> u64 {
    match f {
        ScalarField::XpTotal => n.xp_total,
        ScalarField::XpLevel => n.xp_level,
        ScalarField::Score => n.score,
        ScalarField::Health => n.health,
        ScalarField::FoodLevel => n.food_level,
    }
}

impl ScalarField {
    /// Exported metric name and help text of the field.
    pub fn metadata(&self) -> (r: (String, String))
        ensures
            r.0@ == scalar_metric_name(*self),
            r.1@ == scalar_help(*self),
    {
        let (name, help) = match self {
            ScalarField::XpTotal => ("mc_xp_total", "total collected xp"),
            ScalarField::XpLevel => ("mc_xp_level", "current player level"),
            ScalarField::Score => ("mc_score", "current player score"),
            ScalarField::Health => ("mc_health", "current player health"),
            ScalarField::FoodLevel => ("mc_food_level", "current player food level"),
        };
        (String::from_str(name), String::from_str(help))
    }

    /// The field's value in a scalar record.
    pub fn value_in(&self, n: &NbtStats) -> (r: u64)
        ensures
            r == scalar_value(*n, *self),
    {
        match self {
            ScalarField::XpTotal => n.xp_total,
            ScalarField::XpLevel => n.xp_level,
            ScalarField::Score => n.score,
            ScalarField::Health => n.health,
            ScalarField::FoodLevel => n.food_level,
        }
    }
}

/// The fixed order in which scalar fields are projected.
pub open spec fn scalar_at(i: int) -> ScalarField {
    if i == 0 {
        ScalarField::XpTotal
    } else if i == 1 {
        ScalarField::XpLevel
    } else if i == 2 {
        ScalarField::Score
    } else if i == 3 {
        ScalarField::Health
    } else {
        ScalarField::FoodLevel
    }
}

/// All scalar fields, in their fixed order.
pub fn scalar_fields() -> (r: Vec<ScalarField>)
    ensures
        r@.len() == 5,
        forall|i: int| 0 <= i < 5 ==> #[trigger] r@[i] == scalar_at(i),
{
    vec![
        ScalarField::XpTotal,
        ScalarField::XpLevel,
        ScalarField::Score,
        ScalarField::Health,
        ScalarField::FoodLevel,
    ]
}

/// What a series measures: one type key of a category, or a scalar field.
#[derive(Debug)]
pub enum Metric {
    Stat(StatCategory, String),
    Scalar(ScalarField),
}

pub enum MetricModel {
    Stat(StatCategory, Seq<char>),
    Scalar(ScalarField),
}

pub open spec fn metric_model(m: Metric) -> MetricModel {
    match m {
        Metric::Stat(c, k) => MetricModel::Stat(c, k@),
        Metric::Scalar(f) => MetricModel::Scalar(f),
    }
}

/// Identity of one exported series: the player identifier and the metric.
/// The display name is not part of it.
#[derive(Debug)]
pub struct SeriesKey {
    pub player_id: String,
    pub metric: Metric,
}

pub type KeyModel = (Seq<char>, MetricModel);

pub open spec fn key_model(k: SeriesKey) -> KeyModel {
    (k.player_id@, metric_model(k.metric))
}

pub open spec fn key_metric_name(k: KeyModel) -> Seq<char> {
    match k.1 {
        MetricModel::Stat(c, _) => category_metric_name(c),
        MetricModel::Scalar(f) => scalar_metric_name(f),
    }
}

pub open spec fn key_help(k: KeyModel) -> Seq<char> {
    match k.1 {
        MetricModel::Stat(c, _) => category_help(c),
        MetricModel::Scalar(f) => scalar_help(f),
    }
}

/// The `type` label of a series: the type key without its namespace prefix.
pub open spec fn key_type_label(k: KeyModel) -> Option<Seq<char>> {
    match k.1 {
        MetricModel::Stat(_, t) => Some(strip_prefix_spec(t)),
        MetricModel::Scalar(_) => None,
    }
}

impl SeriesKey {
    /// Whether two keys name the same series.
    pub fn same_as(&self, other: &SeriesKey) -> (r: bool)
        ensures
            r == (key_model(*self) == key_model(*other)),
    {
        if self.player_id != other.player_id {
            return false;
        }
        match (&self.metric, &other.metric) {
            (Metric::Stat(c1, t1), Metric::Stat(c2, t2)) => *c1 == *c2 && *t1 == *t2,
            (Metric::Scalar(f1), Metric::Scalar(f2)) => *f1 == *f2,
            _ => false,
        }
    }

    /// A copy of the key.
    pub fn duplicate(&self) -> (r: SeriesKey)
        ensures
            key_model(r) == key_model(*self),
    {
        let metric = match &self.metric {
            Metric::Stat(c, t) => Metric::Stat(*c, t.clone()),
            Metric::Scalar(f) => Metric::Scalar(*f),
        };
        SeriesKey { player_id: self.player_id.clone(), metric }
    }

    /// Exported metric name and help text of the series.
    pub fn metadata(&self) -> (r: (String, String))
        ensures
            r.0@ == key_metric_name(key_model(*self)),
            r.1@ == key_help(key_model(*self)),
    {
        match &self.metric {
            Metric::Stat(c, _) => get_category_metadata(c),
            Metric::Scalar(f) => f.metadata(),
        }
    }

    /// The `type` label of the series, for category series only.
    pub fn type_label(&self) -> (r: Option<String>)
        ensures
            match r {
                Some(s) => key_type_label(key_model(*self)) == Some(s@),
                None => key_type_label(key_model(*self)) is None,
            },
    {
        match &self.metric {
            Metric::Stat(_, t) => Some(remove_prefix(t)),
            Metric::Scalar(_) => None,
        }
    }
}

} // verus!
