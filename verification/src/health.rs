//! Health labels and how they are shown.
use vstd::prelude::*;

verus! {

/// How healthy a repository looks, from its health score: `Active` from 80,
/// `Healthy` from 60, `Moderate` from 40, `Stale` from 20, `Dormant` below.
#[derive(Debug, Clone, Copy, PartialEq, Eq, Structural)]
pub enum HealthLabel {
    Active,
    Healthy,
    Moderate,
    Stale,
    Dormant,
}

/// The name shown for a label.
pub open spec fn label_name(l: HealthLabel) -> Seq<char> {
    match l {
        HealthLabel::Active => "Active"@,
        HealthLabel::Healthy => "Healthy"@,
        HealthLabel::Moderate => "Moderate"@,
        HealthLabel::Stale => "Stale"@,
        HealthLabel::Dormant => "Dormant"@,
    }
}

impl HealthLabel {
    /// The label's name.
    pub fn as_str(&self) -> (r: &'static str)
        ensures
            r@ == label_name(*self),
    {
        match self {
            HealthLabel::Active => "Active",
            HealthLabel::Healthy => "Healthy",
            HealthLabel::Moderate => "Moderate",
            HealthLabel::Stale => "Stale",
            HealthLabel::Dormant => "Dormant",
        }
    }
}

/// The colours the status table uses for health cells.
#[derive(Debug, Clone, Copy, PartialEq, Eq, Structural)]
pub enum CellColor {
    Green,
    Cyan,
    Yellow,
    Red,
    DarkRed,
}

/// The colour of a label in the status table: green for active, cyan for
/// healthy, yellow for moderate, red for stale, dark red for dormant.
pub fn health_color(l: HealthLabel) -> (r: CellColor)
    ensures
        r == match l {
            HealthLabel::Active => CellColor::Green,
            HealthLabel::Healthy => CellColor::Cyan,
            HealthLabel::Moderate => CellColor::Yellow,
            HealthLabel::Stale => CellColor::Red,
            HealthLabel::Dormant => CellColor::DarkRed,
        },
{
    match l {
        HealthLabel::Active => CellColor::Green,
        HealthLabel::Healthy => CellColor::Cyan,
        HealthLabel::Moderate => CellColor::Yellow,
        HealthLabel::Stale => CellColor::Red,
        HealthLabel::Dormant => CellColor::DarkRed,
    }
}

/// Distinct labels have distinct names.
pub proof fn law_label_names_distinct(a: HealthLabel, b: HealthLabel)
    ensures
        label_name(a) == label_name(b) ==> a == b,
{
    reveal_strlit("Active");
    reveal_strlit("Healthy");
    reveal_strlit("Moderate");
    reveal_strlit("Stale");
    reveal_strlit("Dormant");
    if label_name(a) == label_name(b) && a != b {
        let x = label_name(a);
        let y = label_name(b);
        assert(x.len() != y.len() || x[0] != y[0]);
    }
}

/// A health score as it is shown: the total and its three parts, each
/// rounded to whole points, and the total's label.
#[derive(Debug, Clone)]
pub struct HealthFigures {
    pub total: String,
    pub recency: String,
    pub velocity: String,
    pub issues: String,
    pub label: HealthLabel,
}

} // verus!
