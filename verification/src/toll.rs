use vstd::prelude::*;
use crate::currency::Currency;

verus! {

/// One road section of a toll; its section id doubles as a station
/// name for price lookup.  The descriptive fields of the toll
/// document travel outside the core and are not modelled here.
pub struct Section {
    pub section_id: String,
}

/// The ids of a list of sections.
pub open spec fn section_ids(s: Seq<Section>) -> Seq<Seq<char>> {
    s.map_values(|x: Section| x.section_id@)
}

/// A dense per-category price matrix of a toll.
pub struct Matrix {
    pub friendly_name: String,
    pub matrix_prices: Vec<Vec<Currency>>,
    pub permit_id: String,
    pub limit_to_vehicles: Vec<String>,
}

/// The grid of a matrix as sequences.
pub open spec fn grid_of(m: Matrix) -> Seq<Seq<Currency>> {
    m.matrix_prices@.map_values(|r: Vec<Currency>| r@)
}

/// What the core reads and writes of one toll: its id, the rules
/// gating matrix generation, the matrix slot, and the ordered
/// sections.
pub struct Toll {
    pub toll_id: String,
    pub rules: Vec<String>,
    pub entry_exit_matrix: Vec<Matrix>,
    pub sections: Vec<Section>,
}

/// A toll document: the tolls the core walks.
pub struct TollFile {
    pub tolls: Vec<Toll>,
}

/// Matrix generation applies exactly when the rules list is the
/// single value "entry_exit_price".
pub open spec fn matrix_rule_applies(rules: Seq<String>) -> bool {
    rules.len() == 1 && rules[0]@ == "entry_exit_price"@
}

} // verus!
