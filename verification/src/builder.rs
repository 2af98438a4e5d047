use vstd::prelude::*;
use crate::category::Category;
use crate::currency::Currency;
use crate::normalize::normalize_spec;
use crate::table::{KeyModel, PriceModel};
use crate::toll::{grid_of, Matrix};

verus! {

/// Addition capped at `u16::MAX`, the arithmetic of the
/// matrix-building counters.
pub open spec fn sat16(a: int, b: int) -> int {
    if a + b > u16::MAX {
        u16::MAX as int
    } else {
        a + b
    }
}

/// Saturating counter addition.
pub fn sat_add_u16(a: u16, b: u16) -> (r: u16)
    ensures
        r as int == sat16(a as int, b as int),
{
    if a <= u16::MAX - b {
        a + b
    } else {
        u16::MAX
    }
}

/// What one matrix-building pass observed: how many routes were
/// found, how many of those were older than the current year, how
/// many were missing, and the distinct source files of the obsolete
/// prices.
pub struct Audit {
    pub obsolete: u16,
    pub found: u16,
    pub not_found: u16,
    pub obsolete_files: Vec<String>,
}

/// The mathematical content of a matrix audit:
/// (found, obsolete, not_found, obsolete file names).
pub type AuditModel = (int, int, int, Seq<Seq<char>>);

impl Audit {
    pub open spec fn model(self) -> AuditModel {
        (
            self.found as int,
            self.obsolete as int,
            self.not_found as int,
            crate::text::views(self.obsolete_files@),
        )
    }

    pub fn new() -> (r: Audit)
        ensures
            r.model() == (0int, 0int, 0int, Seq::<Seq<char>>::empty()),
    {
        let r = Audit { obsolete: 0, found: 0, not_found: 0, obsolete_files: Vec::new() };
        proof {
            assert(crate::text::views(r.obsolete_files@) =~= Seq::<Seq<char>>::empty());
        }
        r
    }

    /// Records the source file of an obsolete price, once: a file
    /// already listed is not listed again.
    pub fn add_obsolete_file(&mut self, file: &String)
        ensures
            final(self).found == old(self).found,
            final(self).obsolete == old(self).obsolete,
            final(self).not_found == old(self).not_found,
            crate::text::views(final(self).obsolete_files@) == add_file(
                crate::text::views(old(self).obsolete_files@),
                file@,
            ),
    {
        let ghost fs = crate::text::views(self.obsolete_files@);
        let mut i: usize = 0;
        while i < self.obsolete_files.len()
            invariant
                0 <= i <= self.obsolete_files@.len(),
                fs == crate::text::views(self.obsolete_files@),
                forall|j: int| #![trigger fs[j]] 0 <= j < i ==> fs[j] != file@,
            decreases self.obsolete_files@.len() - i,
        {
            if self.obsolete_files[i] == *file {
                proof {
                    assert(fs[i as int] == file@);
                }
                return ;
            }
            i += 1;
        }
        proof {
            if fs.contains(file@) {
                let w = choose|w: int| 0 <= w < fs.len() && fs[w] == file@;
                assert(false);
            }
        }
        self.obsolete_files.push(file.clone());
        proof {
            assert(crate::text::views(self.obsolete_files@) =~= fs.push(file@));
        }
    }
}

/// A file list extended by one name, deduplicated.
pub open spec fn add_file(s: Seq<Seq<char>>, f: Seq<char>) -> Seq<Seq<char>> {
    if s.contains(f) {
        s
    } else {
        s.push(f)
    }
}

/// A counter bump of the matrix audit.
pub open spec fn bump16(c: int) -> int {
    sat16(c, 1)
}

/// The currency a matrix cell shows for the ordered section pair
/// (i, j): zero on the diagonal of equal normalized ids and on a
/// lookup miss, the stored amount on a hit.
pub open spec fn cell_price(
    tab: Map<KeyModel, PriceModel>,
    al: Seq<(Seq<char>, Seq<char>)>,
    ids: Seq<Seq<char>>,
    cat: Category,
    i: int,
    j: int,
) -> Currency {
    let e = normalize_spec(al, ids[i]);
    let x = normalize_spec(al, ids[j]);
    if e == x {
        Currency { value: 0, cents: 0 }
    } else if tab.contains_key((e, x, cat)) {
        tab[(e, x, cat)].0
    } else {
        Currency { value: 0, cents: 0 }
    }
}

/// How one cell moves the audit: nothing on the diagonal; a miss
/// counts as not found; a hit counts as found, and additionally as
/// obsolete — with its source file recorded once — when its year is
/// strictly before the current one.
pub open spec fn maudit_cell(
    a: AuditModel,
    tab: Map<KeyModel, PriceModel>,
    al: Seq<(Seq<char>, Seq<char>)>,
    ids: Seq<Seq<char>>,
    cat: Category,
    year: u16,
    i: int,
    j: int,
) -> AuditModel {
    let e = normalize_spec(al, ids[i]);
    let x = normalize_spec(al, ids[j]);
    if e == x {
        a
    } else if !tab.contains_key((e, x, cat)) {
        (a.0, a.1, bump16(a.2), a.3)
    } else {
        let p = tab[(e, x, cat)];
        if year > p.1 {
            (bump16(a.0), bump16(a.1), a.2, add_file(a.3, p.2))
        } else {
            (bump16(a.0), a.1, a.2, a.3)
        }
    }
}

/// The audit after the cells `0 .. k` of row `i`.
pub open spec fn maudit_row(
    a: AuditModel,
    tab: Map<KeyModel, PriceModel>,
    al: Seq<(Seq<char>, Seq<char>)>,
    ids: Seq<Seq<char>>,
    cat: Category,
    year: u16,
    i: int,
    k: int,
) -> AuditModel
    decreases k,
{
    if k <= 0 {
        a
    } else {
        maudit_cell(maudit_row(a, tab, al, ids, cat, year, i, k - 1), tab, al, ids, cat, year, i, k - 1)
    }
}

/// The audit after the rows `0 .. k`.
pub open spec fn maudit_rows(
    a: AuditModel,
    tab: Map<KeyModel, PriceModel>,
    al: Seq<(Seq<char>, Seq<char>)>,
    ids: Seq<Seq<char>>,
    cat: Category,
    year: u16,
    k: int,
) -> AuditModel
    decreases k,
{
    if k <= 0 {
        a
    } else {
        maudit_row(
            maudit_rows(a, tab, al, ids, cat, year, k - 1),
            tab,
            al,
            ids,
            cat,
            year,
            k - 1,
            ids.len() as int,
        )
    }
}

/// The fixed vehicle types a category's matrix admits.
pub open spec fn vehicle_list(cat: Category) -> Seq<Seq<char>> {
    if cat == Category::Car {
        seq!["PRIVATE"@, "TAXI"@, "EV"@]
    } else {
        seq!["MOTORCYCLE"@]
    }
}

/// A correctly built matrix for the given table, aliases, section
/// ids and category: the friendly name, the full dense grid, the
/// empty permit id and the fixed vehicle list.
pub open spec fn matrix_ok(
    m: Matrix,
    tab: Map<KeyModel, PriceModel>,
    al: Seq<(Seq<char>, Seq<char>)>,
    ids: Seq<Seq<char>>,
    cat: Category,
) -> bool {
    &&& m.friendly_name@ == crate::category::cat_label(cat)
    &&& m.permit_id@ == Seq::<char>::empty()
    &&& crate::text::views(m.limit_to_vehicles@) == vehicle_list(cat)
    &&& grid_of(m).len() == ids.len()
    &&& forall|i: int| 0 <= i < ids.len() ==> (#[trigger] grid_of(m)[i]).len() == ids.len()
    &&& forall|i: int, j: int|
        0 <= i < ids.len() && 0 <= j < ids.len() ==> #[trigger] grid_of(m)[i][j] == cell_price(
            tab,
            al,
            ids,
            cat,
            i,
            j,
        )
}

} // verus!
