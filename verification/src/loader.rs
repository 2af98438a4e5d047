use vstd::prelude::*;
use crate::audit::{sat32, sat_add_u32, PriceLoadAudit, PriceLoadError};
use crate::category::Category;
use crate::normalize::NameNormalizer;
use crate::table::{
    insert_applies, table_insert, KeyModel, Price, PriceKey, PriceModel, PriceTable,
};
use crate::text::{all_digits, chars_of, digits_val, parse_u32_digits, pow10};

verus! {

/// The vintage assumed for a source file whose name does not start
/// with four digits.  Zero sorts below every real year, so an undated
/// price never displaces a dated one.
pub const DEFAULT_YEAR: u16 = 0;

/// One source file already read from disk: its bare file name and its
/// lines.
pub struct SourceFile {
    pub name: String,
    pub lines: Vec<String>,
}

/// The mathematical content of a source file.
pub type FileModel = (Seq<char>, Seq<Seq<char>>);

impl SourceFile {
    pub open spec fn model(self) -> FileModel {
        (self.name@, crate::text::views(self.lines@))
    }
}

/// The models of a list of source files.
pub open spec fn file_views(s: Seq<SourceFile>) -> Seq<FileModel> {
    s.map_values(|f: SourceFile| f.model())
}

/// The year encoded by a file name's first four characters, or the
/// fallback when they are not four digits.
pub open spec fn year_of_name(s: Seq<char>) -> u16 {
    if s.len() >= 4 && all_digits(s.take(4)) {
        digits_val(s.take(4)) as u16
    } else {
        DEFAULT_YEAR
    }
}

/// Reads the price year off a source file name.
pub fn get_year(file_name: &str) -> (r: u16)
    ensures
        r == year_of_name(file_name@),
{
    let v = chars_of(file_name);
    if v.len() < 4 {
        return DEFAULT_YEAR;
    }
    match parse_u32_digits(&v, 0, 4) {
        Some(x) => {
            proof {
                assert(v@.subrange(0, 4) =~= v@.take(4));
                crate::text::lemma_digits_val_upper(v@.take(4));
                reveal_with_fuel(pow10, 5);
                assert(pow10(4) == 10000);
            }
            x as u16
        },
        None => {
            proof {
                assert(v@.subrange(0, 4) =~= v@.take(4));
                if all_digits(v@.take(4)) {
                    crate::text::lemma_digits_val_upper(v@.take(4));
                    reveal_with_fuel(pow10, 5);
                    assert(pow10(4) == 10000);
                }
            }
            DEFAULT_YEAR
        },
    }
}

/// A decimal token with the comma accepted as decimal separator: the
/// commas become dots before parsing.
pub open spec fn comma_fixed(s: Seq<char>) -> Seq<char> {
    s.map_values(|c: char| if c == ',' { '.' } else { c })
}

/// Replaces every comma by a dot.
pub fn fix_commas(v: &Vec<char>) -> (r: Vec<char>)
    ensures
        r@ == comma_fixed(v@),
{
    let mut r: Vec<char> = Vec::new();
    let mut i: usize = 0;
    while i < v.len()
        invariant
            0 <= i <= v@.len(),
            r@ == comma_fixed(v@.take(i as int)),
        decreases v@.len() - i,
    {
        let c = v[i];
        if c == ',' {
            r.push('.');
        } else {
            r.push(c);
        }
        proof {
            assert(r@ =~= comma_fixed(v@.take(i + 1)));
        }
        i += 1;
    }
    proof {
        assert(v@.take(v@.len() as int) =~= v@);
    }
    r
}

// ===== The loading state the loader folds over =====

/// One recorded error: (file name, offending line text, message).
pub type ErrModel = (Seq<char>, Seq<char>, Seq<char>);

/// The models of an audit's error list.
pub open spec fn errors_model(s: Seq<PriceLoadError>) -> Seq<ErrModel> {
    s.map_values(|e: PriceLoadError| e.model())
}

/// What a loading pass carries along: the table, the per-category
/// loaded counters, and the error list.
pub type LoadState = (Map<KeyModel, PriceModel>, (int, int), Seq<ErrModel>);

/// A counter bump, saturating as the counters do.
pub open spec fn bump(c: int) -> int {
    sat32(c, 1)
}

/// One insertion step: the table changes under the recency rule, and
/// the category's counter moves exactly when the insertion applied.
pub open spec fn ls_insert(st: LoadState, k: KeyModel, p: PriceModel) -> LoadState {
    let applied = insert_applies(st.0, k, p.1);
    (
        table_insert(st.0, k, p),
        if applied {
            if k.2 == Category::Car {
                (bump(st.1.0), st.1.1)
            } else {
                (st.1.0, bump(st.1.1))
            }
        } else {
            st.1
        },
        st.2,
    )
}

/// One recorded failure: only the error list grows.
pub open spec fn ls_error(st: LoadState, e: ErrModel) -> LoadState {
    (st.0, st.1, st.2.push(e))
}

// ===== The loader =====

/// Feeds all source formats into one price table through one
/// insertion path, so precedence is uniform across formats.
pub struct PriceLoader {
    pub name_normalizer: NameNormalizer,
    pub prices: PriceTable,
}

impl PriceLoader {
    /// Inserts one observed price under the recency rule and counts
    /// it for its category when it was stored.  All three loaders
    /// come through here.
    pub fn insert_price(
        &mut self,
        audit: &mut PriceLoadAudit,
        file: &str,
        entry: &String,
        exit: &String,
        category: Category,
        price: crate::currency::Currency,
        year: u16,
    )
        requires
            old(self).prices.wf(),
        ensures
            final(self).prices.wf(),
            final(self).name_normalizer == old(self).name_normalizer,
            ({
                let st0 = (
                    old(self).prices@,
                    (old(audit).loaded_cars as int, old(audit).loaded_motorcycles as int),
                    errors_model(old(audit).error@),
                );
                let st1 = ls_insert(st0, (entry@, exit@, category), (price, year, file@));
                &&& final(self).prices@ == st1.0
                &&& final(audit).loaded_cars as int == st1.1.0
                &&& final(audit).loaded_motorcycles as int == st1.1.1
                &&& errors_model(final(audit).error@) == st1.2
                &&& final(audit).error@ == old(audit).error@
            }),
    {
        let key = PriceKey { entry: entry.clone(), exit: exit.clone(), category };
        let p = Price { price, year, file: file.to_owned() };
        let applied = self.prices.insert(key, p);
        if applied {
            match category {
                Category::Car => {
                    audit.loaded_cars = sat_add_u32(audit.loaded_cars, 1);
                },
                Category::Motorcycle => {
                    audit.loaded_motorcycles = sat_add_u32(audit.loaded_motorcycles, 1);
                },
            }
        }
    }

    /// Runs the whole loading pass in the fixed order that decides
    /// equal-year ties: flat files, then the car and motorcycle
    /// grids, then the car and motorcycle triangles, all feeding one
    /// table; the audits merge additively.
    pub fn load_prices(
        &mut self,
        flat_files: &Vec<SourceFile>,
        matrix_car: &Vec<SourceFile>,
        matrix_motorcycle: &Vec<SourceFile>,
        triangle_car: &Vec<SourceFile>,
        triangle_motorcycle: &Vec<SourceFile>,
    ) -> (audit: PriceLoadAudit)
        requires
            old(self).prices.wf(),
        ensures
            final(self).prices.wf(),
            final(self).name_normalizer == old(self).name_normalizer,
            ({
                let al = old(self).name_normalizer@;
                let s1 = crate::flat::flat_files_spec(
                    (old(self).prices@, (0int, 0int), Seq::<ErrModel>::empty()),
                    al,
                    file_views(flat_files@),
                    flat_files@.len() as int,
                );
                let s2 = crate::matrix_loader::matrix_files_spec(
                    (s1.0, (0int, 0int), Seq::<ErrModel>::empty()),
                    al,
                    file_views(matrix_car@),
                    Category::Car,
                    matrix_car@.len() as int,
                );
                let s3 = crate::matrix_loader::matrix_files_spec(
                    (s2.0, (0int, 0int), Seq::<ErrModel>::empty()),
                    al,
                    file_views(matrix_motorcycle@),
                    Category::Motorcycle,
                    matrix_motorcycle@.len() as int,
                );
                let s4 = crate::triangle_loader::tri_files_spec(
                    (s3.0, (0int, 0int), Seq::<ErrModel>::empty()),
                    al,
                    file_views(triangle_car@),
                    Category::Car,
                    triangle_car@.len() as int,
                );
                let s5 = crate::triangle_loader::tri_files_spec(
                    (s4.0, (0int, 0int), Seq::<ErrModel>::empty()),
                    al,
                    file_views(triangle_motorcycle@),
                    Category::Motorcycle,
                    triangle_motorcycle@.len() as int,
                );
                &&& final(self).prices@ == s5.0
                &&& audit.loaded_cars as int == sat32(
                    sat32(sat32(sat32(s1.1.0, s2.1.0), s3.1.0), s4.1.0),
                    s5.1.0,
                )
                &&& audit.loaded_motorcycles as int == sat32(
                    sat32(sat32(sat32(s1.1.1, s2.1.1), s3.1.1), s4.1.1),
                    s5.1.1,
                )
                &&& errors_model(audit.error@) == s1.2 + s2.2 + s3.2 + s4.2 + s5.2
            }),
    {
        let mut audit = PriceLoadAudit::new();
        let a1 = self.load_flat(flat_files);
        audit.merge(&a1);
        let a2 = self.load_matrix(Category::Car, matrix_car);
        audit.merge(&a2);
        let a3 = self.load_matrix(Category::Motorcycle, matrix_motorcycle);
        audit.merge(&a3);
        let a4 = self.load_triangles(Category::Car, triangle_car);
        audit.merge(&a4);
        let a5 = self.load_triangles(Category::Motorcycle, triangle_motorcycle);
        audit.merge(&a5);
        proof {
            assert(errors_model(audit.error@) =~= errors_model(a1.error@) + errors_model(a2.error@)
                + errors_model(a3.error@) + errors_model(a4.error@) + errors_model(a5.error@));
        }
        audit
    }
}

} // verus!
