use vstd::prelude::*;
use vstd::string::StringExecFns;
use crate::builder::{
    cell_price, matrix_ok, maudit_row, maudit_rows, sat_add_u16, vehicle_list, Audit,
};
use crate::category::Category;
use crate::currency::Currency;
use crate::loader::{file_views, ErrModel, PriceLoader, SourceFile};
use crate::normalize::{aliases_from_lines, normalize_spec, NameNormalizer};
use crate::table::{KeyModel, PriceKey, PriceModel, PriceTable};
use crate::text::{chars_of, contains_chars, contains_sub, views};
use crate::toll::{grid_of, matrix_rule_applies, section_ids, Matrix, Section, Toll};

verus! {

/// Relies on `chrono::Utc::now` and `chrono::Datelike::year` for the
/// current calendar year.  The clock decides the value, so nothing is
/// promised of it; every caller takes the year as data.
#[verifier::external_body]
fn current_year() -> u16 {
    chrono::Datelike::year(&chrono::Utc::now()) as u16
}

/// Serves queries and matrix building over the finished price table.
pub struct PriceService {
    prices: PriceTable,
    name_normalizer: NameNormalizer,
}

/// The views of a list of (exit name, price) results.
pub open spec fn pair_views(s: Seq<(String, Currency)>) -> Seq<(Seq<char>, Currency)> {
    s.map_values(|p: (String, Currency)| (p.0@, p.1))
}

/// The (exit station, price) pairs of the stored entries whose entry
/// station contains `needle`, in table order.
pub open spec fn prices_matching(
    entries: Seq<(KeyModel, PriceModel)>,
    needle: Seq<char>,
    k: int,
) -> Seq<(Seq<char>, Currency)>
    decreases k,
{
    if k <= 0 {
        Seq::empty()
    } else {
        let prev = prices_matching(entries, needle, k - 1);
        let e = entries[k - 1];
        if contains_sub(e.0.0, needle) {
            prev.push((e.0.1, e.1.0))
        } else {
            prev
        }
    }
}

/// The distinct entry stations containing `needle`, in first-seen
/// table order.
pub open spec fn stations_matching(
    entries: Seq<(KeyModel, PriceModel)>,
    needle: Seq<char>,
    k: int,
) -> Seq<Seq<char>>
    decreases k,
{
    if k <= 0 {
        Seq::empty()
    } else {
        let prev = stations_matching(entries, needle, k - 1);
        let e = entries[k - 1];
        if contains_sub(e.0.0, needle) && !prev.contains(e.0.0) {
            prev.push(e.0.0)
        } else {
            prev
        }
    }
}

impl PriceService {
    /// The finished table this service answers from.
    pub closed spec fn table(self) -> Map<KeyModel, PriceModel> {
        self.prices@
    }

    /// The alias table behind its normalization.
    pub closed spec fn aliases(self) -> Seq<(Seq<char>, Seq<char>)> {
        self.name_normalizer@
    }

    /// The stored entries in table order.
    pub closed spec fn entries(self) -> Seq<(KeyModel, PriceModel)> {
        self.prices.entry_seq()
    }

    pub closed spec fn wf(self) -> bool {
        self.prices.wf()
    }

    /// Builds the whole service from in-memory sources: the alias
    /// list's lines, then one full loading pass over the five source
    /// sets in the fixed order.  Returns the service and the load
    /// audit.
    pub fn new(
        alias_lines: &Vec<String>,
        flat_files: &Vec<SourceFile>,
        matrix_car: &Vec<SourceFile>,
        matrix_motorcycle: &Vec<SourceFile>,
        triangle_car: &Vec<SourceFile>,
        triangle_motorcycle: &Vec<SourceFile>,
    ) -> (r: (PriceService, crate::audit::PriceLoadAudit))
        ensures
            r.0.wf(),
            r.0.aliases() == aliases_from_lines(views(alias_lines@)),
            ({
                let al = aliases_from_lines(views(alias_lines@));
                let st0 = (
                    Map::<KeyModel, PriceModel>::empty(),
                    (0int, 0int),
                    Seq::<ErrModel>::empty(),
                );
                let s1 = crate::flat::flat_files_spec(
                    st0,
                    al,
                    file_views(flat_files@),
                    flat_files@.len() as int,
                );
                let s2 = crate::matrix_loader::matrix_files_spec(
                    (s1.0, (0int, 0int), Seq::<ErrModel>::empty()),
                    al,
                    file_views(matrix_car@),
                    Category::Car,
                    matrix_car@.len() as int,
                );
                let s3 = crate::matrix_loader::matrix_files_spec(
                    (s2.0, (0int, 0int), Seq::<ErrModel>::empty()),
                    al,
                    file_views(matrix_motorcycle@),
                    Category::Motorcycle,
                    matrix_motorcycle@.len() as int,
                );
                let s4 = crate::triangle_loader::tri_files_spec(
                    (s3.0, (0int, 0int), Seq::<ErrModel>::empty()),
                    al,
                    file_views(triangle_car@),
                    Category::Car,
                    triangle_car@.len() as int,
                );
                let s5 = crate::triangle_loader::tri_files_spec(
                    (s4.0, (0int, 0int), Seq::<ErrModel>::empty()),
                    al,
                    file_views(triangle_motorcycle@),
                    Category::Motorcycle,
                    triangle_motorcycle@.len() as int,
                );
                &&& r.0.table() == s5.0
                &&& r.1.loaded_cars as int == crate::audit::sat32(
                    crate::audit::sat32(
                        crate::audit::sat32(crate::audit::sat32(s1.1.0, s2.1.0), s3.1.0),
                        s4.1.0,
                    ),
                    s5.1.0,
                )
                &&& r.1.loaded_motorcycles as int == crate::audit::sat32(
                    crate::audit::sat32(
                        crate::audit::sat32(crate::audit::sat32(s1.1.1, s2.1.1), s3.1.1),
                        s4.1.1,
                    ),
                    s5.1.1,
                )
                &&& crate::loader::errors_model(r.1.error@) == s1.2 + s2.2 + s3.2 + s4.2 + s5.2
            }),
    {
        let name_normalizer = NameNormalizer::from_lines(alias_lines);
        let mut loader = PriceLoader { name_normalizer, prices: PriceTable::new() };
        let audit = loader.load_prices(
            flat_files,
            matrix_car,
            matrix_motorcycle,
            triangle_car,
            triangle_motorcycle,
        );
        (Self::from_loader(loader), audit)
    }

    /// Takes over a loader's finished table and normalizer.
    pub fn from_loader(loader: PriceLoader) -> (r: PriceService)
        requires
            loader.prices.wf(),
        ensures
            r.wf(),
            r.table() == loader.prices@,
            r.aliases() == loader.name_normalizer@,
            r.entries() == loader.prices.entry_seq(),
    {
        PriceService { prices: loader.prices, name_normalizer: loader.name_normalizer }
    }

    /// How many routes the table holds.
    pub fn price_count(&self) -> (r: usize)
        ensures
            r == self.entries().len(),
    {
        self.prices.len()
    }

    /// Normalizes a station name with the service's alias table.
    pub fn normalize(&self, name: &str) -> (r: String)
        ensures
            r@ == normalize_spec(self.aliases(), name@),
    {
        self.name_normalizer.normalize(name)
    }

    /// Every stored (exit, price) whose entry station contains the
    /// given text, in table order.
    pub fn get_prices(&self, entry_name: &str) -> (r: Vec<(String, Currency)>)
        requires
            self.wf(),
        ensures
            pair_views(r@) == prices_matching(
                self.entries(),
                entry_name@,
                self.entries().len() as int,
            ),
    {
        let needle = chars_of(entry_name);
        let mut r: Vec<(String, Currency)> = Vec::new();
        let mut i: usize = 0;
        proof {
            assert(pair_views(r@) =~= Seq::<(Seq<char>, Currency)>::empty());
        }
        while i < self.prices.len()
            invariant
                self.wf(),
                0 <= i <= self.entries().len(),
                needle@ == entry_name@,
                pair_views(r@) == prices_matching(self.entries(), entry_name@, i as int),
            decreases self.entries().len() - i,
        {
            let key = self.prices.key_at(i);
            let hay = chars_of(key.entry.as_str());
            if contains_chars(&hay, &needle) {
                let price = self.prices.price_at(i);
                r.push((key.exit.clone(), price.price));
                proof {
                    assert(pair_views(r@) =~= prices_matching(
                        self.entries(),
                        entry_name@,
                        i as int,
                    ).push((self.entries()[i as int].0.1, self.entries()[i as int].1.0)));
                }
            }
            i += 1;
        }
        r
    }

    /// The distinct entry stations whose name contains the
    /// normalized given text, in first-seen order.
    pub fn get_station(&self, name: &str) -> (r: Vec<String>)
        requires
            self.wf(),
        ensures
            views(r@) == stations_matching(
                self.entries(),
                normalize_spec(self.aliases(), name@),
                self.entries().len() as int,
            ),
    {
        let normalized = self.name_normalizer.normalize(name);
        let needle = chars_of(normalized.as_str());
        let ghost nd = normalize_spec(self.aliases(), name@);
        let mut r: Vec<String> = Vec::new();
        let mut i: usize = 0;
        proof {
            assert(views(r@) =~= Seq::<Seq<char>>::empty());
        }
        while i < self.prices.len()
            invariant
                self.wf(),
                0 <= i <= self.entries().len(),
                needle@ == nd,
                nd == normalize_spec(self.aliases(), name@),
                views(r@) == stations_matching(self.entries(), nd, i as int),
            decreases self.entries().len() - i,
        {
            let key = self.prices.key_at(i);
            let hay = chars_of(key.entry.as_str());
            if contains_chars(&hay, &needle) {
                let mut seen = false;
                let mut t: usize = 0;
                while t < r.len()
                    invariant
                        0 <= t <= r@.len(),
                        i < self.entries().len(),
                        key.model() == self.entries()[i as int].0,
                        seen ==> views(r@).contains(key.entry@),
                        !seen ==> forall|u: int|
                            #![trigger r@[u]]
                            0 <= u < t ==> r@[u]@ != key.entry@,
                    decreases r@.len() - t,
                {
                    if r[t] == key.entry {
                        proof {
                            assert(views(r@)[t as int] == key.entry@);
                        }
                        seen = true;
                    }
                    t += 1;
                }
                if !seen {
                    proof {
                        if views(r@).contains(key.entry@) {
                            let w = choose|w: int|
                                0 <= w < views(r@).len() && views(r@)[w] == key.entry@;
                            assert(r@[w]@ == key.entry@);
                            assert(false);
                        }
                    }
                    r.push(key.entry.clone());
                    proof {
                        assert(views(r@) =~= stations_matching(self.entries(), nd, i as int).push(
                            self.entries()[i as int].0.0,
                        ));
                    }
                }
            }
            i += 1;
        }
        r
    }

    /// Builds one category's dense matrix over the toll's ordered
    /// sections, together with the audit of what the lookups found.
    pub fn build_matrix_category(
        &self,
        sections: &Vec<Section>,
        category: Category,
        current_year: u16,
    ) -> (r: (Matrix, Audit))
        requires
            self.wf(),
        ensures
            matrix_ok(r.0, self.table(), self.aliases(), section_ids(sections@), category),
            r.1.model() == maudit_rows(
                (0int, 0int, 0int, Seq::<Seq<char>>::empty()),
                self.table(),
                self.aliases(),
                section_ids(sections@),
                category,
                current_year,
                sections@.len() as int,
            ),
    {
        let ghost ids = section_ids(sections@);
        let ghost tab = self.table();
        let ghost al = self.aliases();
        let ghost a0 = (0int, 0int, 0int, Seq::<Seq<char>>::empty());
        let mut limit_to_vehicles: Vec<String> = Vec::new();
        match category {
            Category::Car => {
                limit_to_vehicles.push("PRIVATE".to_owned());
                limit_to_vehicles.push("TAXI".to_owned());
                limit_to_vehicles.push("EV".to_owned());
            },
            Category::Motorcycle => {
                limit_to_vehicles.push("MOTORCYCLE".to_owned());
            },
        }
        proof {
            assert(views(limit_to_vehicles@) =~= vehicle_list(category));
        }
        let mut audit = Audit::new();
        let mut grid: Vec<Vec<Currency>> = Vec::new();
        let mut i: usize = 0;
        while i < sections.len()
            invariant
                self.wf(),
                0 <= i <= sections@.len(),
                ids == section_ids(sections@),
                tab == self.table(),
                al == self.aliases(),
                a0 == (0int, 0int, 0int, Seq::<Seq<char>>::empty()),
                grid@.len() == i,
                forall|a: int|
                    0 <= a < i ==> (#[trigger] grid@[a]@).len() == sections@.len(),
                forall|a: int, b: int|
                    0 <= a < i && 0 <= b < sections@.len() ==> #[trigger] grid@[a]@[b]
                        == cell_price(tab, al, ids, category, a, b),
                audit.model() == maudit_rows(a0, tab, al, ids, category, current_year, i as int),
            decreases sections@.len() - i,
        {
            proof {
                assert(ids[i as int] == sections@[i as int].section_id@);
            }
            let entry = self.name_normalizer.normalize(sections[i].section_id.as_str());
            let mut rowv: Vec<Currency> = Vec::new();
            let mut j: usize = 0;
            while j < sections.len()
                invariant
                    self.wf(),
                    0 <= j <= sections@.len(),
                    i < sections@.len(),
                    ids == section_ids(sections@),
                    tab == self.table(),
                    al == self.aliases(),
                    entry@ == normalize_spec(al, ids[i as int]),
                    rowv@.len() == j,
                    forall|b: int|
                        0 <= b < j ==> #[trigger] rowv@[b] == cell_price(
                            tab,
                            al,
                            ids,
                            category,
                            i as int,
                            b,
                        ),
                    audit.model() == maudit_row(
                        maudit_rows(a0, tab, al, ids, category, current_year, i as int),
                        tab,
                        al,
                        ids,
                        category,
                        current_year,
                        i as int,
                        j as int,
                    ),
                decreases sections@.len() - j,
            {
                proof {
                    assert(ids[j as int] == sections@[j as int].section_id@);
                }
                let exit = self.name_normalizer.normalize(sections[j].section_id.as_str());
                if entry == exit {
                    rowv.push(Currency::zero());
                } else {
                    let key = PriceKey {
                        entry: entry.clone(),
                        exit: exit.clone(),
                        category,
                    };
                    match self.prices.get(&key) {
                        None => {
                            rowv.push(Currency::zero());
                            audit.not_found = sat_add_u16(audit.not_found, 1);
                        },
                        Some(p) => {
                            rowv.push(p.price);
                            if current_year > p.year {
                                audit.obsolete = sat_add_u16(audit.obsolete, 1);
                                let f = p.file.clone();
                                audit.add_obsolete_file(&f);
                            }
                            audit.found = sat_add_u16(audit.found, 1);
                        },
                    }
                }
                j += 1;
            }
            grid.push(rowv);
            i += 1;
        }
        let friendly_name = category.name().to_owned();
        let m = Matrix {
            friendly_name,
            matrix_prices: grid,
            permit_id: String::new(),
            limit_to_vehicles,
        };
        proof {
            assert(grid_of(m) =~= m.matrix_prices@.map_values(|r: Vec<Currency>| r@));
        }
        (m, audit)
    }

    /// Rebuilds a toll's two matrices at a given calendar year when
    /// its rules call for entry/exit pricing; any other rules
    /// configuration leaves the toll untouched.  Returns the car and
    /// motorcycle audits when matrices were built.
    pub fn update_toll_matrix_at(&self, toll: &mut Toll, current_year: u16) -> (r: Option<
        (Audit, Audit),
    >)
        requires
            self.wf(),
        ensures
            match r {
                Some(audits) => {
                    &&& matrix_rule_applies(old(toll).rules@)
                    &&& final(toll).toll_id == old(toll).toll_id
                    &&& final(toll).rules == old(toll).rules
                    &&& final(toll).sections == old(toll).sections
                    &&& final(toll).entry_exit_matrix@.len() == 2
                    &&& matrix_ok(
                        final(toll).entry_exit_matrix@[0],
                        self.table(),
                        self.aliases(),
                        section_ids(old(toll).sections@),
                        Category::Car,
                    )
                    &&& matrix_ok(
                        final(toll).entry_exit_matrix@[1],
                        self.table(),
                        self.aliases(),
                        section_ids(old(toll).sections@),
                        Category::Motorcycle,
                    )
                    &&& audits.0.model() == maudit_rows(
                        (0int, 0int, 0int, Seq::<Seq<char>>::empty()),
                        self.table(),
                        self.aliases(),
                        section_ids(old(toll).sections@),
                        Category::Car,
                        current_year,
                        old(toll).sections@.len() as int,
                    )
                    &&& audits.1.model() == maudit_rows(
                        (0int, 0int, 0int, Seq::<Seq<char>>::empty()),
                        self.table(),
                        self.aliases(),
                        section_ids(old(toll).sections@),
                        Category::Motorcycle,
                        current_year,
                        old(toll).sections@.len() as int,
                    )
                },
                None => {
                    &&& !matrix_rule_applies(old(toll).rules@)
                    &&& *final(toll) == *old(toll)
                },
            },
    {
        let gate = toll.rules.len() == 1 && toll.rules[0] == String::from_str("entry_exit_price");
        if !gate {
            return None;
        }
        let (car_matrix, car_audit) = self.build_matrix_category(
            &toll.sections,
            Category::Car,
            current_year,
        );
        let (motorcycle_matrix, motorcycle_audit) = self.build_matrix_category(
            &toll.sections,
            Category::Motorcycle,
            current_year,
        );
        let mut matrices: Vec<Matrix> = Vec::new();
        matrices.push(car_matrix);
        matrices.push(motorcycle_matrix);
        toll.entry_exit_matrix = matrices;
        Some((car_audit, motorcycle_audit))
    }

    /// As `update_toll_matrix_at`, against the calendar year the
    /// clock reports now.
    pub fn update_toll_matrix(&self, toll: &mut Toll) -> (r: Option<(Audit, Audit)>)
        requires
            self.wf(),
        ensures
            match r {
                Some(audits) => {
                    &&& matrix_rule_applies(old(toll).rules@)
                    &&& exists|y: u16|
                        audits.0.model() == #[trigger] maudit_rows(
                            (0int, 0int, 0int, Seq::<Seq<char>>::empty()),
                            self.table(),
                            self.aliases(),
                            section_ids(old(toll).sections@),
                            Category::Car,
                            y,
                            old(toll).sections@.len() as int,
                        ) && audits.1.model() == maudit_rows(
                            (0int, 0int, 0int, Seq::<Seq<char>>::empty()),
                            self.table(),
                            self.aliases(),
                            section_ids(old(toll).sections@),
                            Category::Motorcycle,
                            y,
                            old(toll).sections@.len() as int,
                        )
                    &&& final(toll).toll_id == old(toll).toll_id
                    &&& final(toll).rules == old(toll).rules
                    &&& final(toll).sections == old(toll).sections
                    &&& final(toll).entry_exit_matrix@.len() == 2
                    &&& matrix_ok(
                        final(toll).entry_exit_matrix@[0],
                        self.table(),
                        self.aliases(),
                        section_ids(old(toll).sections@),
                        Category::Car,
                    )
                    &&& matrix_ok(
                        final(toll).entry_exit_matrix@[1],
                        self.table(),
                        self.aliases(),
                        section_ids(old(toll).sections@),
                        Category::Motorcycle,
                    )
                },
                None => {
                    &&& !matrix_rule_applies(old(toll).rules@)
                    &&& *final(toll) == *old(toll)
                },
            },
    {
        let year = current_year();
        self.update_toll_matrix_at(toll, year)
    }
}

} // verus!
