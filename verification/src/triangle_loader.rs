use vstd::prelude::*;
use crate::audit::{PriceLoadAudit, PriceLoadError};
use crate::category::Category;
use crate::currency::{parse_currency, Currency};
use crate::loader::{
    comma_fixed, errors_model, file_views, fix_commas, get_year, ls_error, ls_insert, year_of_name,
    ErrModel, FileModel, LoadState, PriceLoader, SourceFile,
};
use crate::matrix_loader::tokenized;
use crate::normalize::normalize_spec;
use crate::text::{chars_of, read_lines_tokens, views};

verus! {

/// One triangle cell: the price at `rows[j][i]` relates the station
/// named by the last token of row `i` and the one named by the last
/// token of row `j`, and inserts both directions with the same
/// value.  A missing or unparsable token records one error.
pub open spec fn tri_cell(
    st: LoadState,
    al: Seq<(Seq<char>, Seq<char>)>,
    f: Seq<char>,
    year: u16,
    rows: Seq<Seq<Seq<char>>>,
    cat: Category,
    i: int,
    j: int,
) -> LoadState {
    let rj = rows[j];
    if rj.len() <= i {
        ls_error(st, (f, Seq::empty(), "Invalid line length"@))
    } else {
        match parse_currency(comma_fixed(rj[i])) {
            Some(c) => {
                let entry = normalize_spec(al, rows[i].last());
                let exit = normalize_spec(al, rj.last());
                ls_insert(
                    ls_insert(st, (entry, exit, cat), (c, year, f)),
                    (exit, entry, cat),
                    (c, year, f),
                )
            },
            None => ls_error(st, (f, Seq::empty(), "Invalid line length"@)),
        }
    }
}

/// The cells `i+1 .. k` below row `i`.
pub open spec fn tri_cells(
    st: LoadState,
    al: Seq<(Seq<char>, Seq<char>)>,
    f: Seq<char>,
    year: u16,
    rows: Seq<Seq<Seq<char>>>,
    cat: Category,
    i: int,
    k: int,
) -> LoadState
    decreases k - i,
{
    if k <= i + 1 {
        st
    } else {
        tri_cell(tri_cells(st, al, f, year, rows, cat, i, k - 1), al, f, year, rows, cat, i, k - 1)
    }
}

/// One triangle row: pairs row `i` with every later row.  A row
/// without tokens names no station and is skipped.
pub open spec fn tri_row_step(
    st: LoadState,
    al: Seq<(Seq<char>, Seq<char>)>,
    f: Seq<char>,
    year: u16,
    rows: Seq<Seq<Seq<char>>>,
    cat: Category,
    i: int,
) -> LoadState {
    if rows[i].len() == 0 {
        st
    } else {
        tri_cells(st, al, f, year, rows, cat, i, rows.len() as int)
    }
}

/// The triangle rows `0 .. k`.
pub open spec fn tri_rows(
    st: LoadState,
    al: Seq<(Seq<char>, Seq<char>)>,
    f: Seq<char>,
    year: u16,
    rows: Seq<Seq<Seq<char>>>,
    cat: Category,
    k: int,
) -> LoadState
    decreases k,
{
    if k <= 0 {
        st
    } else {
        tri_row_step(tri_rows(st, al, f, year, rows, cat, k - 1), al, f, year, rows, cat, k - 1)
    }
}

/// One whole triangle file for one category.
pub open spec fn tri_file_spec(
    st: LoadState,
    al: Seq<(Seq<char>, Seq<char>)>,
    f: FileModel,
    cat: Category,
) -> LoadState {
    let rows = tokenized(f.1);
    tri_rows(st, al, f.0, year_of_name(f.0), rows, cat, rows.len() as int)
}

/// The triangle files `0 .. k`, in order.
pub open spec fn tri_files_spec(
    st: LoadState,
    al: Seq<(Seq<char>, Seq<char>)>,
    files: Seq<FileModel>,
    cat: Category,
    k: int,
) -> LoadState
    decreases k,
{
    if k <= 0 {
        st
    } else {
        tri_file_spec(tri_files_spec(st, al, files, cat, k - 1), al, files[k - 1], cat)
    }
}

/// For a successfully parsed triangle cell, both directed keys come
/// out of the cell present in the table with the same stored price,
/// provided no strictly newer stored price blocks either direction
/// (an older incoming price never overwrites a newer stored one).
pub proof fn lemma_tri_cell_symmetric(
    st: LoadState,
    al: Seq<(Seq<char>, Seq<char>)>,
    f: Seq<char>,
    year: u16,
    rows: Seq<Seq<Seq<char>>>,
    cat: Category,
    i: int,
    j: int,
)
    requires
        0 <= i < rows.len(),
        0 <= j < rows.len(),
        rows[j].len() > i,
        parse_currency(comma_fixed(rows[j][i])) is Some,
        ({
            let e = normalize_spec(al, rows[i].last());
            let x = normalize_spec(al, rows[j].last());
            &&& (!st.0.contains_key((e, x, cat)) || st.0[(e, x, cat)].1 <= year)
            &&& (!st.0.contains_key((x, e, cat)) || st.0[(x, e, cat)].1 <= year)
        }),
    ensures
        ({
            let c = parse_currency(comma_fixed(rows[j][i])).unwrap();
            let e = normalize_spec(al, rows[i].last());
            let x = normalize_spec(al, rows[j].last());
            let m2 = tri_cell(st, al, f, year, rows, cat, i, j).0;
            &&& m2.contains_key((e, x, cat))
            &&& m2.contains_key((x, e, cat))
            &&& m2[(e, x, cat)] == (c, year, f)
            &&& m2[(x, e, cat)] == (c, year, f)
        }),
{
    let c = parse_currency(comma_fixed(rows[j][i])).unwrap();
    let e = normalize_spec(al, rows[i].last());
    let x = normalize_spec(al, rows[j].last());
    crate::table::lemma_insert_pair_symmetric(st.0, e, x, cat, (c, year, f));
}

impl PriceLoader {
    /// Loads every triangle-format file of one category: the last
    /// token of each row names a station, the price for rows `i < j`
    /// sits at `rows[j][i]`, and each parsed price inserts both
    /// directions with the same value.
    pub fn load_triangles(&mut self, category: Category, files: &Vec<SourceFile>) -> (audit:
        PriceLoadAudit)
        requires
            old(self).prices.wf(),
        ensures
            final(self).prices.wf(),
            final(self).name_normalizer == old(self).name_normalizer,
            ({
                let st = tri_files_spec(
                    (old(self).prices@, (0int, 0int), Seq::<ErrModel>::empty()),
                    old(self).name_normalizer@,
                    file_views(files@),
                    category,
                    files@.len() as int,
                );
                &&& final(self).prices@ == st.0
                &&& audit.loaded_cars as int == st.1.0
                &&& audit.loaded_motorcycles as int == st.1.1
                &&& errors_model(audit.error@) == st.2
            }),
    {
        let mut audit = PriceLoadAudit::new();
        let ghost st0 = (old(self).prices@, (0int, 0int), Seq::<ErrModel>::empty());
        let ghost al = self.name_normalizer@;
        let mut fi: usize = 0;
        proof {
            assert(errors_model(audit.error@) =~= Seq::<ErrModel>::empty());
        }
        while fi < files.len()
            invariant
                0 <= fi <= files@.len(),
                self.prices.wf(),
                self.name_normalizer == old(self).name_normalizer,
                al == old(self).name_normalizer@,
                st0 == (old(self).prices@, (0int, 0int), Seq::<ErrModel>::empty()),
                ({
                    let st = tri_files_spec(st0, al, file_views(files@), category, fi as int);
                    &&& self.prices@ == st.0
                    &&& audit.loaded_cars as int == st.1.0
                    &&& audit.loaded_motorcycles as int == st.1.1
                    &&& errors_model(audit.error@) == st.2
                }),
            decreases files@.len() - fi,
        {
            let ghost st_file = tri_files_spec(st0, al, file_views(files@), category, fi as int);
            let file = &files[fi];
            proof {
                assert(file_views(files@)[fi as int] == files@[fi as int].model());
            }
            let year = get_year(file.name.as_str());
            let rows = read_lines_tokens(&file.lines);
            let ghost rv = tokenized(views(file.lines@));
            proof {
                assert(rv.len() == rows@.len());
                assert forall|i: int| 0 <= i < rows@.len() implies views(#[trigger] rows@[i]@)
                    == rv[i] by {
                    assert(rv[i] == crate::text::split_on(
                        crate::text::trim_spec(views(file.lines@)[i]),
                        '\t',
                    ));
                    assert(views(file.lines@)[i] == file.lines@[i]@);
                }
            }
            let mut row: usize = 0;
            while row < rows.len()
                invariant
                    0 <= row <= rows@.len(),
                    self.prices.wf(),
                    self.name_normalizer == old(self).name_normalizer,
                    al == old(self).name_normalizer@,
                    rv.len() == rows@.len(),
                    forall|i: int| 0 <= i < rows@.len() ==> views(#[trigger] rows@[i]@) == rv[i],
                    year == year_of_name(file.name@),
                    ({
                        let st = tri_rows(st_file, al, file.name@, year, rv, category, row as int);
                        &&& self.prices@ == st.0
                        &&& audit.loaded_cars as int == st.1.0
                        &&& audit.loaded_motorcycles as int == st.1.1
                        &&& errors_model(audit.error@) == st.2
                    }),
                decreases rows@.len() - row,
            {
                let ghost st_row = tri_rows(st_file, al, file.name@, year, rv, category, row as int);
                if rows[row].len() > 0 {
                    proof {
                        assert(views(rows@[row as int]@)[rv[row as int].len() - 1] == rows@[row
                            as int]@[rv[row as int].len() - 1]@);
                    }
                    let entry = self.name_normalizer.normalize(
                        rows[row][rows[row].len() - 1].as_str(),
                    );
                    proof {
                        assert(entry@ == normalize_spec(al, rv[row as int].last()));
                    }
                    let mut col: usize = row + 1;
                    while col < rows.len()
                        invariant
                            row < col <= rows@.len() || (col == row + 1 && rows@.len() <= row + 1),
                            row < rows@.len(),
                            self.prices.wf(),
                            self.name_normalizer == old(self).name_normalizer,
                            al == old(self).name_normalizer@,
                            rv.len() == rows@.len(),
                            forall|i: int|
                                0 <= i < rows@.len() ==> views(#[trigger] rows@[i]@) == rv[i],
                            rv[row as int].len() > 0,
                            year == year_of_name(file.name@),
                            entry@ == normalize_spec(al, rv[row as int].last()),
                            ({
                                let st = tri_cells(
                                    st_row,
                                    al,
                                    file.name@,
                                    year,
                                    rv,
                                    category,
                                    row as int,
                                    col as int,
                                );
                                &&& self.prices@ == st.0
                                &&& audit.loaded_cars as int == st.1.0
                                &&& audit.loaded_motorcycles as int == st.1.1
                                &&& errors_model(audit.error@) == st.2
                            }),
                        decreases rows@.len() - col,
                    {
                        let ghost st_cell = tri_cells(
                            st_row,
                            al,
                            file.name@,
                            year,
                            rv,
                            category,
                            row as int,
                            col as int,
                        );
                        if rows[col].len() <= row {
                            audit.error.push(
                                PriceLoadError {
                                    file_name: file.name.clone(),
                                    line: String::new(),
                                    error: "Invalid line length".to_owned(),
                                },
                            );
                            proof {
                                assert(rv[col as int].len() <= row as int);
                                assert(errors_model(audit.error@) =~= st_cell.2.push(
                                    (file.name@, Seq::empty(), "Invalid line length"@),
                                ));
                            }
                        } else {
                            proof {
                                assert(views(rows@[col as int]@)[row as int] == rows@[col
                                    as int]@[row as int]@);
                                assert(views(rows@[col as int]@)[rv[col as int].len() - 1]
                                    == rows@[col as int]@[rv[col as int].len() - 1]@);
                            }
                            let exit = self.name_normalizer.normalize(
                                rows[col][rows[col].len() - 1].as_str(),
                            );
                            proof {
                                assert(exit@ == normalize_spec(al, rv[col as int].last()));
                            }
                            let pc = chars_of(rows[col][row].as_str());
                            let fixed = fix_commas(&pc);
                            match Currency::from_chars(&fixed) {
                                Ok(c) => {
                                    self.insert_price(
                                        &mut audit,
                                        file.name.as_str(),
                                        &entry,
                                        &exit,
                                        category,
                                        c,
                                        year,
                                    );
                                    self.insert_price(
                                        &mut audit,
                                        file.name.as_str(),
                                        &exit,
                                        &entry,
                                        category,
                                        c,
                                        year,
                                    );
                                },
                                Err(_) => {
                                    audit.error.push(
                                        PriceLoadError {
                                            file_name: file.name.clone(),
                                            line: String::new(),
                                            error: "Invalid line length".to_owned(),
                                        },
                                    );
                                    proof {
                                        assert(errors_model(audit.error@) =~= st_cell.2.push(
                                            (file.name@, Seq::empty(), "Invalid line length"@),
                                        ));
                                    }
                                },
                            }
                        }
                        col += 1;
                    }
                }
                row += 1;
            }
            fi += 1;
        }
        audit
    }
}

} // verus!
