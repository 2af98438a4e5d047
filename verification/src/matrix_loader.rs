use vstd::prelude::*;
use vstd::string::StringExecFns;
use crate::audit::{PriceLoadAudit, PriceLoadError};
use crate::category::Category;
use crate::currency::{parse_currency, Currency};
use crate::loader::{
    comma_fixed, errors_model, file_views, fix_commas, get_year, ls_error, ls_insert, year_of_name,
    ErrModel, FileModel, LoadState, PriceLoader, SourceFile,
};
use crate::normalize::normalize_spec;
use crate::text::{chars_of, read_lines_tokens, split_on, trim_spec, views};

verus! {

/// The rows of a grid file: each line trimmed and split at tabs.
pub open spec fn tokenized(lines: Seq<Seq<char>>) -> Seq<Seq<Seq<char>>> {
    lines.map_values(|l: Seq<char>| split_on(trim_spec(l), '\t'))
}

/// The message recorded for a grid cell whose price token does not
/// parse.
pub open spec fn cell_error_msg(tok: Seq<char>) -> Seq<char> {
    "Invalid price value "@ + tok
}

/// One grid cell: column `j` of a data row inserts one directed
/// (entry, exit) price, or records the unparsable token.
pub open spec fn matrix_cell(
    st: LoadState,
    al: Seq<(Seq<char>, Seq<char>)>,
    f: Seq<char>,
    year: u16,
    header: Seq<Seq<char>>,
    row: Seq<Seq<char>>,
    entry: Seq<char>,
    cat: Category,
    j: int,
) -> LoadState {
    match parse_currency(comma_fixed(row[j])) {
        Some(c) => ls_insert(
            st,
            (entry, normalize_spec(al, header[j]), cat),
            (c, year, f),
        ),
        None => ls_error(st, (f, Seq::empty(), cell_error_msg(row[j]))),
    }
}

/// The cells `1 .. k` of one data row.
pub open spec fn matrix_cells(
    st: LoadState,
    al: Seq<(Seq<char>, Seq<char>)>,
    f: Seq<char>,
    year: u16,
    header: Seq<Seq<char>>,
    row: Seq<Seq<char>>,
    entry: Seq<char>,
    cat: Category,
    k: int,
) -> LoadState
    decreases k,
{
    if k <= 1 {
        st
    } else {
        matrix_cell(
            matrix_cells(st, al, f, year, header, row, entry, cat, k - 1),
            al,
            f,
            year,
            header,
            row,
            entry,
            cat,
            k - 1,
        )
    }
}

/// One data row: a row whose column count differs from the header's
/// records exactly one error and inserts nothing; otherwise column 0
/// names the entry station and every further column yields one cell.
pub open spec fn matrix_row_step(
    st: LoadState,
    al: Seq<(Seq<char>, Seq<char>)>,
    f: Seq<char>,
    year: u16,
    header: Seq<Seq<char>>,
    row: Seq<Seq<char>>,
    cat: Category,
) -> LoadState {
    if row.len() != header.len() {
        ls_error(st, (f, Seq::empty(), "Invalid line length"@))
    } else if row.len() == 0 {
        st
    } else {
        matrix_cells(st, al, f, year, header, row, normalize_spec(al, row[0]), cat, row.len() as int)
    }
}

/// The data rows `1 .. k` of a grid file (row 0 is the header).
pub open spec fn matrix_rows(
    st: LoadState,
    al: Seq<(Seq<char>, Seq<char>)>,
    f: Seq<char>,
    year: u16,
    rows: Seq<Seq<Seq<char>>>,
    cat: Category,
    k: int,
) -> LoadState
    decreases k,
{
    if k <= 1 {
        st
    } else {
        matrix_row_step(
            matrix_rows(st, al, f, year, rows, cat, k - 1),
            al,
            f,
            year,
            rows[0],
            rows[k - 1],
            cat,
        )
    }
}

/// One whole grid file for one category.
pub open spec fn matrix_file_spec(
    st: LoadState,
    al: Seq<(Seq<char>, Seq<char>)>,
    f: FileModel,
    cat: Category,
) -> LoadState {
    let rows = tokenized(f.1);
    matrix_rows(st, al, f.0, year_of_name(f.0), rows, cat, rows.len() as int)
}

/// The grid files `0 .. k`, in order.
pub open spec fn matrix_files_spec(
    st: LoadState,
    al: Seq<(Seq<char>, Seq<char>)>,
    files: Seq<FileModel>,
    cat: Category,
    k: int,
) -> LoadState
    decreases k,
{
    if k <= 0 {
        st
    } else {
        matrix_file_spec(matrix_files_spec(st, al, files, cat, k - 1), al, files[k - 1], cat)
    }
}

/// A grid row whose column count differs from the header's moves
/// the error list by exactly one entry and the table, and with it
/// the loaded counters, not at all.
pub proof fn lemma_matrix_row_mismatch(
    st: LoadState,
    al: Seq<(Seq<char>, Seq<char>)>,
    f: Seq<char>,
    year: u16,
    header: Seq<Seq<char>>,
    row: Seq<Seq<char>>,
    cat: Category,
)
    requires
        row.len() != header.len(),
    ensures
        matrix_row_step(st, al, f, year, header, row, cat).0 == st.0,
        matrix_row_step(st, al, f, year, header, row, cat).1 == st.1,
        matrix_row_step(st, al, f, year, header, row, cat).2 == st.2.push(
            (f, Seq::empty(), "Invalid line length"@),
        ),
{
}

/// Builds the failure message for an unparsable grid cell.
fn cell_error_string(tok: &String) -> (r: String)
    ensures
        r@ == cell_error_msg(tok@),
{
    let mut m = String::new();
    m.append("Invalid price value ");
    m.append(tok.as_str());
    m
}

impl PriceLoader {
    /// Loads every grid-format file of one category: row 0 names the
    /// exit stations, each further row an entry station and its
    /// prices; a row of the wrong width is recorded and skipped as a
    /// whole, an unparsable cell is recorded and skipped alone.
    pub fn load_matrix(&mut self, category: Category, files: &Vec<SourceFile>) -> (audit:
        PriceLoadAudit)
        requires
            old(self).prices.wf(),
        ensures
            final(self).prices.wf(),
            final(self).name_normalizer == old(self).name_normalizer,
            ({
                let st = matrix_files_spec(
                    (old(self).prices@, (0int, 0int), Seq::<ErrModel>::empty()),
                    old(self).name_normalizer@,
                    file_views(files@),
                    category,
                    files@.len() as int,
                );
                &&& final(self).prices@ == st.0
                &&& audit.loaded_cars as int == st.1.0
                &&& audit.loaded_motorcycles as int == st.1.1
                &&& errors_model(audit.error@) == st.2
            }),
    {
        let mut audit = PriceLoadAudit::new();
        let ghost st0 = (old(self).prices@, (0int, 0int), Seq::<ErrModel>::empty());
        let ghost al = self.name_normalizer@;
        let mut fi: usize = 0;
        proof {
            assert(errors_model(audit.error@) =~= Seq::<ErrModel>::empty());
        }
        while fi < files.len()
            invariant
                0 <= fi <= files@.len(),
                self.prices.wf(),
                self.name_normalizer == old(self).name_normalizer,
                al == old(self).name_normalizer@,
                st0 == (old(self).prices@, (0int, 0int), Seq::<ErrModel>::empty()),
                ({
                    let st = matrix_files_spec(st0, al, file_views(files@), category, fi as int);
                    &&& self.prices@ == st.0
                    &&& audit.loaded_cars as int == st.1.0
                    &&& audit.loaded_motorcycles as int == st.1.1
                    &&& errors_model(audit.error@) == st.2
                }),
            decreases files@.len() - fi,
        {
            let ghost st_file = matrix_files_spec(st0, al, file_views(files@), category, fi as int);
            let file = &files[fi];
            proof {
                assert(file_views(files@)[fi as int] == files@[fi as int].model());
            }
            let year = get_year(file.name.as_str());
            let rows = read_lines_tokens(&file.lines);
            let ghost rv = tokenized(views(file.lines@));
            proof {
                assert(rv.len() == rows@.len());
                assert forall|i: int| 0 <= i < rows@.len() implies views(#[trigger] rows@[i]@)
                    == rv[i] by {
                    assert(rv[i] == split_on(trim_spec(views(file.lines@)[i]), '\t'));
                    assert(views(file.lines@)[i] == file.lines@[i]@);
                }
            }
            if rows.len() > 0 {
                let mut row: usize = 1;
                while row < rows.len()
                    invariant
                        1 <= row <= rows@.len(),
                        self.prices.wf(),
                        self.name_normalizer == old(self).name_normalizer,
                        al == old(self).name_normalizer@,
                        rv == tokenized(views(file.lines@)),
                        rv.len() == rows@.len(),
                        forall|i: int|
                            0 <= i < rows@.len() ==> views(#[trigger] rows@[i]@) == rv[i],
                        year == year_of_name(file.name@),
                        ({
                            let st = matrix_rows(
                                st_file,
                                al,
                                file.name@,
                                year,
                                rv,
                                category,
                                row as int,
                            );
                            &&& self.prices@ == st.0
                            &&& audit.loaded_cars as int == st.1.0
                            &&& audit.loaded_motorcycles as int == st.1.1
                            &&& errors_model(audit.error@) == st.2
                        }),
                    decreases rows@.len() - row,
                {
                    let ghost st_row = matrix_rows(
                        st_file,
                        al,
                        file.name@,
                        year,
                        rv,
                        category,
                        row as int,
                    );
                    if rows[row].len() != rows[0].len() {
                        audit.error.push(
                            PriceLoadError {
                                file_name: file.name.clone(),
                                line: String::new(),
                                error: "Invalid line length".to_owned(),
                            },
                        );
                        proof {
                            assert(rv[row as int].len() != rv[0].len());
                            assert(errors_model(audit.error@) =~= st_row.2.push(
                                (file.name@, Seq::empty(), "Invalid line length"@),
                            ));
                        }
                    } else if rows[row].len() == 0 {
                        proof {
                            assert(rv[row as int].len() == 0);
                        }
                    } else {
                        proof {
                            assert(views(rows@[row as int]@)[0] == rows@[row as int]@[0]@);
                        }
                        let entry = self.name_normalizer.normalize(rows[row][0].as_str());
                        let mut col: usize = 1;
                        while col < rows[row].len()
                            invariant
                                1 <= col <= rows@[row as int]@.len(),
                                1 <= row < rows@.len(),
                                self.prices.wf(),
                                self.name_normalizer == old(self).name_normalizer,
                                al == old(self).name_normalizer@,
                                rv.len() == rows@.len(),
                                forall|i: int|
                                    0 <= i < rows@.len() ==> views(#[trigger] rows@[i]@) == rv[i],
                                rv[row as int].len() == rv[0].len(),
                                rv[row as int].len() > 0,
                                year == year_of_name(file.name@),
                                entry@ == normalize_spec(al, rv[row as int][0]),
                                ({
                                    let st = matrix_cells(
                                        st_row,
                                        al,
                                        file.name@,
                                        year,
                                        rv[0],
                                        rv[row as int],
                                        entry@,
                                        category,
                                        col as int,
                                    );
                                    &&& self.prices@ == st.0
                                    &&& audit.loaded_cars as int == st.1.0
                                    &&& audit.loaded_motorcycles as int == st.1.1
                                    &&& errors_model(audit.error@) == st.2
                                }),
                            decreases rows@[row as int]@.len() - col,
                        {
                            let ghost st_cell = matrix_cells(
                                st_row,
                                al,
                                file.name@,
                                year,
                                rv[0],
                                rv[row as int],
                                entry@,
                                category,
                                col as int,
                            );
                            proof {
                                assert(views(rows@[row as int]@)[col as int] == rows@[row
                                    as int]@[col as int]@);
                                assert(views(rows@[0]@)[col as int] == rows@[0]@[col as int]@);
                            }
                            let exit = self.name_normalizer.normalize(rows[0][col].as_str());
                            let pc = chars_of(rows[row][col].as_str());
                            let fixed = fix_commas(&pc);
                            match Currency::from_chars(&fixed) {
                                Ok(c) => {
                                    self.insert_price(
                                        &mut audit,
                                        file.name.as_str(),
                                        &entry,
                                        &exit,
                                        category,
                                        c,
                                        year,
                                    );
                                },
                                Err(_) => {
                                    audit.error.push(
                                        PriceLoadError {
                                            file_name: file.name.clone(),
                                            line: String::new(),
                                            error: cell_error_string(&rows[row][col]),
                                        },
                                    );
                                    proof {
                                        assert(errors_model(audit.error@) =~= st_cell.2.push(
                                            (file.name@, Seq::empty(), cell_error_msg(
                                                rv[row as int][col as int],
                                            )),
                                        ));
                                    }
                                },
                            }
                            col += 1;
                        }
                    }
                    row += 1;
                }
            }
            fi += 1;
        }
        audit
    }
}

} // verus!
