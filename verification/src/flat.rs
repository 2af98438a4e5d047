use vstd::prelude::*;
use vstd::string::StringExecFns;
use crate::audit::{PriceLoadAudit, PriceLoadError};
use crate::category::{cat_label, Category};
use crate::currency::{parse_currency, Currency};
use crate::loader::{
    comma_fixed, errors_model, file_views, fix_commas, get_year, ls_error, ls_insert, year_of_name,
    ErrModel, FileModel, LoadState, PriceLoader, SourceFile,
};
use crate::normalize::normalize_spec;
use crate::table::{KeyModel, Price, PriceKey};
use crate::text::{
    all_digits, chars_of, digits_val, find_char, find_char_vec, parse_u32_digits, rfind_char,
    split_on, subvec, tokenize_chars, tokenize_string, views,
};

verus! {

/// The column layout a flat file's name encodes: price year, then
/// 0-based column indices for entry station, exit station, car price
/// and motorcycle price.
pub struct FlatFileName {
    pub year: u16,
    pub entry_index: usize,
    pub exit_index: usize,
    pub car_index: usize,
    pub motorcycle_index: usize,
    pub file: String,
}

/// The mathematical content of a parsed flat file name.
pub type FlatMeta = (u16, int, int, int, int, Seq<char>);

impl FlatFileName {
    pub open spec fn model(self) -> FlatMeta {
        (
            self.year,
            self.entry_index as int,
            self.exit_index as int,
            self.car_index as int,
            self.motorcycle_index as int,
            self.file@,
        )
    }
}

/// A usable 1-based column index token: digits denoting 1 to 255.
pub open spec fn valid_index_token(t: Seq<char>) -> bool {
    t.len() >= 1 && all_digits(t) && 1 <= digits_val(t) <= 255
}

/// What a flat file name denotes, when well formed: the year from
/// its leading digits and four 0-based column indices, taken from the
/// comma-separated suffix after the first '-', with a trailing
/// ".extension" removed.
pub open spec fn flat_name_spec(s: Seq<char>) -> Option<(u16, int, int, int, int)> {
    let d = find_char(s, '-');
    if d == s.len() {
        None
    } else {
        let suffix = s.skip(d + 1);
        let r = rfind_char(suffix, '.');
        let stem = if r >= 0 {
            suffix.take(r)
        } else {
            suffix
        };
        let toks = split_on(stem, ',');
        if toks.len() == 4 && valid_index_token(toks[0]) && valid_index_token(toks[1])
            && valid_index_token(toks[2]) && valid_index_token(toks[3]) {
            Some(
                (
                    year_of_name(s),
                    digits_val(toks[0]) - 1,
                    digits_val(toks[1]) - 1,
                    digits_val(toks[2]) - 1,
                    digits_val(toks[3]) - 1,
                ),
            )
        } else {
            None
        }
    }
}

/// Parses one 1-based column index token.
fn parse_index(t: &String) -> (r: Option<u32>)
    ensures
        match r {
            Some(x) => valid_index_token(t@) && x == digits_val(t@),
            None => !valid_index_token(t@),
        },
{
    let c = chars_of(t.as_str());
    proof {
        assert(c@.subrange(0, c@.len() as int) =~= t@);
    }
    match parse_u32_digits(&c, 0, c.len()) {
        Some(x) => {
            if 1 <= x && x <= 255 {
                Some(x)
            } else {
                None
            }
        },
        None => None,
    }
}

impl FlatFileName {
    /// Parses a flat file name.  Fails exactly on names the naming
    /// convention does not cover: no dash, a suffix that does not
    /// split into four tokens, or a token that is not an index.
    pub fn new(file_name: &str) -> (r: Result<FlatFileName, String>)
        ensures
            match r {
                Ok(f) => flat_name_spec(file_name@) is Some && f.model() == (
                    flat_name_spec(file_name@).unwrap().0,
                    flat_name_spec(file_name@).unwrap().1,
                    flat_name_spec(file_name@).unwrap().2,
                    flat_name_spec(file_name@).unwrap().3,
                    flat_name_spec(file_name@).unwrap().4,
                    file_name@,
                ),
                Err(_) => flat_name_spec(file_name@) is None,
            },
    {
        let v = chars_of(file_name);
        let d = find_char_vec(&v, '-');
        if d == v.len() {
            return Err("Invalid file name".to_owned());
        }
        let suffix = subvec(&v, d + 1, v.len());
        proof {
            assert(suffix@ =~= v@.skip(d + 1));
        }
        let mut e: usize = suffix.len();
        proof {
            assert(suffix@.take(suffix@.len() as int) =~= suffix@);
        }
        while e > 0 && suffix[e - 1] != '.'
            invariant
                0 <= e <= suffix@.len(),
                rfind_char(suffix@, '.') == rfind_char(suffix@.take(e as int), '.'),
            decreases e,
        {
            proof {
                assert(suffix@.take(e as int).drop_last() =~= suffix@.take(e - 1));
            }
            e -= 1;
        }
        let stem = if e == 0 {
            proof {
                assert(suffix@.take(0) =~= Seq::<char>::empty());
                assert(rfind_char(suffix@, '.') == -1);
            }
            subvec(&suffix, 0, suffix.len())
        } else {
            proof {
                assert(suffix@.take(e as int).last() == suffix@[e - 1]);
                assert(rfind_char(suffix@, '.') == e - 1);
            }
            subvec(&suffix, 0, e - 1)
        };
        proof {
            let r = rfind_char(v@.skip(d + 1), '.');
            if r >= 0 {
                assert(stem@ =~= v@.skip(d + 1).take(r));
            } else {
                assert(stem@ =~= v@.skip(d + 1));
            }
        }
        let toks = tokenize_chars(&stem, ',');
        if toks.len() != 4 {
            return Err("Invalid file name".to_owned());
        }
        proof {
            assert(views(toks@)[0] == toks@[0]@);
            assert(views(toks@)[1] == toks@[1]@);
            assert(views(toks@)[2] == toks@[2]@);
            assert(views(toks@)[3] == toks@[3]@);
        }
        let i0 = match parse_index(&toks[0]) {
            Some(x) => x,
            None => {
                return Err("Invalid file name".to_owned());
            },
        };
        let i1 = match parse_index(&toks[1]) {
            Some(x) => x,
            None => {
                return Err("Invalid file name".to_owned());
            },
        };
        let i2 = match parse_index(&toks[2]) {
            Some(x) => x,
            None => {
                return Err("Invalid file name".to_owned());
            },
        };
        let i3 = match parse_index(&toks[3]) {
            Some(x) => x,
            None => {
                return Err("Invalid file name".to_owned());
            },
        };
        let year = get_year(file_name);
        Ok(
            FlatFileName {
                year,
                entry_index: (i0 - 1) as usize,
                exit_index: (i1 - 1) as usize,
                car_index: (i2 - 1) as usize,
                motorcycle_index: (i3 - 1) as usize,
                file: file_name.to_owned(),
            },
        )
    }
}

/// The price column a category reads in a flat file.
pub open spec fn flat_price_index(m: FlatMeta, cat: Category) -> int {
    if cat == Category::Car {
        m.3
    } else {
        m.4
    }
}

/// What one flat line yields for one category: the normalized
/// directed key and the price parsed from the category's column, or
/// nothing when a column is out of range or the price token does not
/// parse.
pub open spec fn flat_price_spec(
    al: Seq<(Seq<char>, Seq<char>)>,
    tokens: Seq<Seq<char>>,
    m: FlatMeta,
    cat: Category,
) -> Option<(KeyModel, Currency)> {
    let pix = flat_price_index(m, cat);
    if 0 <= m.1 < tokens.len() && 0 <= m.2 < tokens.len() && 0 <= pix < tokens.len() {
        match parse_currency(comma_fixed(tokens[pix])) {
            Some(c) => Some(
                ((normalize_spec(al, tokens[m.1]), normalize_spec(al, tokens[m.2]), cat), c),
            ),
            None => None,
        }
    } else {
        None
    }
}

/// The message recorded when a flat line fails for one category.
pub open spec fn flat_error_msg(line: Seq<char>, cat: Category) -> Seq<char> {
    "Invalid line "@ + line + " for "@ + cat_label(cat)
}

/// One category of one flat line: insert the price or record the
/// failure.
pub open spec fn flat_cell(
    st: LoadState,
    al: Seq<(Seq<char>, Seq<char>)>,
    tokens: Seq<Seq<char>>,
    m: FlatMeta,
    line: Seq<char>,
    cat: Category,
) -> LoadState {
    match flat_price_spec(al, tokens, m, cat) {
        Some((k, c)) => ls_insert(st, k, (c, m.0, m.5)),
        None => ls_error(st, (m.5, line, flat_error_msg(line, cat))),
    }
}

/// One flat data line: both categories, car first.
pub open spec fn flat_line_step(
    st: LoadState,
    al: Seq<(Seq<char>, Seq<char>)>,
    m: FlatMeta,
    line: Seq<char>,
) -> LoadState {
    let tokens = split_on(line, '\t');
    flat_cell(
        flat_cell(st, al, tokens, m, line, Category::Car),
        al,
        tokens,
        m,
        line,
        Category::Motorcycle,
    )
}

/// The data lines `1 .. k` of a flat file (line 0 is the header).
pub open spec fn flat_lines(
    st: LoadState,
    al: Seq<(Seq<char>, Seq<char>)>,
    m: FlatMeta,
    lines: Seq<Seq<char>>,
    k: int,
) -> LoadState
    decreases k,
{
    if k <= 1 {
        st
    } else {
        flat_line_step(flat_lines(st, al, m, lines, k - 1), al, m, lines[k - 1])
    }
}

/// One whole flat file: a malformed name fails the file with a
/// single error; otherwise every data line is read under the name's
/// column layout.
pub open spec fn flat_file_spec(
    st: LoadState,
    al: Seq<(Seq<char>, Seq<char>)>,
    f: FileModel,
) -> LoadState {
    match flat_name_spec(f.0) {
        None => ls_error(st, (f.0, Seq::empty(), "Invalid file name"@)),
        Some(m) => flat_lines(st, al, (m.0, m.1, m.2, m.3, m.4, f.0), f.1, f.1.len() as int),
    }
}

/// The flat files `0 .. k`, in order.
pub open spec fn flat_files_spec(
    st: LoadState,
    al: Seq<(Seq<char>, Seq<char>)>,
    files: Seq<FileModel>,
    k: int,
) -> LoadState
    decreases k,
{
    if k <= 0 {
        st
    } else {
        flat_file_spec(flat_files_spec(st, al, files, k - 1), al, files[k - 1])
    }
}

/// Builds the per-category failure message for a flat line.
fn flat_error_string(line: &String, cat: Category) -> (r: String)
    ensures
        r@ == flat_error_msg(line@, cat),
{
    let mut m = String::new();
    m.append("Invalid line ");
    m.append(line.as_str());
    m.append(" for ");
    m.append(cat.name());
    m
}

impl PriceLoader {
    /// What one flat line yields for one category, against this
    /// loader's normalizer.
    pub fn get_flat_price(
        &self,
        tokens: &Vec<String>,
        flat_file_name: &FlatFileName,
        category: Category,
    ) -> (r: Result<(PriceKey, Price), String>)
        ensures
            ({
                let spec = flat_price_spec(
                    self.name_normalizer@,
                    views(tokens@),
                    flat_file_name.model(),
                    category,
                );
                match r {
                    Ok(kp) => spec is Some && kp.0.model() == spec.unwrap().0 && kp.1.model() == (
                        spec.unwrap().1,
                        flat_file_name.year,
                        flat_file_name.file@,
                    ),
                    Err(_) => spec is None,
                }
            }),
    {
        let price_index = match category {
            Category::Car => flat_file_name.car_index,
            Category::Motorcycle => flat_file_name.motorcycle_index,
        };
        if flat_file_name.entry_index >= tokens.len() || flat_file_name.exit_index >= tokens.len()
            || price_index >= tokens.len() {
            return Err("Invalid column".to_owned());
        }
        proof {
            assert(views(tokens@)[flat_file_name.entry_index as int]
                == tokens@[flat_file_name.entry_index as int]@);
            assert(views(tokens@)[flat_file_name.exit_index as int]
                == tokens@[flat_file_name.exit_index as int]@);
            assert(views(tokens@)[price_index as int] == tokens@[price_index as int]@);
        }
        let entry = self.name_normalizer.normalize(tokens[flat_file_name.entry_index].as_str());
        let exit = self.name_normalizer.normalize(tokens[flat_file_name.exit_index].as_str());
        let pc = chars_of(tokens[price_index].as_str());
        let fixed = fix_commas(&pc);
        match Currency::from_chars(&fixed) {
            Ok(c) => {
                let key = PriceKey { entry, exit, category };
                let price = Price {
                    price: c,
                    year: flat_file_name.year,
                    file: flat_file_name.file.clone(),
                };
                Ok((key, price))
            },
            Err(_) => {
                let mut m = String::new();
                m.append("Invalid price value ");
                m.append(tokens[price_index].as_str());
                m.append(" for ");
                m.append(entry.as_str());
                Err(m)
            },
        }
    }

    /// Loads every flat-format file: for each file, the name gives
    /// the year and column layout; the first line is a header; every
    /// further line yields one price per category, each failure
    /// recorded and skipped.
    pub fn load_flat(&mut self, files: &Vec<SourceFile>) -> (audit: PriceLoadAudit)
        requires
            old(self).prices.wf(),
        ensures
            final(self).prices.wf(),
            final(self).name_normalizer == old(self).name_normalizer,
            ({
                let st = flat_files_spec(
                    (old(self).prices@, (0int, 0int), Seq::<ErrModel>::empty()),
                    old(self).name_normalizer@,
                    file_views(files@),
                    files@.len() as int,
                );
                &&& final(self).prices@ == st.0
                &&& audit.loaded_cars as int == st.1.0
                &&& audit.loaded_motorcycles as int == st.1.1
                &&& errors_model(audit.error@) == st.2
            }),
    {
        let mut audit = PriceLoadAudit::new();
        let ghost st0 = (old(self).prices@, (0int, 0int), Seq::<ErrModel>::empty());
        let ghost al = self.name_normalizer@;
        let mut fi: usize = 0;
        proof {
            assert(errors_model(audit.error@) =~= Seq::<ErrModel>::empty());
        }
        while fi < files.len()
            invariant
                0 <= fi <= files@.len(),
                self.prices.wf(),
                self.name_normalizer == old(self).name_normalizer,
                al == old(self).name_normalizer@,
                st0 == (old(self).prices@, (0int, 0int), Seq::<ErrModel>::empty()),
                ({
                    let st = flat_files_spec(st0, al, file_views(files@), fi as int);
                    &&& self.prices@ == st.0
                    &&& audit.loaded_cars as int == st.1.0
                    &&& audit.loaded_motorcycles as int == st.1.1
                    &&& errors_model(audit.error@) == st.2
                }),
            decreases files@.len() - fi,
        {
            let ghost st_file = flat_files_spec(st0, al, file_views(files@), fi as int);
            let file = &files[fi];
            proof {
                assert(file_views(files@)[fi as int] == files@[fi as int].model());
            }
            match FlatFileName::new(file.name.as_str()) {
                Err(_) => {
                    audit.error.push(
                        PriceLoadError {
                            file_name: file.name.clone(),
                            line: String::new(),
                            error: "Invalid file name".to_owned(),
                        },
                    );
                    proof {
                        assert(errors_model(audit.error@) =~= st_file.2.push(
                            (file.name@, Seq::empty(), "Invalid file name"@),
                        ));
                    }
                },
                Ok(ffn) => {
                    let ghost m = ffn.model();
                    let ghost lines = views(file.lines@);
                    let mut row: usize = 1;
                    while row < file.lines.len()
                        invariant
                            1 <= row <= file.lines@.len() || (file.lines@.len() < 1 && row == 1),
                            self.prices.wf(),
                            self.name_normalizer == old(self).name_normalizer,
                            al == old(self).name_normalizer@,
                            lines == views(file.lines@),
                            m == ffn.model(),
                            ffn.file@ == file.name@,
                            flat_name_spec(file.name@) == Some((m.0, m.1, m.2, m.3, m.4)),
                            ({
                                let st = flat_lines(st_file, al, m, lines, row as int);
                                &&& self.prices@ == st.0
                                &&& audit.loaded_cars as int == st.1.0
                                &&& audit.loaded_motorcycles as int == st.1.1
                                &&& errors_model(audit.error@) == st.2
                            }),
                        decreases file.lines@.len() - row,
                    {
                        let ghost st_row = flat_lines(st_file, al, m, lines, row as int);
                        let line = &file.lines[row];
                        let tokens = tokenize_string(line.as_str(), '\t');
                        proof {
                            assert(lines[row as int] == file.lines@[row as int]@);
                        }
                        match self.get_flat_price(&tokens, &ffn, Category::Car) {
                            Ok((key, p)) => {
                                self.insert_price(
                                    &mut audit,
                                    file.name.as_str(),
                                    &key.entry,
                                    &key.exit,
                                    Category::Car,
                                    p.price,
                                    p.year,
                                );
                            },
                            Err(_) => {
                                audit.error.push(
                                    PriceLoadError {
                                        file_name: file.name.clone(),
                                        line: line.clone(),
                                        error: flat_error_string(line, Category::Car),
                                    },
                                );
                                proof {
                                    assert(errors_model(audit.error@) =~= st_row.2.push(
                                        (m.5, lines[row as int], flat_error_msg(
                                            lines[row as int],
                                            Category::Car,
                                        )),
                                    ));
                                }
                            },
                        }
                        let ghost st_mid = flat_cell(
                            st_row,
                            al,
                            split_on(lines[row as int], '\t'),
                            m,
                            lines[row as int],
                            Category::Car,
                        );
                        match self.get_flat_price(&tokens, &ffn, Category::Motorcycle) {
                            Ok((key, p)) => {
                                self.insert_price(
                                    &mut audit,
                                    file.name.as_str(),
                                    &key.entry,
                                    &key.exit,
                                    Category::Motorcycle,
                                    p.price,
                                    p.year,
                                );
                            },
                            Err(_) => {
                                audit.error.push(
                                    PriceLoadError {
                                        file_name: file.name.clone(),
                                        line: line.clone(),
                                        error: flat_error_string(line, Category::Motorcycle),
                                    },
                                );
                                proof {
                                    assert(errors_model(audit.error@) =~= st_mid.2.push(
                                        (m.5, lines[row as int], flat_error_msg(
                                            lines[row as int],
                                            Category::Motorcycle,
                                        )),
                                    ));
                                }
                            },
                        }
                        row += 1;
                    }
                    proof {
                        if file.lines@.len() <= 1 {
                            assert(flat_lines(st_file, al, m, lines, lines.len() as int)
                                == st_file);
                        }
                        assert(flat_file_spec(st_file, al, files@[fi as int].model())
                            == flat_lines(st_file, al, m, lines, lines.len() as int));
                    }
                },
            }
            fi += 1;
        }
        audit
    }
}

} // verus!
