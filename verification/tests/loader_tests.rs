use tollgrid::loader::get_year;
use tollgrid::{
    Category, Currency, FlatFileName, NameNormalizer, PriceKey, PriceLoader, PriceTable,
    SourceFile,
};

fn fresh_loader() -> PriceLoader {
    PriceLoader {
        name_normalizer: NameNormalizer::from_lines(&Vec::new()),
        prices: PriceTable::new(),
    }
}

fn file(name: &str, lines: &[&str]) -> SourceFile {
    SourceFile {
        name: name.to_string(),
        lines: lines.iter().map(|l| l.to_string()).collect(),
    }
}

fn key(entry: &str, exit: &str, category: Category) -> PriceKey {
    PriceKey { entry: entry.to_string(), exit: exit.to_string(), category }
}

#[test]
fn get_year_reads_leading_digits() {
    assert_eq!(get_year("2020_X-1,2,4,8.tsv"), 2020);
    assert_eq!(get_year("1999rest"), 1999);
    assert_eq!(get_year("noyear.tsv"), 0);
    assert_eq!(get_year("20"), 0);
}

#[test]
fn flat_file_name_parses_indices() {
    let f = FlatFileName::new("2020_X-1,2,4,8.ext").unwrap();
    assert_eq!(f.year, 2020);
    assert_eq!(f.entry_index, 0);
    assert_eq!(f.exit_index, 1);
    assert_eq!(f.car_index, 3);
    assert_eq!(f.motorcycle_index, 7);
    assert_eq!(f.file, "2020_X-1,2,4,8.ext");
}

#[test]
fn flat_file_name_rejects_malformed_names() {
    assert!(FlatFileName::new("nodash.tsv").is_err());
    assert!(FlatFileName::new("2020_X-1,2,4.tsv").is_err());
    assert!(FlatFileName::new("2020_X-1,2,4,8,9.tsv").is_err());
    assert!(FlatFileName::new("2020_X-1,2,a,8.tsv").is_err());
    assert!(FlatFileName::new("2020_X-1,2,0,8.tsv").is_err());
}

#[test]
fn flat_scenario_inserts_both_categories() {
    let mut loader = fresh_loader();
    let files = vec![file(
        "2020_X-1,2,4,8.ext",
        &[
            "entry\texit\tskip\tcar\tskip\tskip\tskip\tmoto",
            "A\tB\tx\t1,50\tx\tx\tx\t2,00",
        ],
    )];
    let audit = loader.load_flat(&files);
    assert_eq!(audit.loaded_cars, 1);
    assert_eq!(audit.loaded_motorcycles, 1);
    assert_eq!(audit.error.len(), 0);
    let car = loader.prices.get(&key("A", "B", Category::Car)).unwrap();
    assert_eq!(car.price, Currency::from_hundredths(150));
    assert_eq!(car.year, 2020);
    let moto = loader.prices.get(&key("A", "B", Category::Motorcycle)).unwrap();
    assert_eq!(moto.price, Currency::from_hundredths(200));
    assert_eq!(moto.year, 2020);
}

#[test]
fn flat_bad_price_records_error_for_that_category() {
    let mut loader = fresh_loader();
    let files = vec![file(
        "2021_Y-1,2,3,4.tsv",
        &["h\th\th\th", "A\tB\tbadprice\t2,00"],
    )];
    let audit = loader.load_flat(&files);
    assert_eq!(audit.loaded_cars, 0);
    assert_eq!(audit.loaded_motorcycles, 1);
    assert_eq!(audit.error.len(), 1);
    assert_eq!(audit.error[0].file_name, "2021_Y-1,2,3,4.tsv");
    assert!(loader.prices.get(&key("A", "B", Category::Car)).is_none());
    assert!(loader.prices.get(&key("A", "B", Category::Motorcycle)).is_some());
}

#[test]
fn flat_malformed_file_name_fails_whole_file() {
    let mut loader = fresh_loader();
    let files = vec![file("withoutdash.tsv", &["h", "A\tB\t1\t2"])];
    let audit = loader.load_flat(&files);
    assert_eq!(audit.error.len(), 1);
    assert_eq!(audit.loaded_cars, 0);
    assert_eq!(loader.prices.len(), 0);
}

#[test]
fn matrix_loads_directed_cells() {
    let mut loader = fresh_loader();
    let files = vec![file("2020_grid.tsv", &["corner\tX\tY", "A\t1,00\t2,50", "B\t3\t4,2"])];
    let audit = loader.load_matrix(Category::Car, &files);
    assert_eq!(audit.loaded_cars, 4);
    assert_eq!(audit.error.len(), 0);
    let ax = loader.prices.get(&key("A", "X", Category::Car)).unwrap();
    assert_eq!(ax.price, Currency::from_hundredths(100));
    assert_eq!(ax.year, 2020);
    let ay = loader.prices.get(&key("A", "Y", Category::Car)).unwrap();
    assert_eq!(ay.price, Currency::from_hundredths(250));
    let bx = loader.prices.get(&key("B", "X", Category::Car)).unwrap();
    assert_eq!(bx.price, Currency::from_hundredths(300));
    let by = loader.prices.get(&key("B", "Y", Category::Car)).unwrap();
    assert_eq!(by.price, Currency::from_hundredths(420));
    assert!(loader.prices.get(&key("X", "A", Category::Car)).is_none());
}

#[test]
fn matrix_row_of_wrong_width_adds_one_error_and_no_prices() {
    let mut loader = fresh_loader();
    let files = vec![file("2020_grid.tsv", &["corner\tX\tY", "A\t1,00"])];
    let audit = loader.load_matrix(Category::Car, &files);
    assert_eq!(audit.error.len(), 1);
    assert_eq!(audit.error[0].error, "Invalid line length");
    assert_eq!(audit.loaded_cars, 0);
    assert_eq!(loader.prices.len(), 0);
}

#[test]
fn triangle_inserts_both_directions() {
    let mut loader = fresh_loader();
    // Row 0 names I; row 1 holds the I-J price and names J.
    let files = vec![file("2019_tri.tsv", &["I", "4,50\tJ"])];
    let audit = loader.load_triangles(Category::Car, &files);
    assert_eq!(audit.loaded_cars, 2);
    assert_eq!(audit.error.len(), 0);
    let ij = loader.prices.get(&key("I", "J", Category::Car)).unwrap();
    let ji = loader.prices.get(&key("J", "I", Category::Car)).unwrap();
    assert_eq!(ij.price, ji.price);
    assert_eq!(ij.price, Currency::from_hundredths(450));
    assert_eq!(ij.year, 2019);
}

#[test]
fn triangle_bad_cell_records_error_and_continues() {
    let mut loader = fresh_loader();
    let files = vec![file("2019_tri.tsv", &["I", "oops\tJ", "1,00\t2,00\tK"])];
    let audit = loader.load_triangles(Category::Car, &files);
    assert_eq!(audit.error.len(), 1);
    // The I-K and J-K pairs still load, both directions each.
    assert_eq!(audit.loaded_cars, 4);
    assert!(loader.prices.get(&key("I", "K", Category::Car)).is_some());
    assert!(loader.prices.get(&key("K", "I", Category::Car)).is_some());
    assert!(loader.prices.get(&key("J", "K", Category::Car)).is_some());
    assert!(loader.prices.get(&key("K", "J", Category::Car)).is_some());
    assert!(loader.prices.get(&key("I", "J", Category::Car)).is_none());
}

#[test]
fn load_prices_runs_all_loaders_and_merges_audits() {
    let mut loader = fresh_loader();
    let flat = vec![file("2020_X-1,2,3,4.tsv", &["h\th\th\th", "A\tB\t1,00\t2,00"])];
    let matrix_car = vec![file("2021_m.tsv", &["c\tB", "A\t3,00"])];
    let matrix_moto: Vec<SourceFile> = Vec::new();
    let tri_car: Vec<SourceFile> = Vec::new();
    let tri_moto = vec![file("2019_t.tsv", &["A", "9,99\tB"])];
    let audit = loader.load_prices(&flat, &matrix_car, &matrix_moto, &tri_car, &tri_moto);
    // Flat inserts one car and one motorcycle price; the 2021 matrix
    // overwrites the car price (counted again); the 2019 triangle is
    // older than the stored 2020 A->B motorcycle price, so only the
    // missing B->A direction inserts.
    assert_eq!(audit.loaded_cars, 2);
    assert_eq!(audit.loaded_motorcycles, 2);
    assert_eq!(audit.error.len(), 0);
    let car = loader.prices.get(&key("A", "B", Category::Car)).unwrap();
    assert_eq!(car.price, Currency::from_hundredths(300));
    assert_eq!(car.year, 2021);
    let moto = loader.prices.get(&key("A", "B", Category::Motorcycle)).unwrap();
    assert_eq!(moto.price, Currency::from_hundredths(200));
    assert_eq!(moto.year, 2020);
    let back = loader.prices.get(&key("B", "A", Category::Motorcycle)).unwrap();
    assert_eq!(back.price, Currency::from_hundredths(999));
    assert_eq!(back.year, 2019);
}

#[test]
fn audit_summary_renders_counts_and_errors() {
    let mut loader = fresh_loader();
    let files = vec![file(
        "2021_Y-1,2,3,4.tsv",
        &["h\th\th\th", "A\tB\tbad\t2,00"],
    )];
    let audit = loader.load_flat(&files);
    assert_eq!(
        audit.summary(),
        "Loaded 0 cars and 1 motorcycles\nErrors:\n\t2021_Y-1,2,3,4.tsv:A\tB\tbad\t2,00: Invalid line A\tB\tbad\t2,00 for Car"
    );
    let empty = tollgrid::PriceLoadAudit::new();
    assert_eq!(empty.summary(), "Loaded 0 cars and 0 motorcycles");
}

#[test]
fn price_service_new_runs_full_pipeline() {
    let alias_lines = vec!["A,ALPHA".to_string()];
    let flat = vec![file("2020_X-1,2,3,4.tsv", &["h\th\th\th", "a\tB\t1,00\t2,00"])];
    let empty: Vec<SourceFile> = Vec::new();
    let (service, audit) =
        tollgrid::PriceService::new(&alias_lines, &flat, &empty, &empty, &empty, &empty);
    assert_eq!(audit.loaded_cars, 1);
    assert_eq!(audit.loaded_motorcycles, 1);
    assert_eq!(service.price_count(), 2);
    // The entry "a" normalizes through the alias table to ALPHA.
    let found = service.get_prices("ALPHA");
    assert_eq!(found.len(), 2);
}

#[test]
fn insert_price_applies_recency_rule() {
    let mut loader = fresh_loader();
    let mut audit = tollgrid::PriceLoadAudit::new();
    let a = "A".to_string();
    let b = "B".to_string();
    loader.insert_price(
        &mut audit,
        "new.tsv",
        &a,
        &b,
        Category::Car,
        Currency::from_hundredths(100),
        2021,
    );
    loader.insert_price(
        &mut audit,
        "old.tsv",
        &a,
        &b,
        Category::Car,
        Currency::from_hundredths(999),
        2019,
    );
    assert_eq!(audit.loaded_cars, 1);
    let p = loader.prices.get(&key("A", "B", Category::Car)).unwrap();
    assert_eq!(p.price, Currency::from_hundredths(100));
    assert_eq!(p.file, "new.tsv");
}
