use tollgrid::{
    Category, Currency, NameNormalizer, Price, PriceKey, PriceLoader, PriceService, PriceTable,
    Section, Toll,
};

fn key(entry: &str, exit: &str, category: Category) -> PriceKey {
    PriceKey { entry: entry.to_string(), exit: exit.to_string(), category }
}

fn price(hundredths: u32, year: u16, file: &str) -> Price {
    Price { price: Currency::from_hundredths(hundredths), year, file: file.to_string() }
}

fn service_with(entries: Vec<(PriceKey, Price)>) -> PriceService {
    let mut table = PriceTable::new();
    for (k, p) in entries {
        table.insert(k, p);
    }
    PriceService::from_loader(PriceLoader {
        name_normalizer: NameNormalizer::from_lines(&Vec::new()),
        prices: table,
    })
}

fn sections(ids: &[&str]) -> Vec<Section> {
    ids.iter().map(|s| Section { section_id: s.to_string() }).collect()
}

#[test]
fn empty_table_yields_zero_grid_and_not_found_counts() {
    let service = service_with(Vec::new());
    let secs = sections(&["A", "B"]);
    let (matrix, audit) = service.build_matrix_category(&secs, Category::Car, 2024);
    assert_eq!(matrix.matrix_prices.len(), 2);
    for row in &matrix.matrix_prices {
        assert_eq!(row.len(), 2);
        for cell in row {
            assert_eq!(*cell, Currency::zero());
        }
    }
    assert_eq!(audit.not_found, 2);
    assert_eq!(audit.found, 0);
    assert_eq!(audit.obsolete, 0);
}

#[test]
fn obsolete_price_counts_and_file_listed_once() {
    let service = service_with(vec![
        (key("A", "B", Category::Car), price(100, 2022, "old.tsv")),
        (key("B", "A", Category::Car), price(100, 2022, "old.tsv")),
    ]);
    let secs = sections(&["A", "B"]);
    let (_, audit) = service.build_matrix_category(&secs, Category::Car, 2024);
    assert_eq!(audit.found, 2);
    assert_eq!(audit.obsolete, 2);
    assert_eq!(audit.not_found, 0);
    assert_eq!(audit.obsolete_files, vec!["old.tsv".to_string()]);
}

#[test]
fn current_year_price_is_not_obsolete() {
    let service = service_with(vec![(key("A", "B", Category::Car), price(100, 2024, "f"))]);
    let secs = sections(&["A", "B"]);
    let (matrix, audit) = service.build_matrix_category(&secs, Category::Car, 2024);
    assert_eq!(audit.found, 1);
    assert_eq!(audit.obsolete, 0);
    assert_eq!(audit.not_found, 1);
    assert_eq!(matrix.matrix_prices[0][1], Currency::from_hundredths(100));
    assert_eq!(matrix.matrix_prices[0][0], Currency::zero());
    assert_eq!(matrix.matrix_prices[1][0], Currency::zero());
}

#[test]
fn matrix_names_and_vehicle_lists_are_fixed() {
    let service = service_with(Vec::new());
    let secs = sections(&[]);
    let (car, _) = service.build_matrix_category(&secs, Category::Car, 2024);
    assert_eq!(car.friendly_name, "Car");
    assert_eq!(car.permit_id, "");
    assert_eq!(car.limit_to_vehicles, vec!["PRIVATE", "TAXI", "EV"]);
    let (moto, _) = service.build_matrix_category(&secs, Category::Motorcycle, 2024);
    assert_eq!(moto.friendly_name, "Motorcycle");
    assert_eq!(moto.limit_to_vehicles, vec!["MOTORCYCLE"]);
}

#[test]
fn section_ids_are_normalized_before_lookup() {
    let service = service_with(vec![(key("SAINT JEAN", "B", Category::Car), price(70, 2024, "f"))]);
    let secs = sections(&["Saint-Jean", "b"]);
    let (matrix, audit) = service.build_matrix_category(&secs, Category::Car, 2024);
    assert_eq!(matrix.matrix_prices[0][1], Currency::from_hundredths(70));
    assert_eq!(audit.found, 1);
}

#[test]
fn toll_with_matching_rules_gets_both_matrices() {
    let service = service_with(vec![(key("A", "B", Category::Car), price(100, 2024, "f"))]);
    let mut toll = Toll {
        toll_id: "t1".to_string(),
        rules: vec!["entry_exit_price".to_string()],
        entry_exit_matrix: Vec::new(),
        sections: sections(&["A", "B"]),
    };
    let audits = service.update_toll_matrix_at(&mut toll, 2024);
    assert!(audits.is_some());
    assert_eq!(toll.entry_exit_matrix.len(), 2);
    assert_eq!(toll.entry_exit_matrix[0].friendly_name, "Car");
    assert_eq!(toll.entry_exit_matrix[1].friendly_name, "Motorcycle");
    assert_eq!(
        toll.entry_exit_matrix[0].matrix_prices[0][1],
        Currency::from_hundredths(100)
    );
    let (car_audit, moto_audit) = audits.unwrap();
    assert_eq!(car_audit.found, 1);
    assert_eq!(moto_audit.found, 0);
    assert_eq!(moto_audit.not_found, 2);
}

#[test]
fn toll_with_other_rules_is_left_untouched() {
    let service = service_with(Vec::new());
    let mut toll = Toll {
        toll_id: "t2".to_string(),
        rules: vec!["something_else".to_string()],
        entry_exit_matrix: Vec::new(),
        sections: sections(&["A"]),
    };
    assert!(service.update_toll_matrix_at(&mut toll, 2024).is_none());
    assert_eq!(toll.entry_exit_matrix.len(), 0);
    let mut toll2 = Toll {
        toll_id: "t3".to_string(),
        rules: vec!["entry_exit_price".to_string(), "extra".to_string()],
        entry_exit_matrix: Vec::new(),
        sections: sections(&["A"]),
    };
    assert!(service.update_toll_matrix_at(&mut toll2, 2024).is_none());
    assert_eq!(toll2.entry_exit_matrix.len(), 0);
}

#[test]
fn get_prices_filters_by_entry_substring() {
    let service = service_with(vec![
        (key("PARIS NORD", "LYON", Category::Car), price(100, 2024, "f")),
        (key("PARIS SUD", "DIJON", Category::Car), price(200, 2024, "f")),
        (key("NANTES", "BREST", Category::Car), price(300, 2024, "f")),
    ]);
    let found = service.get_prices("PARIS");
    assert_eq!(found.len(), 2);
    assert_eq!(found[0].0, "LYON");
    assert_eq!(found[0].1, Currency::from_hundredths(100));
    assert_eq!(found[1].0, "DIJON");
    let none = service.get_prices("MARSEILLE");
    assert!(none.is_empty());
}

#[test]
fn get_station_deduplicates_entries() {
    let service = service_with(vec![
        (key("PARIS NORD", "LYON", Category::Car), price(100, 2024, "f")),
        (key("PARIS NORD", "DIJON", Category::Car), price(200, 2024, "f")),
        (key("PARIS SUD", "LYON", Category::Car), price(300, 2024, "f")),
    ]);
    let stations = service.get_station("paris");
    assert_eq!(stations, vec!["PARIS NORD".to_string(), "PARIS SUD".to_string()]);
    assert_eq!(service.price_count(), 3);
}
