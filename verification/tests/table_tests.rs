use tollgrid::{Category, Currency, Price, PriceKey, PriceTable};

fn key(entry: &str, exit: &str, category: Category) -> PriceKey {
    PriceKey { entry: entry.to_string(), exit: exit.to_string(), category }
}

fn price(hundredths: u32, year: u16, file: &str) -> Price {
    Price { price: Currency::from_hundredths(hundredths), year, file: file.to_string() }
}

#[test]
fn insert_is_idempotent_for_identical_entry() {
    let mut t = PriceTable::new();
    t.insert(key("A", "B", Category::Car), price(150, 2020, "f"));
    assert_eq!(t.len(), 1);
    t.insert(key("A", "B", Category::Car), price(150, 2020, "f"));
    assert_eq!(t.len(), 1);
    let p = t.get(&key("A", "B", Category::Car)).unwrap();
    assert_eq!(p.price, Currency::from_hundredths(150));
    assert_eq!(p.year, 2020);
}

#[test]
fn newer_year_wins_in_either_order() {
    let mut early = PriceTable::new();
    early.insert(key("A", "B", Category::Car), price(100, 2019, "old"));
    early.insert(key("A", "B", Category::Car), price(200, 2021, "new"));
    let p = early.get(&key("A", "B", Category::Car)).unwrap();
    assert_eq!(p.price, Currency::from_hundredths(200));
    assert_eq!(p.year, 2021);

    let mut late = PriceTable::new();
    late.insert(key("A", "B", Category::Car), price(200, 2021, "new"));
    late.insert(key("A", "B", Category::Car), price(100, 2019, "old"));
    let q = late.get(&key("A", "B", Category::Car)).unwrap();
    assert_eq!(q.price, Currency::from_hundredths(200));
    assert_eq!(q.year, 2021);
    assert_eq!(late.len(), 1);
}

#[test]
fn equal_year_later_insert_wins() {
    let mut t = PriceTable::new();
    t.insert(key("A", "B", Category::Car), price(100, 2020, "first"));
    t.insert(key("A", "B", Category::Car), price(300, 2020, "second"));
    let p = t.get(&key("A", "B", Category::Car)).unwrap();
    assert_eq!(p.price, Currency::from_hundredths(300));
    assert_eq!(p.file, "second");
}

#[test]
fn direction_and_category_are_distinct_keys() {
    let mut t = PriceTable::new();
    t.insert(key("A", "B", Category::Car), price(100, 2020, "f"));
    t.insert(key("B", "A", Category::Car), price(200, 2020, "f"));
    t.insert(key("A", "B", Category::Motorcycle), price(300, 2020, "f"));
    assert_eq!(t.len(), 3);
    assert_eq!(
        t.get(&key("A", "B", Category::Car)).unwrap().price,
        Currency::from_hundredths(100)
    );
    assert_eq!(
        t.get(&key("B", "A", Category::Car)).unwrap().price,
        Currency::from_hundredths(200)
    );
    assert_eq!(
        t.get(&key("A", "B", Category::Motorcycle)).unwrap().price,
        Currency::from_hundredths(300)
    );
    assert!(t.get(&key("B", "A", Category::Motorcycle)).is_none());
}

#[test]
fn both_categories_in_loader_order() {
    let cats = Category::all();
    assert_eq!(cats, vec![Category::Car, Category::Motorcycle]);
}

#[test]
fn symmetric_pair_insertion_leaves_equal_values() {
    let mut t = PriceTable::new();
    t.insert(key("I", "J", Category::Car), price(450, 2020, "tri"));
    t.insert(key("J", "I", Category::Car), price(450, 2020, "tri"));
    let a = t.get(&key("I", "J", Category::Car)).unwrap().price;
    let b = t.get(&key("J", "I", Category::Car)).unwrap().price;
    assert_eq!(a, b);
    assert_eq!(a, Currency::from_hundredths(450));
}
