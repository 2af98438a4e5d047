use tollgrid::NameNormalizer;
use tollgrid::text::{get_folder, read_lines_tokens, remove_suffix, tokenize_string};

#[test]
fn simple_normalize() {
    let name_normalizer = NameNormalizer::from_lines(&Vec::new());
    assert_eq!("CHATEAU RENAULT", name_normalizer.normalize("CHATEAU-RENAULT"));
}

#[test]
fn normalize_uppercases() {
    let n = NameNormalizer::from_lines(&Vec::new());
    assert_eq!("A", n.normalize("a"));
    assert_eq!("PARIS NORD", n.normalize("Paris - Nord"));
}

#[test]
fn alias_variants_share_one_canonical_name() {
    let lines = vec!["CHATEAU RENAULT,CHATEAU-RENAULT".to_string()];
    let n = NameNormalizer::from_lines(&lines);
    let a = n.normalize("Chateau - Renault");
    let b = n.normalize("CHATEAU/RENAULT");
    assert_eq!(a, b);
    assert_eq!(a, "CHATEAU-RENAULT");
}

#[test]
fn alias_line_with_wrong_column_count_is_skipped() {
    let lines = vec![
        "just one column".to_string(),
        "A,B,C".to_string(),
        "KEY,VALUE".to_string(),
    ];
    let n = NameNormalizer::from_lines(&lines);
    assert_eq!("VALUE", n.normalize("key"));
    assert_eq!("JUST ONE COLUMN", n.normalize("just one column"));
}

#[test]
fn later_alias_line_replaces_earlier() {
    let lines = vec!["K,FIRST".to_string(), "K,SECOND".to_string()];
    let n = NameNormalizer::from_lines(&lines);
    assert_eq!("SECOND", n.normalize("k"));
}

#[test]
fn separators_become_spaces() {
    let n = NameNormalizer::from_lines(&Vec::new());
    assert_eq!("L ARBRESLE", n.normalize("l'arbresle"));
    assert_eq!("A B", n.normalize("a / b"));
    assert_eq!("A B", n.normalize("a/b"));
}

#[test]
fn tokenize_string_splits_on_separator() {
    let toks = tokenize_string("a\tb\t\tc", '\t');
    assert_eq!(toks, vec!["a", "b", "", "c"]);
    let toks2 = tokenize_string("", ',');
    assert_eq!(toks2, vec![""]);
}

#[test]
fn read_lines_tokens_trims_and_splits() {
    let lines = vec!["  a\tb \n".to_string(), "c".to_string()];
    let rows = read_lines_tokens(&lines);
    assert_eq!(rows.len(), 2);
    assert_eq!(rows[0], vec!["a", "b"]);
    assert_eq!(rows[1], vec!["c"]);
}

#[test]
fn remove_suffix_strips_once() {
    assert_eq!(remove_suffix("service.json", ".json"), "service");
    assert_eq!(remove_suffix("service.txt", ".json"), "service.txt");
    assert_eq!(remove_suffix("x", "longer-than-input"), "x");
}

#[test]
fn get_folder_takes_parent() {
    assert_eq!(get_folder("a/b/c.txt"), "a/b");
    assert_eq!(get_folder("c.txt"), "");
}
