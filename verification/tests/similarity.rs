use img_similarity::algorithm::HashingType;
use img_similarity::hamming::distance;
use img_similarity::hash_table::calculate_hashes;
use img_similarity::hash_table::collect_scan;
use img_similarity::hash_table::DirectoryReadError;
use img_similarity::hash_table::HashTable;
use img_similarity::similarity::calculate_similarity;
use img_similarity::similarity::LookupError;
use img_similarity::similarity::SimilarityAnalyzer;

fn outcome(name: &str, hash: Option<u64>) -> (String, Option<u64>) {
    (name.to_string(), hash)
}

fn three_image_table() -> HashTable {
    calculate_hashes(&vec![
        outcome("a.png", Some(0b0000)),
        outcome("b.png", Some(0b0011)),
        outcome("c.png", Some(0b0111)),
    ])
}

#[test]
fn hamming_laws_concrete() {
    assert_eq!(distance(0b1011, 0b0001), 2);
    assert_eq!(distance(0b0001, 0b1011), distance(0b1011, 0b0001));
    assert_eq!(distance(0xDEAD_BEEF, 0xDEAD_BEEF), 0);
    assert_eq!(distance(0, u64::MAX), 64);
}

#[test]
fn empty_scan_yields_empty_tables() {
    let table = calculate_hashes(&Vec::new());
    assert_eq!(table.len(), 0);
    let similarity = calculate_similarity(&table);
    assert_eq!(similarity.len(), 0);
}

#[test]
fn single_image_insufficient() {
    let table = calculate_hashes(&vec![outcome("only.png", Some(17))]);
    assert_eq!(table.len(), 1);
    let similarity = calculate_similarity(&table);
    assert_eq!(similarity.len(), 0);
}

#[test]
fn corrupt_file_dropped() {
    let table = calculate_hashes(&vec![
        outcome("a.png", Some(1)),
        outcome("broken.txt", None),
        outcome("b.png", Some(2)),
        outcome("c.png", Some(4)),
    ]);
    assert_eq!(table.len(), 3);
    assert!(!table.contains_key(&"broken.txt".to_string()));
    let similarity = calculate_similarity(&table);
    assert_eq!(similarity.len(), 3);
}

#[test]
fn first_outcome_wins() {
    let table = calculate_hashes(&vec![
        outcome("dup.png", Some(10)),
        outcome("dup.png", Some(20)),
    ]);
    assert_eq!(table.len(), 1);
    assert_eq!(table.key_at(0).as_str(), "dup.png");
    assert_eq!(table.hash_at(0), 10);
}

#[test]
fn similarity_rows_ranked() {
    let similarity = calculate_similarity(&three_image_table());
    assert_eq!(similarity.len(), 3);
    assert_eq!(similarity.key_at(0).as_str(), "a.png");
    assert_eq!(similarity.key_at(1).as_str(), "b.png");
    assert_eq!(similarity.key_at(2).as_str(), "c.png");
    // Distances: a-b = 2, a-c = 3, b-c = 1.
    let row_a = similarity.row_at(0);
    assert_eq!(row_a.len(), 3);
    assert_eq!(row_a[0], ("a.png".to_string(), 0));
    assert_eq!(row_a[1], ("b.png".to_string(), 2));
    assert_eq!(row_a[2], ("c.png".to_string(), 3));
    let row_b = similarity.row_at(1);
    assert_eq!(row_b[0], ("b.png".to_string(), 0));
    assert_eq!(row_b[1], ("c.png".to_string(), 1));
    assert_eq!(row_b[2], ("a.png".to_string(), 2));
    let row_c = similarity.row_at(2);
    assert_eq!(row_c[0], ("c.png".to_string(), 0));
    assert_eq!(row_c[1], ("b.png".to_string(), 1));
    assert_eq!(row_c[2], ("a.png".to_string(), 3));
}

#[test]
fn equal_distances_keep_table_order() {
    let table = calculate_hashes(&vec![
        outcome("a.png", Some(0b00)),
        outcome("b.png", Some(0b01)),
        outcome("c.png", Some(0b10)),
    ]);
    let similarity = calculate_similarity(&table);
    // b and c are both one bit away from a; the tie keeps table order.
    let row_a = similarity.row_at(0);
    assert_eq!(row_a[0], ("a.png".to_string(), 0));
    assert_eq!(row_a[1], ("b.png".to_string(), 1));
    assert_eq!(row_a[2], ("c.png".to_string(), 1));
}

#[test]
fn lookup_present_and_missing() {
    let analyzer = SimilarityAnalyzer::new(&three_image_table());
    let row = analyzer
        .get_one_file_similarity(&"b.png".to_string())
        .unwrap();
    assert_eq!(row[0], ("b.png".to_string(), 0));
    let missing = analyzer.get_one_file_similarity(&"zzz.png".to_string());
    assert_eq!(missing, Err(LookupError::PathNotFound));
}

#[test]
fn unreadable_directory_is_distinct_from_empty() {
    assert!(matches!(
        collect_scan(None),
        Err(DirectoryReadError::Unlistable)
    ));
    let outcomes: Vec<(String, Option<u64>)> = Vec::new();
    let table = collect_scan(Some(&outcomes)).unwrap();
    assert_eq!(table.len(), 0);
}

#[test]
fn from_index_selects() {
    assert_eq!(HashingType::from_index(0), Some(HashingType::DHash));
    assert_eq!(HashingType::from_index(1), Some(HashingType::PHash));
    assert_eq!(HashingType::from_index(2), None);
}

#[test]
fn algorithm_labels() {
    assert_eq!(HashingType::DHash.label(), "dHash");
    assert_eq!(HashingType::PHash.label(), "pHash");
}
