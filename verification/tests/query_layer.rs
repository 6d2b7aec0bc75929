use openrank_api::catalog::Catalog;
use openrank_api::data::Category;
use openrank_api::data::DatasetRecord;
use openrank_api::data::ScoreEntry;
use openrank_api::data::scope_field_name;
use openrank_api::store::CategoryStore;

fn entry(id: &str, value: f64) -> ScoreEntry {
    ScoreEntry { id: id.to_string(), value_bits: value.to_bits() }
}

fn discord_general() -> DatasetRecord {
    DatasetRecord {
        category: "discord".to_string(),
        scope_id: "1100000000000000000".to_string(),
        seed: vec![entry("seed-a", 1.0), entry("seed-b", 0.5)],
        scores: vec![entry("a", 3.0), entry("b", 2.0), entry("c", 1.0)],
    }
}

fn sample_catalog() -> Catalog {
    let mut discord = CategoryStore::new();
    discord.insert("general".to_string(), discord_general());
    Catalog {
        discord,
        github: CategoryStore::new(),
        telegram: CategoryStore::new(),
        x: CategoryStore::new(),
    }
}

fn ids_and_values(page: &[ScoreEntry]) -> Vec<(String, f64)> {
    page.iter().map(|e| (e.id.clone(), f64::from_bits(e.value_bits))).collect()
}

#[test]
fn absent_name_returns_not_found_for_all_ops() {
    let catalog = sample_catalog();
    let missing = "missing".to_string();
    assert!(catalog.get_file(Category::Discord, &missing).is_none());
    assert!(catalog.get_seed(Category::Discord, &missing).is_none());
    assert!(catalog.get_scope_id(Category::Discord, &missing).is_none());
    assert!(catalog.get_scores(Category::Discord, &missing, None, None).is_none());
    // A name loaded in one category is still absent from the others.
    let general = "general".to_string();
    assert!(catalog.get_file(Category::Github, &general).is_none());
    assert!(catalog.get_seed(Category::Telegram, &general).is_none());
    assert!(catalog.get_scope_id(Category::X, &general).is_none());
    assert!(catalog.get_scores(Category::Github, &general, Some(0), Some(1)).is_none());
}

#[test]
fn full_scores_returned_when_window_omitted() {
    let catalog = sample_catalog();
    let general = "general".to_string();
    let expected = vec![
        ("a".to_string(), 3.0),
        ("b".to_string(), 2.0),
        ("c".to_string(), 1.0),
    ];
    let page = catalog.get_scores(Category::Discord, &general, Some(0), None).unwrap();
    assert_eq!(ids_and_values(&page), expected);
    let page = catalog.get_scores(Category::Discord, &general, None, None).unwrap();
    assert_eq!(ids_and_values(&page), expected);
}

#[test]
fn start_at_or_past_end_yields_empty_page() {
    let catalog = sample_catalog();
    let general = "general".to_string();
    let page = catalog.get_scores(Category::Discord, &general, Some(3), None).unwrap();
    assert!(page.is_empty());
    let page = catalog.get_scores(Category::Discord, &general, Some(5), None).unwrap();
    assert!(page.is_empty());
    let page = catalog.get_scores(Category::Discord, &general, Some(100), Some(10)).unwrap();
    assert!(page.is_empty());
}

#[test]
fn window_matches_plain_slice_semantics() {
    let catalog = sample_catalog();
    let general = "general".to_string();
    let cases: Vec<(Option<usize>, Option<usize>, Vec<&str>)> = vec![
        (Some(0), Some(2), vec!["a", "b"]),
        (Some(1), Some(1), vec!["b"]),
        (Some(1), None, vec!["b", "c"]),
        (Some(2), Some(10), vec!["c"]),
        (Some(0), Some(0), vec![]),
        (None, Some(2), vec!["a", "b"]),
    ];
    for (start, size, expected) in cases {
        let page = catalog.get_scores(Category::Discord, &general, start, size).unwrap();
        let got: Vec<String> = page.iter().map(|e| e.id.clone()).collect();
        assert_eq!(got, expected, "window start={start:?} size={size:?}");
    }
}

#[test]
fn repeated_queries_return_identical_results() {
    let catalog = sample_catalog();
    let general = "general".to_string();
    let first = catalog.get_scores(Category::Discord, &general, Some(1), Some(2)).unwrap();
    let second = catalog.get_scores(Category::Discord, &general, Some(1), Some(2)).unwrap();
    assert_eq!(ids_and_values(&first), ids_and_values(&second));
    let f1 = catalog.get_file(Category::Discord, &general).unwrap();
    let f2 = catalog.get_file(Category::Discord, &general).unwrap();
    assert_eq!(f1.scope_id, f2.scope_id);
    assert_eq!(ids_and_values(&f1.scores), ids_and_values(&f2.scores));
    assert_eq!(ids_and_values(&f1.seed), ids_and_values(&f2.seed));
}

#[test]
fn discord_example_scenario() {
    let catalog = sample_catalog();
    let general = "general".to_string();
    let page = catalog.get_scores(Category::Discord, &general, Some(1), Some(1)).unwrap();
    assert_eq!(ids_and_values(&page), vec![("b".to_string(), 2.0)]);
    let page = catalog.get_scores(Category::Discord, &general, Some(5), None).unwrap();
    assert!(page.is_empty());
    assert_eq!(scope_field_name(Category::Discord), "server_id");
    let scope = catalog.get_scope_id(Category::Discord, &general).unwrap();
    assert_eq!(scope, "1100000000000000000");
    let missing = "missing".to_string();
    assert!(catalog.get_file(Category::Discord, &missing).is_none());
}

#[test]
fn get_file_returns_record_verbatim() {
    let catalog = sample_catalog();
    let general = "general".to_string();
    let record = catalog.get_file(Category::Discord, &general).unwrap();
    assert_eq!(record.category, "discord");
    assert_eq!(record.scope_id, "1100000000000000000");
    assert_eq!(
        ids_and_values(&record.seed),
        vec![("seed-a".to_string(), 1.0), ("seed-b".to_string(), 0.5)]
    );
    assert_eq!(
        ids_and_values(&record.scores),
        vec![
            ("a".to_string(), 3.0),
            ("b".to_string(), 2.0),
            ("c".to_string(), 1.0),
        ]
    );
}

#[test]
fn get_seed_returns_seed_entries_only() {
    let catalog = sample_catalog();
    let general = "general".to_string();
    let seed = catalog.get_seed(Category::Discord, &general).unwrap();
    assert_eq!(
        ids_and_values(seed),
        vec![("seed-a".to_string(), 1.0), ("seed-b".to_string(), 0.5)]
    );
}

#[test]
fn scope_field_name_per_category() {
    assert_eq!(scope_field_name(Category::Discord), "server_id");
    assert_eq!(scope_field_name(Category::Github), "ecosystem");
    assert_eq!(scope_field_name(Category::Telegram), "channel_id");
    assert_eq!(scope_field_name(Category::X), "community_id");
}

#[test]
fn categories_are_looked_up_independently() {
    let record = |category: &str, scope: &str| DatasetRecord {
        category: category.to_string(),
        scope_id: scope.to_string(),
        seed: vec![],
        scores: vec![entry("top", 1.0)],
    };
    let mut discord = CategoryStore::new();
    discord.insert("alpha".to_string(), record("discord", "d-1"));
    let mut github = CategoryStore::new();
    github.insert("alpha".to_string(), record("github", "g-1"));
    let mut telegram = CategoryStore::new();
    telegram.insert("alpha".to_string(), record("telegram", "t-1"));
    let mut x = CategoryStore::new();
    x.insert("alpha".to_string(), record("x", "x-1"));
    let catalog = Catalog { discord, github, telegram, x };
    let name = "alpha".to_string();
    assert_eq!(catalog.get_scope_id(Category::Discord, &name).unwrap(), "d-1");
    assert_eq!(catalog.get_scope_id(Category::Github, &name).unwrap(), "g-1");
    assert_eq!(catalog.get_scope_id(Category::Telegram, &name).unwrap(), "t-1");
    assert_eq!(catalog.get_scope_id(Category::X, &name).unwrap(), "x-1");
    assert_eq!(catalog.get_file(Category::Telegram, &name).unwrap().category, "telegram");
}

#[test]
fn duplicate_scored_ids_are_preserved() {
    let mut discord = CategoryStore::new();
    let record = DatasetRecord {
        category: "discord".to_string(),
        scope_id: "42".to_string(),
        seed: vec![],
        scores: vec![entry("a", 2.0), entry("a", 1.0)],
    };
    discord.insert("dups".to_string(), record);
    let catalog = Catalog {
        discord,
        github: CategoryStore::new(),
        telegram: CategoryStore::new(),
        x: CategoryStore::new(),
    };
    let name = "dups".to_string();
    let page = catalog.get_scores(Category::Discord, &name, None, None).unwrap();
    assert_eq!(
        ids_and_values(&page),
        vec![("a".to_string(), 2.0), ("a".to_string(), 1.0)]
    );
}
