use clipkeep::error::AppError;
use clipkeep::models::{SearchFilters, Settings};
use clipkeep::store::Database;

fn insert_text(db: &mut Database, content: &str, hash: &str, copied_at: i64) -> i64 {
    let (id, _) = db.insert_item(
        content.to_string(),
        "text".to_string(),
        None,
        "misc".to_string(),
        "Tests".to_string(),
        false,
        hash.to_string(),
        content.to_string(),
        copied_at,
    );
    id
}

fn insert_image(db: &mut Database, path: &str, hash: &str, copied_at: i64) -> (i64, Vec<String>) {
    db.insert_item(
        "Image".to_string(),
        "image".to_string(),
        Some(path.to_string()),
        "misc".to_string(),
        "Tests".to_string(),
        false,
        hash.to_string(),
        "Image".to_string(),
        copied_at,
    )
}

fn no_filters() -> SearchFilters {
    SearchFilters {
        category: None,
        date_from: None,
        date_to: None,
        source_app: None,
        content_type: None,
    }
}

#[test]
fn test_image_path_exists_uses_exact_db_membership() {
    let mut db = Database::new();
    insert_image(&mut db, "/data/images/exists.png", "hash_exists_001", 1);
    assert!(db.image_path_exists("/data/images/exists.png"));
    assert!(!db.image_path_exists("/tmp/does-not-exist.png"));
}

#[test]
fn test_cleanup_excess_items_removes_image_files() {
    let mut db = Database::new();
    db.settings.max_items = 2;

    insert_image(&mut db, "/data/images/old.png", "hash_old_image_001", 1);
    insert_image(&mut db, "/data/images/new.png", "hash_new_image_001", 2);
    let (_, orphans) = db.insert_item(
        "Newest Text".to_string(),
        "text".to_string(),
        None,
        "misc".to_string(),
        "Tests".to_string(),
        false,
        "hash_newest_text_001".to_string(),
        "Newest Text".to_string(),
        3,
    );

    let history = db.get_history(10, 0);
    assert_eq!(history.len(), 2);
    assert_eq!(orphans, vec!["/data/images/old.png".to_string()]);
    assert!(db.image_path_exists("/data/images/new.png"));
    assert!(!db.image_path_exists("/data/images/old.png"));
}

#[test]
fn test_insert_duplicate_digest_returns_same_id() {
    // the dedup scenario: identical bytes resolve to the same row
    let mut db = Database::new();
    let category = clipkeep::classifier::detect_category("Error: timeout");
    assert_eq!(category, "error");
    assert!(!clipkeep::sensitive::is_sensitive("Error: timeout"));
    let h = clipkeep::digest::digest_of_text("Error: timeout");
    let (first, _) = db.insert_item(
        "Error: timeout".to_string(),
        "text".to_string(),
        None,
        category.clone(),
        "Tests".to_string(),
        false,
        h.clone(),
        "Error: timeout".to_string(),
        10,
    );
    let (second, orphans) = db.insert_item(
        "Error: timeout".to_string(),
        "text".to_string(),
        None,
        category,
        "Tests".to_string(),
        false,
        h,
        "Error: timeout".to_string(),
        11,
    );
    assert_eq!(first, second);
    assert!(orphans.is_empty());
    assert_eq!(db.get_history(10, 0).len(), 1);
}

#[test]
fn test_eviction_spares_favorites() {
    let mut db = Database::new();
    db.settings.max_items = 2;
    let a = insert_text(&mut db, "oldest", "h_a", 1);
    let b = insert_text(&mut db, "middle", "h_b", 2);
    db.set_favorite(a, true).expect("favorite");
    let c = insert_text(&mut db, "newest", "h_c", 3);
    // the oldest non-favorite left; the favorite stayed despite being oldest
    assert!(db.get_item_by_id(a).is_ok());
    assert!(matches!(db.get_item_by_id(b), Err(AppError::NotFound(_))));
    assert!(db.get_item_by_id(c).is_ok());
}

#[test]
fn test_eviction_leaves_store_over_budget_when_all_favorites() {
    let mut db = Database::new();
    let a = insert_text(&mut db, "one", "h1", 1);
    let b = insert_text(&mut db, "two", "h2", 2);
    let c = insert_text(&mut db, "three", "h3", 3);
    db.set_favorite(a, true).expect("favorite");
    db.set_favorite(b, true).expect("favorite");
    db.set_favorite(c, true).expect("favorite");
    db.settings.max_items = 2;
    let d = insert_text(&mut db, "four", "h4", 4);
    // three favorites stay; only the new non-favorite is fair game, and
    // removing it reaches no further than three rows
    assert!(db.get_item_by_id(a).is_ok());
    assert!(db.get_item_by_id(b).is_ok());
    assert!(db.get_item_by_id(c).is_ok());
    assert!(matches!(db.get_item_by_id(d), Err(AppError::NotFound(_))));
}

#[test]
fn test_history_hides_sensitive_rows() {
    let mut db = Database::new();
    insert_text(&mut db, "plain", "h_plain", 1);
    db.insert_item(
        "123-45-6789".to_string(),
        "text".to_string(),
        None,
        "misc".to_string(),
        "Tests".to_string(),
        true,
        "h_secret".to_string(),
        "123-45-6789".to_string(),
        2,
    );
    let history = db.get_history(10, 0);
    assert_eq!(history.len(), 1);
    assert_eq!(history[0].content, "plain");
    let found = db.search("123".to_string(), no_filters(), 10);
    assert!(found.is_empty());
}

#[test]
fn test_history_orders_favorites_first_then_recency() {
    let mut db = Database::new();
    let a = insert_text(&mut db, "first", "o1", 1);
    insert_text(&mut db, "second", "o2", 2);
    insert_text(&mut db, "third", "o3", 3);
    db.set_favorite(a, true).expect("favorite");
    let history = db.get_history(10, 0);
    let contents: Vec<&str> = history.iter().map(|it| it.content.as_str()).collect();
    assert_eq!(contents, vec!["first", "third", "second"]);
}

#[test]
fn test_history_pagination() {
    let mut db = Database::new();
    insert_text(&mut db, "a", "p1", 1);
    insert_text(&mut db, "b", "p2", 2);
    insert_text(&mut db, "c", "p3", 3);
    let page = db.get_history(1, 1);
    assert_eq!(page.len(), 1);
    assert_eq!(page[0].content, "b");
    assert!(db.get_history(10, 3).is_empty());
    assert!(db.get_history(10, 100).is_empty());
}

#[test]
fn test_search_matches_case_insensitive_substring() {
    let mut db = Database::new();
    insert_text(&mut db, "Hello World", "s1", 1);
    insert_text(&mut db, "goodbye", "s2", 2);
    let found = db.search("hello".to_string(), no_filters(), 10);
    assert_eq!(found.len(), 1);
    assert_eq!(found[0].content, "Hello World");
}

#[test]
fn test_search_applies_filters_and_limit() {
    let mut db = Database::new();
    db.insert_item(
        "alpha note".to_string(),
        "text".to_string(),
        None,
        "misc".to_string(),
        "AppA".to_string(),
        false,
        "f1".to_string(),
        "alpha note".to_string(),
        10,
    );
    db.insert_item(
        "alpha code".to_string(),
        "text".to_string(),
        None,
        "code".to_string(),
        "AppB".to_string(),
        false,
        "f2".to_string(),
        "alpha code".to_string(),
        20,
    );
    db.insert_item(
        "alpha later".to_string(),
        "text".to_string(),
        None,
        "misc".to_string(),
        "AppA".to_string(),
        false,
        "f3".to_string(),
        "alpha later".to_string(),
        30,
    );

    let by_category = db.search(
        "alpha".to_string(),
        SearchFilters { category: Some("code".to_string()), ..no_filters() },
        10,
    );
    assert_eq!(by_category.len(), 1);
    assert_eq!(by_category[0].content, "alpha code");

    let by_app = db.search(
        "alpha".to_string(),
        SearchFilters { source_app: Some("AppA".to_string()), ..no_filters() },
        10,
    );
    assert_eq!(by_app.len(), 2);

    let by_range = db.search(
        "alpha".to_string(),
        SearchFilters { date_from: Some(15), date_to: Some(25), ..no_filters() },
        10,
    );
    assert_eq!(by_range.len(), 1);
    assert_eq!(by_range[0].content, "alpha code");

    let limited = db.search("alpha".to_string(), no_filters(), 2);
    assert_eq!(limited.len(), 2);
    // most recent first
    assert_eq!(limited[0].content, "alpha later");
}

#[test]
fn test_cleanup_expired_spares_favorites() {
    let mut db = Database::new();
    let now: i64 = 100 * 86400;
    let old_fav = insert_text(&mut db, "old favorite", "c1", 1);
    insert_image(&mut db, "/data/images/stale.png", "c2", 2);
    insert_text(&mut db, "fresh", "c3", now - 10);
    db.set_favorite(old_fav, true).expect("favorite");

    let (deleted, orphans) = db.cleanup_expired(30, now);
    assert_eq!(deleted, 1);
    assert_eq!(orphans, vec!["/data/images/stale.png".to_string()]);
    assert!(db.get_item_by_id(old_fav).is_ok());
    assert_eq!(db.get_history(10, 0).len(), 2);
}

#[test]
fn test_update_settings_validates_bounds() {
    let mut db = Database::new();
    let bad_max = Settings { max_items: 5, ..Settings::default() };
    assert!(matches!(db.update_settings(bad_max), Err(AppError::InvalidInput(_))));
    let bad_retention = Settings { retention_days: 0, ..Settings::default() };
    assert!(matches!(db.update_settings(bad_retention), Err(AppError::InvalidInput(_))));
    let bad_image = Settings { max_image_size_mb: 101, ..Settings::default() };
    assert!(matches!(db.update_settings(bad_image), Err(AppError::InvalidInput(_))));
    // a rejected update leaves the defaults in place
    assert_eq!(db.get_settings().max_items, 1000);

    let good = Settings { max_items: 50, retention_days: 7, ..Settings::default() };
    assert!(db.update_settings(good).is_ok());
    let s = db.get_settings();
    assert_eq!(s.max_items, 50);
    assert_eq!(s.retention_days, 7);
}

#[test]
fn test_point_lookups_report_not_found() {
    let mut db = Database::new();
    assert!(matches!(db.get_item_by_id(5), Err(AppError::NotFound(5))));
    assert!(matches!(db.get_item_content(5), Err(AppError::NotFound(5))));
    assert!(matches!(db.set_favorite(5, true), Err(AppError::NotFound(5))));
    assert!(matches!(db.delete_item(5), Err(AppError::NotFound(5))));
}

#[test]
fn test_get_item_content_roundtrip() {
    let mut db = Database::new();
    let id = insert_text(&mut db, "remember me", "g1", 1);
    assert_eq!(db.get_item_content(id).expect("content"), "remember me");
    db.delete_item(id).expect("delete");
    assert!(matches!(db.get_item_content(id), Err(AppError::NotFound(_))));
}

#[test]
fn test_exclusions_are_a_sorted_set() {
    let mut db = Database::new();
    db.add_exclusion("Vault".to_string());
    db.add_exclusion("Vault".to_string());
    db.add_exclusion("Keys".to_string());
    // duplicate-free, and listed ascending by name whatever the insertion order
    assert_eq!(db.get_exclusions(), vec!["Keys".to_string(), "Vault".to_string()]);
    db.remove_exclusion("Vault".to_string());
    assert_eq!(db.get_exclusions(), vec!["Keys".to_string()]);
    db.remove_exclusion("Absent".to_string());
    assert_eq!(db.get_exclusions(), vec!["Keys".to_string()]);
}

#[test]
fn test_exclusions_sorted_regardless_of_insertion_order() {
    let mut db = Database::new();
    db.add_exclusion("b".to_string());
    db.add_exclusion("a".to_string());
    db.add_exclusion("c".to_string());
    assert_eq!(db.get_exclusions(), vec!["a".to_string(), "b".to_string(), "c".to_string()]);
}

#[test]
fn test_read_image_allowed_enforces_root_and_membership() {
    let mut db = Database::new();
    insert_image(&mut db, "/data/images/a.png", "r1", 1);
    // inside the root and recorded: allowed
    assert!(db.read_image_allowed("/data/images/a.png", "/data/images/a.png", "/data/images"));
    // outside the root, even though a row records it
    insert_image(&mut db, "/elsewhere/b.png", "r2", 2);
    assert!(!db.read_image_allowed("/elsewhere/b.png", "/elsewhere/b.png", "/data/images"));
    // inside the root but recorded nowhere
    assert!(!db.read_image_allowed("/data/images/ghost.png", "/data/images/ghost.png", "/data/images"));
    // a sibling directory that merely shares the root as a name prefix
    assert!(!db.read_image_allowed("/data/imagesevil/a.png", "/data/imagesevil/a.png", "/data/images"));
    // the pre-canonicalization spelling may be the recorded one
    assert!(db.read_image_allowed("/data/images/fresh.png", "/data/images/a.png", "/data/images"));
}
