use soar::catalog::{FilterCondition, PackageQueryBuilder, SortDirection};
use soar::catalog::search_filter;
use soar::error::SoarError;
use soar::like::{ilike_matches, like_matches};
use soar::package::Package;
use soar::query::{get_valid_selection, parse_package_query, resolve_selection};
use soar::query::select_package_interactively;

fn pkg(repo: &str, id: &str, name: &str) -> Package {
    Package {
        repo_name: repo.to_string(),
        pkg: name.to_string(),
        pkg_id: id.to_string(),
        pkg_name: name.to_string(),
        description: String::new(),
        version: "1.0".to_string(),
        version_upstream: None,
        size: 0,
        ghcr_size: None,
        bsum: String::new(),
        shasum: String::new(),
        download_url: String::new(),
        ghcr_blob: None,
        ghcr_pkg: None,
        pkg_type: "static".to_string(),
        pkg_webpage: None,
        icon: None,
        desktop: None,
        homepages: None,
        source_urls: None,
        licenses: None,
        maintainers: Vec::new(),
        notes: None,
        snapshots: None,
        build_id: None,
        build_date: None,
        build_action: None,
        build_log: None,
        build_script: None,
        rank: None,
        download_count_week: None,
        provides: None,
        family: None,
    }
}

#[test]
fn query_parsing_splits_family_and_collection() {
    let q = parse_package_query("tools/rg#BIN");
    assert_eq!(q.name, "rg");
    assert_eq!(q.family, Some("tools".to_string()));
    assert_eq!(q.collection, Some("bin".to_string()));
}

#[test]
fn query_parsing_bare_name() {
    let q = parse_package_query("hello");
    assert_eq!(q.name, "hello");
    assert_eq!(q.family, None);
    assert_eq!(q.collection, None);
}

#[test]
fn query_parsing_empty_collection_suffix() {
    let q = parse_package_query("hello#");
    assert_eq!(q.name, "hello");
    assert_eq!(q.collection, None);
}

#[test]
fn selection_validation() {
    assert_eq!(get_valid_selection("2", 3), Some(1));
    assert_eq!(get_valid_selection("1", 3), Some(0));
    assert_eq!(get_valid_selection("0", 3), None);
    assert_eq!(get_valid_selection("4", 3), None);
    assert_eq!(get_valid_selection("abc", 3), None);
    assert_eq!(get_valid_selection("", 3), None);
}

#[test]
fn selection_picks_element() {
    let pkgs = vec!["a".to_string(), "b".to_string(), "c".to_string()];
    assert_eq!(select_package_interactively(pkgs.clone(), 1), Some("b".to_string()));
    assert_eq!(select_package_interactively(pkgs, 3), None);
}

#[test]
fn resolution_outcomes() {
    assert_eq!(resolve_selection(0, false, None), Err(SoarError::NotFound));
    assert_eq!(resolve_selection(1, false, None), Ok(0));
    assert_eq!(resolve_selection(5, true, None), Ok(0));
    assert_eq!(resolve_selection(5, false, Some(2)), Ok(2));
    assert_eq!(resolve_selection(5, false, Some(7)), Err(SoarError::Ambiguous));
    assert_eq!(resolve_selection(5, false, None), Err(SoarError::Ambiguous));
}

#[test]
fn like_semantics() {
    assert!(like_matches("foo%", "foobar"));
    assert!(like_matches("foo%", "foo"));
    assert!(!like_matches("foo%", "xfoo"));
    assert!(like_matches("f_o", "fao"));
    assert!(!like_matches("f_o", "faao"));
    assert!(!like_matches("FOO%", "foobar"));
    assert!(like_matches("%oo%", "foobar"));
}

#[test]
fn ilike_accepts_any_case() {
    assert!(ilike_matches("FOO%", "foobar"));
    assert!(ilike_matches("foo%", "FOOBAR"));
    assert!(!ilike_matches("foo%", "xfoo"));
}

#[test]
fn prefix_search_returns_only_prefixed_rows() {
    let rows = vec![
        pkg("r1", "i1", "foobar"),
        pkg("r1", "i2", "other"),
        pkg("r1", "i3", "foo"),
        pkg("r2", "i4", "xfoo"),
    ];
    let b = search_filter("foo%", true, 10);
    let page = b.load(rows);
    assert_eq!(page.total, 2);
    assert_eq!(page.items.len(), 2);
    for p in &page.items {
        assert!(p.pkg_name.starts_with("foo"));
    }
}

#[test]
fn case_insensitive_search_accepts_any_case() {
    let rows = vec![pkg("r1", "i1", "FooBar"), pkg("r1", "i2", "other")];
    let b = search_filter("foo%", false, 10);
    let page = b.load(rows);
    assert_eq!(page.total, 1);
    assert_eq!(page.items[0].pkg_name, "FooBar");
}

#[test]
fn search_matches_provided_target_names() {
    let mut p = pkg("r1", "i1", "other-name");
    p.provides = Some(vec!["foox".to_string()]);
    let rows = vec![p, pkg("r1", "i2", "nope")];
    let b = search_filter("foo%", true, 10);
    let page = b.load(rows);
    assert_eq!(page.total, 1);
    assert_eq!(page.items[0].pkg_name, "other-name");
}

#[test]
fn and_clauses_filter_rows() {
    let rows = vec![pkg("main", "a", "x"), pkg("extra", "b", "x"), pkg("main", "c", "y")];
    let b = PackageQueryBuilder::new()
        .where_and("repo_name", FilterCondition::Eq("main".to_string()))
        .where_and("pkg_name", FilterCondition::Eq("x".to_string()));
    let page = b.load(rows);
    assert_eq!(page.total, 1);
    assert_eq!(page.items[0].pkg_id, "a");
}

#[test]
fn numeric_conditions() {
    let mut a = pkg("r", "a", "a");
    a.size = 10;
    let mut b = pkg("r", "b", "b");
    b.size = 20;
    let mut c = pkg("r", "c", "c");
    c.size = 30;
    let q = PackageQueryBuilder::new().where_and("size", FilterCondition::Between(15, 30));
    let page = q.load(vec![a, b, c]);
    assert_eq!(page.total, 2);
    assert_eq!(page.items[0].pkg_id, "b");
    assert_eq!(page.items[1].pkg_id, "c");
}

#[test]
fn sort_orders_rows() {
    let rows = vec![pkg("r", "1", "zeta"), pkg("r", "2", "alpha"), pkg("r", "3", "mid")];
    let b = PackageQueryBuilder::new().sort_by("pkg_name", SortDirection::Asc);
    let page = b.load(rows);
    let names: Vec<&str> = page.items.iter().map(|p| p.pkg_name.as_str()).collect();
    assert_eq!(names, vec!["alpha", "mid", "zeta"]);
}

#[test]
fn sort_descending_and_stable() {
    let mut a = pkg("r", "1", "same");
    a.version = "one".to_string();
    let mut b = pkg("r", "2", "same");
    b.version = "two".to_string();
    let q = PackageQueryBuilder::new().sort_by("pkg_name", SortDirection::Desc);
    let page = q.load(vec![a, b]);
    // equal keys keep arrival order
    assert_eq!(page.items[0].version, "one");
    assert_eq!(page.items[1].version, "two");
}

#[test]
fn pagination_totals_and_has_next() {
    let rows: Vec<Package> =
        (0..5).map(|i| pkg("r", &format!("i{}", i), &format!("p{}", i))).collect();
    let b = PackageQueryBuilder::new().limit(2);
    let first = b.load(rows.clone());
    assert_eq!(first.total, 5);
    assert_eq!(first.items.len(), 2);
    assert_eq!(first.page, 1);
    assert!(first.has_next);
    let b3 = PackageQueryBuilder::new().limit(2).page(3);
    let third = b3.load(rows.clone());
    assert_eq!(third.items.len(), 1);
    assert!(!third.has_next);
    let b4 = PackageQueryBuilder::new().limit(2).page(4);
    let fourth = b4.load(rows);
    assert_eq!(fourth.items.len(), 0);
    assert!(!fourth.has_next);
}
