use babelcomics::search::{build_search_fragment, build_volume_search_fragment, parse_search_query, ParsedQuery, VolumeSortOrder};

fn words(v: &[String]) -> Vec<&str> {
    v.iter().map(|s| s.as_str()).collect()
}

#[test]
fn spaces_and_plus_include() {
    let q = parse_search_query("batman robin");
    assert_eq!(words(&q.must_include), vec!["batman", "robin"]);
    assert!(q.must_exclude.is_empty());
    let q = parse_search_query("batman + robin");
    assert_eq!(words(&q.must_include), vec!["batman", "robin"]);
    let q = parse_search_query("invincible + iron man");
    assert_eq!(words(&q.must_include), vec!["invincible", "iron", "man"]);
}

#[test]
fn minus_excludes() {
    let q = parse_search_query("hulk -thor");
    assert_eq!(words(&q.must_include), vec!["hulk"]);
    assert_eq!(words(&q.must_exclude), vec!["thor"]);
    let q = parse_search_query("a - b c");
    assert_eq!(words(&q.must_include), vec!["a", "c"]);
    assert_eq!(words(&q.must_exclude), vec!["b"]);
    let q = parse_search_query("- + b");
    assert_eq!(words(&q.must_include), vec!["b"]);
}

#[test]
fn plus_and_minus_split_words() {
    let q = parse_search_query("hulk-thor");
    assert_eq!(words(&q.must_include), vec!["hulk"]);
    assert_eq!(words(&q.must_exclude), vec!["thor"]);
    let q = parse_search_query("batman+robin");
    assert_eq!(words(&q.must_include), vec!["batman", "robin"]);
    assert!(q.must_exclude.is_empty());
    let q = parse_search_query("x-+y -z w");
    assert_eq!(words(&q.must_include), vec!["x", "y", "w"]);
    assert_eq!(words(&q.must_exclude), vec!["z"]);
}

#[test]
fn words_are_lower_cased_and_empty_queries_empty() {
    let q = parse_search_query("  Hulk   +SPAWN ");
    assert_eq!(words(&q.must_include), vec!["hulk", "spawn"]);
    assert!(parse_search_query("   ").is_empty());
    assert!(parse_search_query("- +").is_empty());
    assert!(!parse_search_query("x").is_empty());
}

#[test]
fn comic_fragment() {
    let q = ParsedQuery { must_include: vec!["a".into()], must_exclude: vec!["b".into()] };
    let (sql, binds) = build_search_fragment(&q);
    assert_eq!(
        sql,
        "AND (COALESCE(ci.titulo, '') LIKE ? OR cb.path LIKE ? OR COALESCE(v.nombre, '') LIKE ?)\n                 AND (COALESCE(ci.titulo, '') NOT LIKE ? AND cb.path NOT LIKE ? AND COALESCE(v.nombre, '') NOT LIKE ?)"
    );
    assert_eq!(binds, vec!["%a%", "%a%", "%a%", "%b%", "%b%", "%b%"]);
    let (sql, binds) = build_search_fragment(&ParsedQuery::default());
    assert_eq!(sql, "");
    assert!(binds.is_empty());
}

#[test]
fn volume_fragment() {
    let q = ParsedQuery { must_include: vec!["x".into(), "y".into()], must_exclude: vec![] };
    let (sql, binds) = build_volume_search_fragment(&q);
    assert_eq!(sql, "AND (v.nombre LIKE ? OR v.deck LIKE ?)\n                 AND (v.nombre LIKE ? OR v.deck LIKE ?)");
    assert_eq!(binds, vec!["%x%", "%x%", "%y%", "%y%"]);
}

#[test]
fn volume_orders() {
    assert_eq!(VolumeSortOrder::default().to_sql(), "v.nombre COLLATE NOCASE ASC");
    assert_eq!(VolumeSortOrder::NombreDesc.to_sql(), "v.nombre COLLATE NOCASE DESC");
    assert_eq!(VolumeSortOrder::AnioDesc.to_sql(), "v.anio_inicio DESC, v.nombre COLLATE NOCASE ASC");
    assert_eq!(VolumeSortOrder::IssuesAsc.to_sql(), "v.cantidad_numeros ASC, v.nombre COLLATE NOCASE ASC");
}
