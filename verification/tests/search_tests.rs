use fuzzy_matcher::skim::SkimMatcherV2;
use fuzzy_matcher::FuzzyMatcher;
use tmuxedo::catalog::Catalog;
use tmuxedo::inventory::Inventory;
use tmuxedo::search::{rank, score, search_list, Scored, MAX_SCORED_LEN};
use tmuxedo::tui::WindowTab;

fn strings(items: &[&str]) -> Vec<String> {
    items.iter().map(|s| s.to_string()).collect()
}

fn scored(items: &[(&str, Option<i64>)]) -> Vec<Scored> {
    items.iter().map(|(id, score)| Scored { id: id.to_string(), score: *score }).collect()
}

#[test]
fn search_ranking() {
    let ids = strings(&["alpha/foo", "beta/foobar", "gamma/zzz"]);
    let hits = search_list(ids.clone(), "foo");
    assert_eq!(hits.len(), 2);
    assert!(!hits.contains(&"gamma/zzz".to_string()));
    assert!(hits.contains(&"alpha/foo".to_string()));
    assert!(hits.contains(&"beta/foobar".to_string()));
    let first = score(&hits[0], "foo").unwrap();
    let second = score(&hits[1], "foo").unwrap();
    assert!(first >= second);
}

#[test]
fn search_ranking_through_the_inventory() {
    let catalog = Catalog {
        themes: vec![],
        status_bars: vec![],
        plugins: strings(&["gamma/zzz", "beta/foobar", "alpha/foo"]),
    };
    let inv = Inventory::new(&catalog, &strings(&["alpha/foo", "beta/foobar", "gamma/zzz"]));
    let hits = inv.installed_view(WindowTab::Plugins, "foo");
    assert_eq!(hits.len(), 2);
    assert!(!hits.contains(&"gamma/zzz".to_string()));
    assert!(score(&hits[0], "foo").unwrap() >= score(&hits[1], "foo").unwrap());
    assert_eq!(inv.installed_view(WindowTab::All, "foo"), hits);
    assert_eq!(inv.available_view(WindowTab::Plugins, "foo"), Vec::<String>::new());
}

#[test]
fn an_empty_query_keeps_the_list() {
    let ids = strings(&["b", "a", "c"]);
    assert_eq!(search_list(ids.clone(), ""), ids);
}

#[test]
fn a_query_that_nothing_matches_gives_nothing() {
    assert_eq!(search_list(strings(&["alpha/foo", "beta/bar"]), "xyz"), Vec::<String>::new());
    assert_eq!(search_list(Vec::new(), "foo"), Vec::<String>::new());
}

#[test]
fn score_is_the_score_of_the_matcher() {
    let matcher = SkimMatcherV2::default();
    for (id, query) in [
        ("alpha/foo", "foo"),
        ("beta/foobar", "foo"),
        ("gamma/zzz", "foo"),
        ("tmux-plugins/tmux-sensible", "tms"),
        ("Dracula/Tmux", "dt"),
        ("Dracula/Tmux", "DT"),
        ("abc", ""),
        ("", "a"),
    ] {
        assert_eq!(score(id, query), matcher.fuzzy_match(id, query));
    }
    assert_eq!(score("gamma/zzz", "foo"), None);
    assert!(score("alpha/foo", "foo").is_some());
    assert!(score("alpha/foo", "foo") != score("alpha/foo", "alp"));
}

#[test]
fn what_is_too_long_does_not_match() {
    let long = "a".repeat(MAX_SCORED_LEN + 1);
    let at_limit = "a".repeat(MAX_SCORED_LEN);
    assert_eq!(score(&long, "a"), None);
    assert_eq!(score("a", &long), None);
    assert!(score(&at_limit, "a").is_some());
    assert_eq!(search_list(vec![long.clone(), "a".to_string()], "a"), strings(&["a"]));
}

#[test]
fn rank_orders_by_descending_score() {
    let list = scored(&[("low", Some(1)), ("none", None), ("high", Some(30)), ("mid", Some(7))]);
    assert_eq!(rank(&list), strings(&["high", "mid", "low"]));
}

#[test]
fn rank_keeps_the_order_of_equal_scores() {
    let list = scored(&[
        ("a", Some(5)),
        ("b", Some(9)),
        ("c", Some(5)),
        ("d", Some(9)),
        ("e", Some(5)),
        ("f", Some(-2)),
    ]);
    assert_eq!(rank(&list), strings(&["b", "d", "a", "c", "e", "f"]));
}

#[test]
fn rank_of_nothing() {
    assert_eq!(rank(&Vec::new()), Vec::<String>::new());
    assert_eq!(rank(&scored(&[("a", None), ("b", None)])), Vec::<String>::new());
}

#[test]
fn rank_takes_extreme_scores() {
    let list = scored(&[("min", Some(i64::MIN)), ("max", Some(i64::MAX)), ("zero", Some(0))]);
    assert_eq!(rank(&list), strings(&["max", "zero", "min"]));
}
