use fuzzy_matcher::skim::SkimMatcherV2;
use fuzzy_matcher::FuzzyMatcher;
use projection::project::Project;
use projection::ranking::rank_matches;
use projection::search::{find, fuzzy_search, select_author, Entry};
use projection::source::Source;

fn entry(id: &str, user: &str, repo: &str) -> Entry {
    Entry {
        id: id.to_string(),
        project: Project {
            user: user.to_string(),
            repo: repo.to_string(),
            name: None,
            source: Source::GitHub,
        },
    }
}

fn registry() -> Vec<Entry> {
    vec![
        entry("01", "alice", "dotfiles"),
        entry("02", "brettm12345", "xmonad-config"),
        entry("03", "alice", "monitor"),
        entry("04", "Alice", "notes"),
        entry("05", "carol", "xmonad-config"),
    ]
}

fn score(choice: &str, pattern: &str) -> Option<i64> {
    SkimMatcherV2::default().fuzzy_match(choice, pattern)
}

#[test]
fn find_returns_the_one_match() {
    let entries = vec![
        entry("01", "alice", "dotfiles"),
        entry("02", "brettm12345", "xmonad-config"),
        entry("03", "alice", "notes"),
    ];
    let found = find(&entries, "monad").unwrap();
    assert_eq!(found.id, "02");
    assert_eq!(found.project.repo, "xmonad-config");
    assert_eq!(found, &entries[1]);
}

#[test]
fn find_returns_none_without_a_match() {
    let entries = vec![entry("01", "alice", "dotfiles"), entry("03", "alice", "notes")];
    assert_eq!(find(&entries, "monad"), None);
    assert_eq!(find(&Vec::new(), "monad"), None);
}

#[test]
fn find_takes_the_first_of_several() {
    let entries = registry();
    assert_eq!(find(&entries, "xmonad").unwrap().id, "02");
    assert_eq!(find(&entries, "mon").unwrap().id, "02");
    assert_eq!(find(&entries, "moni").unwrap().id, "03");
    assert_eq!(find(&entries, "").unwrap().id, "01");
}

#[test]
fn find_looks_at_the_repo_only_and_keeps_case() {
    let entries = registry();
    assert_eq!(find(&entries, "alice"), None);
    assert_eq!(find(&entries, "XMONAD"), None);
    assert_eq!(find(&entries, "brettm12345/xmonad"), None);
}

#[test]
fn select_author_keeps_exact_users_in_order() {
    let kept = select_author(registry(), "alice");
    assert_eq!(kept, vec![entry("01", "alice", "dotfiles"), entry("03", "alice", "monitor")]);
    let kept = select_author(registry(), "Alice");
    assert_eq!(kept, vec![entry("04", "Alice", "notes")]);
}

#[test]
fn select_author_knows_no_fuzziness() {
    assert_eq!(select_author(registry(), "alic"), Vec::new());
    assert_eq!(select_author(registry(), "alice "), Vec::new());
    assert_eq!(select_author(registry(), ""), Vec::new());
    assert_eq!(select_author(Vec::new(), "alice"), Vec::new());
}

#[test]
fn rank_matches_sorts_by_score_and_keeps_ties_in_order() {
    let scores = vec![Some(5), None, Some(9), Some(5), None, Some(-3), Some(9)];
    assert_eq!(rank_matches(&scores), vec![2, 6, 0, 3, 5]);
}

#[test]
fn rank_matches_edge_cases() {
    assert_eq!(rank_matches(&Vec::new()), Vec::<usize>::new());
    assert_eq!(rank_matches(&vec![None, None]), Vec::<usize>::new());
    assert_eq!(rank_matches(&vec![Some(0), Some(0), Some(0)]), vec![0, 1, 2]);
    assert_eq!(rank_matches(&vec![Some(1), Some(2), Some(3)]), vec![2, 1, 0]);
    assert_eq!(rank_matches(&vec![Some(i64::MIN), Some(i64::MAX)]), vec![1, 0]);
}

#[test]
fn fuzzy_search_leaves_out_what_does_not_match() {
    let entries = registry();
    let found = fuzzy_search(&entries, "xmc");
    let users: Vec<&str> = found.iter().map(|p| p.user.as_str()).collect();
    assert_eq!(found.len(), 2);
    assert!(users.contains(&"brettm12345"));
    assert!(users.contains(&"carol"));
    assert_eq!(fuzzy_search(&entries, "zzz"), Vec::<&Project>::new());
}

#[test]
fn fuzzy_search_matches_the_rendered_form() {
    let entries = registry();
    let found = fuzzy_search(&entries, "alice/mon");
    assert_eq!(found, vec![&entries[2].project]);
    let found = fuzzy_search(&entries, "carol/x");
    assert_eq!(found, vec![&entries[4].project]);
}

#[test]
fn fuzzy_search_is_sorted_by_the_matcher_s_score() {
    let entries = registry();
    for query in ["a", "o", "mon", "x", "alice", "ce", "n"] {
        let found = fuzzy_search(&entries, query);
        let scores: Vec<i64> =
            found.iter().map(|p| score(&p.to_string(), query).unwrap()).collect();
        for pair in scores.windows(2) {
            assert!(pair[0] >= pair[1]);
        }
        let expected = entries.iter().filter(|e| score(&e.project.to_string(), query).is_some());
        assert_eq!(found.len(), expected.count());
    }
}

#[test]
fn fuzzy_search_agrees_with_a_stable_sort() {
    let entries = registry();
    for query in ["a", "o", "mon", "x", "alice", "ce", "n", "", "xmonad-config"] {
        let mut expected: Vec<&Project> = entries
            .iter()
            .map(|e| &e.project)
            .filter(|p| score(&p.to_string(), query).is_some())
            .collect();
        expected.sort_by(|a, b| score(&b.to_string(), query).cmp(&score(&a.to_string(), query)));
        assert_eq!(fuzzy_search(&entries, query), expected);
    }
}

#[test]
fn fuzzy_search_finds_only_subsequences() {
    let entries = registry();
    for query in ["amon", "bxc", "oo", "lie"] {
        for p in fuzzy_search(&entries, query) {
            let shown = p.to_string().to_ascii_lowercase();
            let mut rest = shown.chars();
            for c in query.chars() {
                assert!(rest.any(|d| d == c.to_ascii_lowercase()));
            }
        }
    }
}

#[test]
fn fuzzy_search_with_an_empty_query_lists_all_in_order() {
    let entries = registry();
    let found = fuzzy_search(&entries, "");
    let all: Vec<&Project> = entries.iter().map(|e| &e.project).collect();
    assert_eq!(found, all);
}

#[test]
fn fuzzy_search_prefers_the_closer_match() {
    let entries = vec![entry("01", "alice", "x-m-o-n"), entry("02", "bob", "mon")];
    let found = fuzzy_search(&entries, "mon");
    assert_eq!(found.len(), 2);
    assert_eq!(found[0].user, "bob");
    assert!(score("bob/mon", "mon").unwrap() > score("alice/x-m-o-n", "mon").unwrap());
}
