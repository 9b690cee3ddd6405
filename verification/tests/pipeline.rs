use generate_dev_update::filter::{
    contains_text, has_label, merged_since, select, standard_exclusions, written_by,
    MalformedPolicy,
};
use generate_dev_update::group::{collect_by_author, distinct_authors, group_by_author, position_of};
use generate_dev_update::model::{AuthorGroup, PullRequest};
use generate_dev_update::order::{arrange, group_order, order_groups, precedes};
use generate_dev_update::pipeline::{aggregate, concatenate};
use std::cmp::Ordering;

const T: i64 = 1_700_000_000_000_000;

fn bots() -> Vec<String> {
    standard_exclusions()
}

fn pr(author: &str, title: &str, merged_at: Option<i64>, labels: &[&str]) -> PullRequest {
    PullRequest {
        title: Some(title.to_string()),
        url: Some(format!("https://example.org/{}", title)),
        author: Some(author.to_string()),
        merged_at,
        labels: labels.iter().map(|l| l.to_string()).collect(),
        target_branch: "main".to_string(),
    }
}

fn group(author: &str, n: usize) -> AuthorGroup {
    let mut prs = Vec::new();
    for i in 0..n {
        prs.push(pr(author, &format!("{}-{}", author, i), Some(T + 1), &[]));
    }
    AuthorGroup { author: author.to_string(), prs }
}

fn titles(prs: &[PullRequest]) -> Vec<String> {
    prs.iter().map(|p| p.title.clone().unwrap()).collect()
}

fn summary(groups: &[AuthorGroup]) -> Vec<(String, Vec<String>)> {
    groups.iter().map(|g| (g.author.clone(), titles(&g.prs))).collect()
}

#[test]
fn scenario_alice_bob_and_the_bot() {
    let lists = vec![vec![
        pr("alice", "a1", Some(T + 1), &[]),
        pr("renovate[bot]", "r1", Some(T + 3), &[]),
        pr("bob", "b1", Some(T + 1), &["internal"]),
        pr("alice", "a2", Some(T + 2), &[]),
    ]];
    let report = aggregate(&lists, T, MalformedPolicy::Strict, &bots()).unwrap();
    assert_eq!(
        summary(&report.groups),
        vec![("alice".to_string(), vec!["a1".to_string(), "a2".to_string()])]
    );
    assert_eq!(report.groups[0].count(), 2);
}

#[test]
fn recency_is_strict() {
    let at = pr("alice", "at", Some(T), &[]);
    let after = pr("alice", "after", Some(T + 1), &[]);
    let before = pr("alice", "before", Some(T - 1), &[]);
    let unmerged = pr("alice", "unmerged", None, &[]);
    assert!(!merged_since(&at, T));
    assert!(merged_since(&after, T));
    assert!(!merged_since(&before, T));
    assert!(!merged_since(&unmerged, T));
    let chosen = select(&vec![at, after, before, unmerged], T, MalformedPolicy::Strict, &bots()).unwrap();
    assert_eq!(titles(&chosen), vec!["after".to_string()]);
}

#[test]
fn recency_at_the_limits() {
    let last = pr("alice", "last", Some(i64::MAX), &[]);
    let first = pr("alice", "first", Some(i64::MIN), &[]);
    assert!(!merged_since(&last, i64::MAX));
    assert!(merged_since(&last, i64::MAX - 1));
    assert!(!merged_since(&first, i64::MIN));
}

#[test]
fn internal_label_is_matched_exactly() {
    let internal = "internal".to_string();
    let plain = pr("alice", "plain", Some(T + 1), &["bug", "internal", "ui"]);
    let upper = pr("alice", "upper", Some(T + 1), &["Internal"]);
    let longer = pr("alice", "longer", Some(T + 1), &["internal-api", "not internal"]);
    let none = pr("alice", "none", Some(T + 1), &[]);
    assert!(has_label(&plain, &internal));
    assert!(!has_label(&upper, &internal));
    assert!(!has_label(&longer, &internal));
    assert!(!has_label(&none, &internal));
    let chosen = select(&vec![plain, upper, longer, none], T, MalformedPolicy::Strict, &bots()).unwrap();
    assert_eq!(
        titles(&chosen),
        vec!["upper".to_string(), "longer".to_string(), "none".to_string()]
    );
}

#[test]
fn the_bot_is_left_out() {
    let bot = pr("renovate[bot]", "bump", Some(T + 1), &[]);
    let near = pr("renovate", "near", Some(T + 1), &[]);
    assert!(written_by(&bot, &"renovate[bot]".to_string()));
    assert!(!written_by(&near, &"renovate[bot]".to_string()));
    let report = aggregate(&vec![vec![bot, near]], T, MalformedPolicy::Strict, &bots()).unwrap();
    assert_eq!(summary(&report.groups), vec![("renovate".to_string(), vec!["near".to_string()])]);
}

#[test]
fn missing_author_strict_and_lenient() {
    let mut anonymous = pr("x", "anon", Some(T + 1), &[]);
    anonymous.author = None;
    let mut old_anonymous = pr("x", "old", Some(T - 5), &[]);
    old_anonymous.author = None;
    let mut internal_anonymous = pr("x", "hidden", Some(T + 5), &["internal"]);
    internal_anonymous.author = None;
    let prs = vec![
        old_anonymous,
        pr("alice", "a1", Some(T + 1), &[]),
        internal_anonymous,
        anonymous,
        pr("bob", "b1", Some(T + 1), &[]),
    ];
    let err = select(&prs, T, MalformedPolicy::Strict, &bots()).unwrap_err();
    assert_eq!(err.index, 3);
    let chosen = select(&prs, T, MalformedPolicy::Lenient, &bots()).unwrap();
    assert_eq!(titles(&chosen), vec!["a1".to_string(), "b1".to_string()]);
    let lists = vec![vec![pr("carol", "c1", Some(T + 9), &[])], prs];
    assert_eq!(aggregate(&lists, T, MalformedPolicy::Strict, &bots()).unwrap_err().index, 4);
    assert_eq!(aggregate(&lists, T, MalformedPolicy::Lenient, &bots()).unwrap().groups.len(), 3);
}

#[test]
fn an_unattributed_request_that_is_filtered_out_is_no_failure() {
    let mut old_anonymous = pr("x", "old", Some(T), &[]);
    old_anonymous.author = None;
    let chosen = select(&vec![old_anonymous], T, MalformedPolicy::Strict, &bots()).unwrap();
    assert!(chosen.is_empty());
}

#[test]
fn concatenation_keeps_the_order_of_the_lists() {
    let lists = vec![
        vec![pr("a", "1", None, &[]), pr("b", "2", None, &[])],
        vec![],
        vec![pr("c", "3", None, &["x"])],
    ];
    let all = concatenate(&lists);
    assert_eq!(titles(&all), vec!["1".to_string(), "2".to_string(), "3".to_string()]);
    assert_eq!(all[2].labels, vec!["x".to_string()]);
    assert_eq!(all[2].target_branch, "main");
    assert!(concatenate(&vec![]).is_empty());
}

#[test]
fn grouping_does_not_depend_on_neighbours() {
    let prs = vec![
        pr("alice", "a1", Some(T + 1), &[]),
        pr("bob", "b1", Some(T + 1), &[]),
        pr("alice", "a2", Some(T + 1), &[]),
        pr("carol", "c1", Some(T + 1), &[]),
        pr("bob", "b2", Some(T + 1), &[]),
        pr("alice", "a3", Some(T + 1), &[]),
    ];
    assert_eq!(
        distinct_authors(&prs),
        vec!["alice".to_string(), "bob".to_string(), "carol".to_string()]
    );
    assert_eq!(
        titles(&collect_by_author(&prs, &"bob".to_string())),
        vec!["b1".to_string(), "b2".to_string()]
    );
    assert!(collect_by_author(&prs, &"dave".to_string()).is_empty());
    let groups = group_by_author(&prs);
    assert_eq!(
        summary(&groups),
        vec![
            ("alice".to_string(), vec!["a1".to_string(), "a2".to_string(), "a3".to_string()]),
            ("bob".to_string(), vec!["b1".to_string(), "b2".to_string()]),
            ("carol".to_string(), vec!["c1".to_string()]),
        ]
    );
    let total: usize = groups.iter().map(|g| g.count()).sum();
    assert_eq!(total, prs.len());
}

#[test]
fn position_of_finds_the_login() {
    let names = vec!["alice".to_string(), "bob".to_string()];
    assert_eq!(position_of(&names, &"bob".to_string()), Some(1));
    assert_eq!(position_of(&names, &"Bob".to_string()), None);
    assert_eq!(position_of(&Vec::new(), &"bob".to_string()), None);
}

#[test]
fn groups_are_ordered_by_count_then_login_descending() {
    let groups = vec![
        group("alice", 2),
        group("bob", 1),
        group("carol", 2),
        group("dave", 3),
        group("erin", 1),
    ];
    let shown = order_groups(&groups);
    let logins: Vec<&str> = shown.iter().map(|g| g.author.as_str()).collect();
    assert_eq!(logins, vec!["erin", "bob", "carol", "alice", "dave"]);
    let counts: Vec<usize> = shown.iter().map(|g| g.count()).collect();
    assert_eq!(counts, vec![1, 1, 2, 2, 3]);
    assert_eq!(titles(&shown[3].prs), vec!["alice-0".to_string(), "alice-1".to_string()]);
}

#[test]
fn ordering_a_sorted_list_backwards_changes_it() {
    let groups = vec![group("zed", 3), group("yan", 2), group("xia", 1)];
    let shown = order_groups(&groups);
    let logins: Vec<&str> = shown.iter().map(|g| g.author.as_str()).collect();
    assert_eq!(logins, vec!["xia", "yan", "zed"]);
    assert!(order_groups(&Vec::new()).is_empty());
}

#[test]
fn comparison_of_groups() {
    let a1 = group("alice", 1);
    let b1 = group("bob", 1);
    let a2 = group("alice", 2);
    assert!(precedes(&b1, &a1));
    assert!(!precedes(&a1, &b1));
    assert!(precedes(&b1, &a2));
    assert!(!precedes(&a2, &b1));
    assert!(!precedes(&a1, &a1));
    assert_eq!(group_order(&b1, &a1), Ordering::Less);
    assert_eq!(group_order(&a1, &b1), Ordering::Greater);
    assert_eq!(group_order(&a1, &a1), Ordering::Equal);
    assert_eq!(group_order(&a2, &a1), Ordering::Greater);
}

#[test]
fn arrange_follows_the_positions() {
    let groups = vec![group("alice", 1), group("bob", 2), group("carol", 3)];
    let shown = arrange(&groups, &vec![2, 0, 1]);
    let logins: Vec<&str> = shown.iter().map(|g| g.author.as_str()).collect();
    assert_eq!(logins, vec!["carol", "alice", "bob"]);
}

#[test]
fn report_is_ordered_and_partitions() {
    let lists = vec![
        vec![
            pr("bob", "b1", Some(T + 4), &[]),
            pr("alice", "a1", Some(T + 2), &[]),
            pr("zoe", "z1", Some(T + 1), &[]),
            pr("alice", "skipped", Some(T), &[]),
        ],
        vec![
            pr("alice", "a2", Some(T + 9), &["ui"]),
            pr("bob", "b2", Some(T + 1), &[]),
            pr("alice", "a3", Some(T + 1), &[]),
            pr("adam", "d1", Some(T + 1), &[]),
        ],
    ];
    let report = aggregate(&lists, T, MalformedPolicy::Strict, &bots()).unwrap();
    assert_eq!(
        summary(&report.groups),
        vec![
            ("zoe".to_string(), vec!["z1".to_string()]),
            ("adam".to_string(), vec!["d1".to_string()]),
            ("bob".to_string(), vec!["b1".to_string(), "b2".to_string()]),
            ("alice".to_string(), vec!["a1".to_string(), "a2".to_string(), "a3".to_string()]),
        ]
    );
}

#[test]
fn empty_input_gives_an_empty_report() {
    assert!(aggregate(&vec![], T, MalformedPolicy::Strict, &bots()).unwrap().groups.is_empty());
    assert!(aggregate(&vec![vec![], vec![]], T, MalformedPolicy::Strict, &bots()).unwrap().groups.is_empty());
    let old = vec![vec![pr("alice", "a", Some(T), &[])]];
    assert!(aggregate(&old, T, MalformedPolicy::Strict, &bots()).unwrap().groups.is_empty());
}

#[test]
fn copies_keep_every_field() {
    let mut source = pr("alice", "title", Some(T + 1), &["a", "b"]);
    source.target_branch = "release".to_string();
    let copy = source.duplicate();
    assert_eq!(copy.title, source.title);
    assert_eq!(copy.url, source.url);
    assert_eq!(copy.author, source.author);
    assert_eq!(copy.merged_at, source.merged_at);
    assert_eq!(copy.labels, source.labels);
    assert_eq!(copy.target_branch, source.target_branch);
    let g = group("bob", 2).duplicate();
    assert_eq!(g.author, "bob");
    assert_eq!(g.count(), 2);
}

#[test]
fn groups_appear_in_the_order_of_their_first_pull_request() {
    let prs = vec![
        pr("zoe", "z1", Some(T + 1), &[]),
        pr("adam", "d1", Some(T + 1), &[]),
        pr("zoe", "z2", Some(T + 1), &[]),
        pr("mia", "m1", Some(T + 1), &[]),
    ];
    let groups = group_by_author(&prs);
    let logins: Vec<&str> = groups.iter().map(|g| g.author.as_str()).collect();
    assert_eq!(logins, vec!["zoe", "adam", "mia"]);
    let mut unattributed = pr("x", "u1", Some(T + 1), &[]);
    unattributed.author = None;
    let groups = group_by_author(&vec![unattributed, pr("bob", "b1", Some(T + 1), &[])]);
    assert_eq!(summary(&groups), vec![("bob".to_string(), vec!["b1".to_string()])]);
}

#[test]
fn groups_that_compare_as_equal_keep_their_order() {
    let first = AuthorGroup { author: "alice".to_string(), prs: vec![pr("alice", "first", None, &[])] };
    let second = AuthorGroup { author: "alice".to_string(), prs: vec![pr("alice", "second", None, &[])] };
    let shown = order_groups(&vec![group("bob", 2), first, group("zed", 1), second]);
    assert_eq!(
        summary(&shown),
        vec![
            ("zed".to_string(), vec!["zed-0".to_string()]),
            ("alice".to_string(), vec!["first".to_string()]),
            ("alice".to_string(), vec!["second".to_string()]),
            ("bob".to_string(), vec!["bob-0".to_string(), "bob-1".to_string()]),
        ]
    );
}

#[test]
fn the_excluded_authors_can_be_chosen() {
    assert_eq!(standard_exclusions(), vec!["renovate[bot]".to_string()]);
    let lists = vec![vec![
        pr("renovate[bot]", "bump", Some(T + 1), &[]),
        pr("alice", "a1", Some(T + 1), &[]),
        pr("dependabot", "d1", Some(T + 1), &[]),
        pr("alice", "a2", Some(T + 1), &[]),
    ]];
    let none = aggregate(&lists, T, MalformedPolicy::Strict, &Vec::new()).unwrap();
    assert_eq!(
        summary(&none.groups),
        vec![
            ("renovate[bot]".to_string(), vec!["bump".to_string()]),
            ("dependabot".to_string(), vec!["d1".to_string()]),
            ("alice".to_string(), vec!["a1".to_string(), "a2".to_string()]),
        ]
    );
    let both = vec!["dependabot".to_string(), "renovate[bot]".to_string()];
    let report = aggregate(&lists, T, MalformedPolicy::Strict, &both).unwrap();
    assert_eq!(
        summary(&report.groups),
        vec![("alice".to_string(), vec!["a1".to_string(), "a2".to_string()])]
    );
    assert!(contains_text(&both, &"dependabot".to_string()));
    assert!(!contains_text(&both, &"Dependabot".to_string()));
    assert!(!contains_text(&Vec::new(), &"dependabot".to_string()));
}
