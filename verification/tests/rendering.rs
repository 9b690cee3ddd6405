use generate_dev_update::announce::{is_dev_update, last_dev_update};
use generate_dev_update::changelog::{changelog, ChangelogError};
use generate_dev_update::filter::{standard_exclusions, MalformedPolicy};
use generate_dev_update::model::{AnnouncementPost, AuthorGroup, PullRequest, Report};
use generate_dev_update::query::{closed_prs_query, feed_url, BranchFilter, FeedScope, PAGE_SIZE};
use generate_dev_update::render::{
    bullet_line, heading_text, preamble_text, render, render_bullet, render_section, MissingField,
};
use generate_dev_update::text::{push_decimal, push_digits, text_less};

const T: i64 = 1_700_000_000_000_000;

fn bots() -> Vec<String> {
    standard_exclusions()
}

fn pr(author: &str, title: &str, url: &str, merged_at: i64) -> PullRequest {
    PullRequest {
        title: Some(title.to_string()),
        url: Some(url.to_string()),
        author: Some(author.to_string()),
        merged_at: Some(merged_at),
        labels: Vec::new(),
        target_branch: "main".to_string(),
    }
}

fn post(title: &str, published: i64) -> AnnouncementPost {
    AnnouncementPost { title: title.to_string(), published }
}

fn rule() -> String {
    "=".repeat(100)
}

fn decimal(n: i64) -> String {
    let mut out = String::new();
    push_decimal(&mut out, n);
    out
}

#[test]
fn decimal_numerals() {
    assert_eq!(decimal(0), "0");
    assert_eq!(decimal(7), "7");
    assert_eq!(decimal(10), "10");
    assert_eq!(decimal(1234567890), "1234567890");
    assert_eq!(decimal(-1), "-1");
    assert_eq!(decimal(-905), "-905");
    assert_eq!(decimal(i64::MAX), "9223372036854775807");
    assert_eq!(decimal(i64::MIN), "-9223372036854775808");
    let mut out = "n=".to_string();
    push_digits(&mut out, u64::MAX);
    assert_eq!(out, "n=18446744073709551615");
}

#[test]
fn lexicographic_order_of_texts() {
    assert!(text_less("alice", "bob"));
    assert!(!text_less("bob", "alice"));
    assert!(text_less("al", "alice"));
    assert!(!text_less("alice", "al"));
    assert!(!text_less("alice", "alice"));
    assert!(text_less("", "a"));
    assert!(!text_less("", ""));
    assert!(text_less("Zed", "alice"));
    assert!(text_less("z", "é"));
    assert_eq!(text_less("a\u{10000}", "a\u{ffff}"), "a\u{10000}" < "a\u{ffff}");
}

#[test]
fn preamble_states_the_time() {
    assert_eq!(preamble_text(42), format!("Last dev update was at 42\n\n{}\n", rule()));
    assert_eq!(preamble_text(-3), format!("Last dev update was at -3\n\n{}\n", rule()));
}

#[test]
fn pieces_of_a_section() {
    assert_eq!(heading_text("alice"), "\n## alice\n\n");
    assert_eq!(bullet_line("Fix it", "https://x/1"), "- [Fix it](https://x/1)\n");
    assert_eq!(bullet_line("", ""), "- []()\n");
}

#[test]
fn titles_are_trimmed() {
    let spaced = pr("alice", "  Fix the  thing \n", "https://x/1", T + 1);
    assert_eq!(render_bullet(&spaced).unwrap(), "- [Fix the  thing](https://x/1)\n");
    let blank = pr("alice", " \t ", "https://x/2", T + 1);
    assert_eq!(render_bullet(&blank).unwrap(), "- [](https://x/2)\n");
}

#[test]
fn a_pull_request_without_title_or_url_is_not_rendered() {
    let mut no_title = pr("alice", "t", "u", T + 1);
    no_title.title = None;
    let mut no_url = pr("alice", "t", "u", T + 1);
    no_url.url = None;
    let mut neither = pr("alice", "t", "u", T + 1);
    neither.title = None;
    neither.url = None;
    assert_eq!(render_bullet(&no_title).unwrap_err(), MissingField::Title);
    assert_eq!(render_bullet(&no_url).unwrap_err(), MissingField::Url);
    assert_eq!(render_bullet(&neither).unwrap_err(), MissingField::Title);

    let group = AuthorGroup {
        author: "alice".to_string(),
        prs: vec![pr("alice", "ok", "u", T + 1), no_url, no_title],
    };
    assert_eq!(render_section(&group).unwrap_err(), (1, MissingField::Url));
    let report = Report {
        groups: vec![
            AuthorGroup { author: "bob".to_string(), prs: vec![pr("bob", "b", "u", T + 1)] },
            group,
        ],
    };
    let err = render(&report, T).unwrap_err();
    assert_eq!((err.group, err.index, err.field), (1, 1, MissingField::Url));
}

#[test]
fn report_renders_as_markdown() {
    let report = Report {
        groups: vec![
            AuthorGroup {
                author: "bob".to_string(),
                prs: vec![pr("bob", "One", "https://x/1", T + 1)],
            },
            AuthorGroup {
                author: "alice".to_string(),
                prs: vec![
                    pr("alice", " Two ", "https://x/2", T + 1),
                    pr("alice", "Three", "https://x/3", T + 1),
                ],
            },
        ],
    };
    let expected = format!(
        "Last dev update was at 1700000000000000\n\n{}\n\n## bob\n\n- [One](https://x/1)\n\n## alice\n\n- [Two](https://x/2)\n- [Three](https://x/3)\n",
        rule()
    );
    assert_eq!(render(&report, T).unwrap(), expected);
    assert_eq!(render(&report, T).unwrap(), render(&report, T).unwrap());
}

#[test]
fn empty_report_renders_only_the_preamble() {
    let report = Report { groups: Vec::new() };
    assert_eq!(render(&report, T).unwrap(), preamble_text(T));
}

#[test]
fn first_matching_post_is_the_last_update() {
    let posts = vec![
        post("Release v0.19", 50),
        post("Lemmy Development Update October", 40),
        post("Lemmy Development Update September", 30),
    ];
    let found = last_dev_update(&posts).unwrap();
    assert_eq!(found.title, "Lemmy Development Update October");
    assert_eq!(found.published, 40);
    assert!(is_dev_update(&post("[Weekly] Lemmy Development Update!", 1)));
    assert!(!is_dev_update(&post("lemmy development update", 1)));
    assert!(!is_dev_update(&post("Lemmy Development", 1)));
    assert!(!is_dev_update(&post("", 1)));
}

#[test]
fn twenty_posts_without_an_update_are_not_found() {
    let mut posts = Vec::new();
    for i in 0..20 {
        posts.push(post(&format!("Release notes {}", i), 100 - i));
    }
    assert_eq!(last_dev_update(&posts).unwrap_err().searched, 20);
    let lists = vec![vec![pr("alice", "a", "u", T + 1)]];
    match changelog(&posts, &lists, MalformedPolicy::Strict, &bots()) {
        Err(ChangelogError::NotFound(e)) => assert_eq!(e.searched, 20),
        other => panic!("unexpected: {:?}", other),
    }
    assert_eq!(last_dev_update(&Vec::new()).unwrap_err().searched, 0);
}

#[test]
fn changelog_from_feed_and_lists() {
    let posts = vec![post("Hello", T + 10), post("Lemmy Development Update", T)];
    let mut bot = pr("renovate[bot]", "bump", "https://x/9", T + 3);
    bot.labels = vec!["dependencies".to_string()];
    let mut hidden = pr("bob", "b1", "https://x/8", T + 1);
    hidden.labels = vec!["internal".to_string()];
    let lists = vec![
        vec![pr("alice", "a1", "https://x/1", T + 1), bot],
        vec![hidden, pr("alice", "a2", "https://x/2", T + 2)],
    ];
    let expected = format!(
        "Last dev update was at 1700000000000000\n\n{}\n\n## alice\n\n- [a1](https://x/1)\n- [a2](https://x/2)\n",
        rule()
    );
    assert_eq!(changelog(&posts, &lists, MalformedPolicy::Strict, &bots()).unwrap(), expected);
}

#[test]
fn changelog_reports_what_went_wrong() {
    let posts = vec![post("Lemmy Development Update", T)];
    let mut anonymous = pr("x", "anon", "u", T + 1);
    anonymous.author = None;
    let mut untitled = pr("alice", "t", "u", T + 1);
    untitled.title = None;
    let lists = vec![vec![untitled, anonymous]];
    match changelog(&posts, &lists, MalformedPolicy::Strict, &bots()) {
        Err(ChangelogError::MalformedData(e)) => assert_eq!(e.index, 1),
        other => panic!("unexpected: {:?}", other),
    }
    match changelog(&posts, &lists, MalformedPolicy::Lenient, &bots()) {
        Err(ChangelogError::Render(e)) => {
            assert_eq!((e.group, e.index, e.field), (0, 0, MissingField::Title))
        }
        other => panic!("unexpected: {:?}", other),
    }
}

#[test]
fn changelog_without_qualifying_pull_requests_is_the_preamble() {
    let posts = vec![post("Lemmy Development Update", T)];
    let lists = vec![vec![pr("alice", "old", "u", T), pr("renovate[bot]", "bump", "u", T + 1)]];
    assert_eq!(changelog(&posts, &lists, MalformedPolicy::Strict, &bots()).unwrap(), preamble_text(T));
    assert_eq!(changelog(&posts, &Vec::new(), MalformedPolicy::Strict, &bots()).unwrap(), preamble_text(T));
}

#[test]
fn queries_say_what_is_asked() {
    let q = closed_prs_query("LemmyNet", "lemmy-ui", "main", BranchFilter::Base);
    assert_eq!(q.owner, "LemmyNet");
    assert_eq!(q.repo, "lemmy-ui");
    assert_eq!(q.branch, "main");
    assert_eq!(q.filter, BranchFilter::Base);
    assert_eq!(q.per_page, 100);
    assert_eq!(PAGE_SIZE, 100);
    assert_eq!(closed_prs_query("o", "r", "b", BranchFilter::Head).filter, BranchFilter::Head);
    assert_eq!(
        feed_url(FeedScope::Local),
        "https://lemmy.ml/api/v3/post/list?limit=20&sort=New&type=Local&community_name=announcements"
    );
    assert_eq!(
        feed_url(FeedScope::All),
        "https://lemmy.ml/api/v3/post/list?limit=20&sort=New&type=All&community_name=announcements"
    );
}
