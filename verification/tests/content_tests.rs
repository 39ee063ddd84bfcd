use nebula::content::ContentStore;
use nebula::date::Moment;
use nebula::models::{
    status_label, Post, PostMetadata, Project, ProjectMetadata, ProjectStatus,
};

fn day(year: i32, month: u8, day: u8) -> Moment {
    Moment { year, month, day, hour: 0, minute: 0, second: 0 }
}

fn post(slug: &str, date: Moment, draft: bool, tags: &[&str]) -> Post {
    Post {
        metadata: PostMetadata {
            title: format!("Title of {}", slug),
            slug: slug.to_string(),
            description: None,
            date,
            updated: None,
            tags: tags.iter().map(|t| t.to_string()).collect(),
            draft,
            cover_image: None,
        },
        content_raw: "body".to_string(),
        content_html: "<p>body</p>".to_string(),
        reading_time_minutes: 1,
    }
}

fn project(slug: &str, date: Moment, featured: bool) -> Project {
    Project {
        metadata: ProjectMetadata {
            title: format!("Project {}", slug),
            slug: slug.to_string(),
            description: None,
            date,
            updated: None,
            tags: vec![],
            status: ProjectStatus::Active,
            github_url: None,
            demo_url: None,
            featured,
        },
        content_raw: "body".to_string(),
        content_html: "<p>body</p>".to_string(),
    }
}

#[test]
fn published_posts_are_sorted_and_skip_drafts() {
    let mut store = ContentStore::new();
    store.insert_post(post("old", day(2022, 3, 1), false, &[]));
    store.insert_post(post("hidden", day(2024, 6, 1), true, &[]));
    store.insert_post(post("new", day(2024, 5, 2), false, &[]));
    store.insert_post(post("middle", day(2023, 1, 15), false, &[]));

    let published = store.published_posts();
    let slugs: Vec<&str> = published.iter().map(|p| p.metadata.slug.as_str()).collect();
    assert_eq!(slugs, vec!["new", "middle", "old"]);
}

#[test]
fn equal_dates_keep_a_stable_order() {
    let mut store = ContentStore::new();
    store.insert_post(post("one", day(2024, 1, 1), false, &[]));
    store.insert_post(post("two", day(2024, 1, 1), false, &[]));
    store.insert_post(post("three", day(2024, 1, 1), false, &[]));

    let first: Vec<String> =
        store.published_posts().iter().map(|p| p.metadata.slug.clone()).collect();
    let second: Vec<String> =
        store.published_posts().iter().map(|p| p.metadata.slug.clone()).collect();
    assert_eq!(first, second);
    assert_eq!(first.len(), 3);
}

#[test]
fn insert_replaces_same_slug() {
    let mut store = ContentStore::new();
    store.insert_post(post("hello", day(2024, 1, 1), false, &[]));
    let mut replacement = post("hello", day(2024, 2, 2), false, &[]);
    replacement.metadata.title = "Rewritten".to_string();
    store.insert_post(replacement);

    assert_eq!(store.posts_count(), 1);
    let found = store.visible_post("hello").expect("post should be visible");
    assert_eq!(found.metadata.title, "Rewritten");
    assert_eq!(found.metadata.date, day(2024, 2, 2));
}

#[test]
fn visible_post_hides_drafts_and_unknown_slugs() {
    let mut store = ContentStore::new();
    store.insert_post(post("shown", day(2024, 1, 1), false, &[]));
    store.insert_post(post("secret", day(2024, 1, 2), true, &[]));

    assert!(store.visible_post("shown").is_some());
    assert!(store.visible_post("secret").is_none());
    assert!(store.visible_post("absent").is_none());
}

#[test]
fn projects_sort_and_filter_featured() {
    let mut store = ContentStore::new();
    store.insert_project(project("a", day(2021, 1, 1), true));
    store.insert_project(project("b", day(2023, 1, 1), false));
    store.insert_project(project("c", day(2022, 1, 1), true));

    let all = store.all_projects();
    let slugs: Vec<&str> = all.iter().map(|p| p.metadata.slug.as_str()).collect();
    assert_eq!(slugs, vec!["b", "c", "a"]);

    let featured = store.featured_projects();
    let slugs: Vec<&str> = featured.iter().map(|p| p.metadata.slug.as_str()).collect();
    assert_eq!(slugs, vec!["c", "a"]);

    assert!(store.project_by_slug("b").is_some());
    assert!(store.project_by_slug("zzz").is_none());
}

#[test]
fn tags_are_sorted_deduplicated_and_case_preserving() {
    let mut store = ContentStore::new();
    store.insert_post(post("one", day(2024, 1, 1), false, &["rust", "verification"]));
    store.insert_post(post("two", day(2024, 1, 2), false, &["Rust", "rust", "axum"]));
    store.insert_post(post("draft", day(2024, 1, 3), true, &["invisible"]));

    let tags = store.all_tags();
    // Exact duplicates collapse; "Rust" and "rust" are different spellings
    // and both stay, in ascending order.
    assert_eq!(tags, vec!["Rust", "axum", "rust", "verification"]);
}

#[test]
fn posts_by_tag_matches_case_insensitively() {
    let mut store = ContentStore::new();
    store.insert_post(post("one", day(2024, 1, 1), false, &["rust"]));
    store.insert_post(post("two", day(2024, 1, 2), false, &["cooking"]));
    store.insert_post(post("hidden", day(2024, 1, 3), true, &["rust"]));

    let hits = store.posts_by_tag("Rust");
    assert_eq!(hits.len(), 1);
    assert_eq!(hits[0].metadata.slug, "one");

    let none = store.posts_by_tag("gardening");
    assert!(none.is_empty());
}

#[test]
fn replace_swaps_whole_store() {
    let mut live = ContentStore::new();
    live.insert_post(post("before", day(2023, 1, 1), false, &[]));

    let mut fresh = ContentStore::new();
    fresh.insert_post(post("after-one", day(2024, 1, 1), false, &[]));
    fresh.insert_post(post("after-two", day(2024, 2, 1), false, &[]));

    live.replace_with(fresh);
    let slugs: Vec<String> = live
        .published_posts()
        .iter()
        .map(|p| p.metadata.slug.clone())
        .collect();
    assert_eq!(slugs, vec!["after-two", "after-one"]);
    assert!(live.visible_post("before").is_none());
    assert_eq!(live.posts_count(), 2);
}

#[test]
fn reading_time_rounds_up() {
    assert_eq!(Post::estimate_reading_time(""), 0);
    assert_eq!(Post::estimate_reading_time("one two three"), 1);
    let two_hundred = vec!["word"; 200].join(" ");
    assert_eq!(Post::estimate_reading_time(&two_hundred), 1);
    let two_hundred_one = vec!["word"; 201].join(" ");
    assert_eq!(Post::estimate_reading_time(&two_hundred_one), 2);
}

#[test]
fn status_labels_match_variants() {
    assert_eq!(status_label(&ProjectStatus::Active), "Active");
    assert_eq!(status_label(&ProjectStatus::Completed), "Completed");
    assert_eq!(status_label(&ProjectStatus::Archived), "Archived");
    assert_eq!(status_label(&ProjectStatus::Planned), "Planned");
}
