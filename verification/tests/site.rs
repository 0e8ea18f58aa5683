use jambonne_site::build_view_at;
use jambonne_site::content_type_for;
use jambonne_site::default_post_dirs;
use jambonne_site::get_post;
use jambonne_site::is_valid_slug;
use jambonne_site::join_keywords;
use jambonne_site::list_posts;
use jambonne_site::post_path_candidates;
use jambonne_site::title_from_content;
use jambonne_site::PostError;
use jambonne_site::ReadingItem;

#[test]
fn valid_slugs_accepted() {
    assert!(is_valid_slug("hello-world"));
    assert!(is_valid_slug("2024_post-1"));
    assert!(is_valid_slug("A"));
}

#[test]
fn invalid_slugs_rejected() {
    assert!(!is_valid_slug(""));
    assert!(!is_valid_slug("bad!slug"));
    assert!(!is_valid_slug("../../etc/passwd"));
    assert!(!is_valid_slug("a/b"));
    assert!(!is_valid_slug("a.b"));
    assert!(!is_valid_slug("with space"));
    let long = "a".repeat(129);
    assert!(!is_valid_slug(&long));
    let just_fits = "a".repeat(128);
    assert!(is_valid_slug(&just_fits));
}

#[test]
fn traversal_slug_is_client_error_before_any_lookup() {
    let dirs = default_post_dirs();
    let r = post_path_candidates("../../etc/passwd", &dirs);
    assert_eq!(r, Err(PostError::InvalidSlug));
    let r = get_post("../../etc/passwd", None);
    assert!(matches!(r, Err(PostError::InvalidSlug)));
    // Even content handed over by mistake is never rendered for a bad slug.
    let content = "# secret".to_string();
    let r = get_post("../../etc/passwd", Some(&content));
    assert!(matches!(r, Err(PostError::InvalidSlug)));
}

#[test]
fn valid_slug_without_file_is_not_found() {
    let r = get_post("nonexistent-post", None);
    assert!(matches!(r, Err(PostError::NotFound)));
}

#[test]
fn candidate_paths_follow_preference_order() {
    let dirs = default_post_dirs();
    let paths = post_path_candidates("my-post", &dirs).expect("valid slug");
    assert_eq!(paths, vec!["posts/my-post.md".to_string(), "/app/posts/my-post.md".to_string()]);
}

#[test]
fn rendered_post_has_title_and_paragraph() {
    let content = "# Hello World\nBody text".to_string();
    let post = get_post("hello-world", Some(&content)).expect("post renders");
    assert_eq!(post.title, "Hello World");
    assert!(post.html.contains("<p>Body text</p>"));
}

#[test]
fn rendered_post_normalizes_crlf_lines() {
    let content = "# Title\r\nfirst\r\nsecond".to_string();
    let post = get_post("a-post", Some(&content)).expect("post renders");
    assert_eq!(post.title, "Title");
    assert!(post.html.contains("first"));
    assert!(post.html.contains("second"));
}

#[test]
fn titles_strip_hashes_and_whitespace() {
    assert_eq!(title_from_content("# Hello World\nBody"), "Hello World");
    assert_eq!(title_from_content("###  Spaced out  \nrest"), "Spaced out");
    assert_eq!(title_from_content(""), "Untitled");
    assert_eq!(title_from_content("no heading"), "no heading");
    assert_eq!(title_from_content("\nbody only"), "");
}

#[test]
fn listing_is_strictly_descending_by_slug() {
    let files = vec![
        ("alpha.md".to_string(), "# Alpha".to_string()),
        ("gamma.md".to_string(), "# Gamma".to_string()),
        ("beta.md".to_string(), "# Beta".to_string()),
        ("notes.txt".to_string(), "not a post".to_string()),
    ];
    let posts = list_posts(&files);
    let slugs: Vec<&str> = posts.iter().map(|p| p.slug.as_str()).collect();
    assert_eq!(slugs, vec!["gamma", "beta", "alpha"]);
    let titles: Vec<&str> = posts.iter().map(|p| p.title.as_str()).collect();
    assert_eq!(titles, vec!["Gamma", "Beta", "Alpha"]);
}

#[test]
fn listing_strips_one_extension_only() {
    let files = vec![
        ("a.md".to_string(), "# One".to_string()),
        ("a.md.md".to_string(), "# Two".to_string()),
    ];
    let posts = list_posts(&files);
    let slugs: Vec<&str> = posts.iter().map(|p| p.slug.as_str()).collect();
    assert_eq!(slugs, vec!["a.md", "a"]);
}

#[test]
fn listing_orders_by_code_point() {
    let files = vec![
        ("Zulu.md".to_string(), "# Z".to_string()),
        ("alpha.md".to_string(), "# a".to_string()),
    ];
    let posts = list_posts(&files);
    let slugs: Vec<&str> = posts.iter().map(|p| p.slug.as_str()).collect();
    assert_eq!(slugs, vec!["alpha", "Zulu"]);
}

#[test]
fn listing_of_nothing_is_empty() {
    let files: Vec<(String, String)> = Vec::new();
    let posts = list_posts(&files);
    assert!(posts.is_empty());
}

#[test]
fn empty_reading_list_yields_error_view() {
    let items: Vec<ReadingItem> = Vec::new();
    let view = build_view_at(&items, "2024-01-01T00:00:00+00:00".to_string());
    assert!(view.reading.is_none());
    assert_eq!(view.error, Some("No reading list items found".to_string()));
}

#[test]
fn reading_view_numbers_items_in_source_order() {
    let mut items: Vec<ReadingItem> = Vec::new();
    for k in 0..12 {
        items.push(ReadingItem {
            title: format!("title {}", k),
            url: format!("https://example.org/{}", k),
            date_added: "2024-05-01T00:00:00+00:00".to_string(),
        });
    }
    let view = build_view_at(&items, "2024-06-01T00:00:00+00:00".to_string());
    assert!(view.error.is_none());
    let data = view.reading.expect("populated view");
    assert_eq!(data.id, "reading-list");
    assert_eq!(data.created_at, "2024-06-01T00:00:00+00:00");
    assert!(data.edges.is_empty());
    assert!(data.clusters.is_empty());
    assert_eq!(data.nodes.len(), 12);
    for (k, node) in data.nodes.iter().enumerate() {
        assert_eq!(node.id, k.to_string());
        assert_eq!(node.title, format!("title {}", k));
        assert_eq!(node.url, format!("https://example.org/{}", k));
        assert_eq!(node.cluster, 0);
        assert!(node.keywords.is_empty());
        assert_eq!(node.content_preview, "");
    }
}

#[test]
fn join_keywords_matches_plain_join() {
    let words = vec!["rust".to_string(), "verus".to_string(), "proofs".to_string()];
    assert_eq!(join_keywords(&words, ", "), "rust, verus, proofs");
    let one = vec!["solo".to_string()];
    assert_eq!(join_keywords(&one, ", "), "solo");
    let none: Vec<String> = Vec::new();
    assert_eq!(join_keywords(&none, ", "), "");
}

#[test]
fn title_only_post_renders_empty_body() {
    let content = "# Only a title".to_string();
    let post = get_post("only-title", Some(&content)).expect("post renders");
    assert_eq!(post.title, "Only a title");
    assert_eq!(post.html, "");
}

#[test]
fn markdown_extensions_are_enabled() {
    let content = "# T\nplain ~~gone~~ text".to_string();
    let post = get_post("t", Some(&content)).expect("post renders");
    assert!(post.html.contains("<del>gone</del>"));
}

#[test]
fn listing_skips_hidden_and_uppercase_extensions() {
    let files = vec![
        (".md".to_string(), "# Hidden".to_string()),
        ("loud.MD".to_string(), "# Loud".to_string()),
        ("real.md".to_string(), "# Real".to_string()),
    ];
    let posts = list_posts(&files);
    let slugs: Vec<&str> = posts.iter().map(|p| p.slug.as_str()).collect();
    assert_eq!(slugs, vec!["real"]);
}

#[test]
fn content_types_follow_extension_table() {
    assert_eq!(content_type_for("css/site.css"), "text/css");
    assert_eq!(content_type_for("js/app.js"), "application/javascript");
    assert_eq!(content_type_for("img/logo.png"), "image/png");
    assert_eq!(content_type_for("img/photo.jpg"), "image/jpeg");
    assert_eq!(content_type_for("img/photo.jpeg"), "image/jpeg");
    assert_eq!(content_type_for("img/icon.svg"), "image/svg+xml");
    assert_eq!(content_type_for("fonts/a.woff"), "font/woff");
    assert_eq!(content_type_for("fonts/a.woff2"), "font/woff2");
    assert_eq!(content_type_for("fonts/a.ttf"), "font/ttf");
    assert_eq!(content_type_for("docs/cv.pdf"), "application/pdf");
    assert_eq!(content_type_for("README"), "text/plain");
    assert_eq!(content_type_for("archive.gz"), "text/plain");
}
