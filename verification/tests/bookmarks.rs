use jambonne_site::build_view;
use jambonne_site::reading_list_from_bookmarks;
use jambonne_site::BookmarkEntry;
use jambonne_site::BookmarkFolder;
use jambonne_site::ReadingItem;

const NOW: &str = "2024-07-01T12:00:00+00:00";

fn entry(title: Option<&str>, url: Option<&str>, date: Option<&str>) -> BookmarkEntry {
    BookmarkEntry {
        title: title.map(|s| s.to_string()),
        url: url.map(|s| s.to_string()),
        date_added: date.map(|s| s.to_string()),
    }
}

#[test]
fn bookmarks_without_reading_folder_yield_nothing() {
    let folders = vec![BookmarkFolder {
        title: Some("BookmarksBar".to_string()),
        children: vec![entry(Some("a"), Some("https://a"), Some("2020"))],
    }];
    let items = reading_list_from_bookmarks(&folders, "com.apple.ReadingList", NOW);
    assert!(items.is_empty());
}

#[test]
fn bookmarks_reading_folder_is_extracted_with_fallbacks() {
    let folders = vec![
        BookmarkFolder { title: None, children: vec![entry(Some("x"), Some("https://x"), None)] },
        BookmarkFolder {
            title: Some("com.apple.ReadingList".to_string()),
            children: vec![
                entry(Some("Kept title"), Some("https://kept"), Some("2023-01-01")),
                entry(None, Some("https://untitled"), Some("2023-02-02")),
                entry(Some("No address"), None, Some("2023-03-03")),
                entry(Some("No date"), Some("https://fresh"), None),
            ],
        },
    ];
    let items = reading_list_from_bookmarks(&folders, "com.apple.ReadingList", NOW);
    assert_eq!(items.len(), 4);
    assert_eq!(items[0].title, "Kept title");
    assert_eq!(items[0].url, "https://kept");
    assert_eq!(items[0].date_added, "2023-01-01");
    assert_eq!(items[1].title, "https://untitled");
    assert_eq!(items[2].url, "No URL");
    assert_eq!(items[3].date_added, NOW);
}

#[test]
fn view_with_current_timestamp_wraps_items() {
    let items = vec![ReadingItem {
        title: "One".to_string(),
        url: "https://one".to_string(),
        date_added: "2024-01-01".to_string(),
    }];
    let view = build_view(&items);
    assert!(view.error.is_none());
    let data = view.reading.expect("populated view");
    assert_eq!(data.nodes.len(), 1);
    assert_eq!(data.nodes[0].id, "0");
    // The stamp comes from the clock; RFC 3339 stamps are never empty.
    assert!(!data.created_at.is_empty());
}

#[test]
fn missing_reading_source_degrades_to_error_view() {
    // A missing or unreadable source loads as an empty sequence; the view
    // must still be valid and carry the explicit message.
    let items: Vec<ReadingItem> = Vec::new();
    let view = build_view(&items);
    assert!(view.reading.is_none());
    assert_eq!(view.error, Some("No reading list items found".to_string()));
}
