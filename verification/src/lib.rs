//! Core logic of a small personal-site server: a post catalog that turns
//! Markdown files into listing entries and rendered articles, a reading-list
//! loader that projects bookmark entries into a presentation view, and the
//! slug validation that keeps untrusted path segments away from the
//! filesystem.

mod lines;
mod md;
mod mime;
mod order;
mod posts;
mod reading;
mod slug;
mod text;
mod time;

pub use slug::is_valid_slug;
pub use slug::valid_slug;
pub use posts::Post;
pub use posts::PostError;
pub use posts::PostMeta;
pub use posts::PostMetaView;
pub use posts::default_post_dirs;
pub use posts::get_post;
pub use posts::post_body;
pub use posts::post_path_candidates;
pub use posts::post_title;
pub use posts::render_post;
pub use md::html_of;
pub use posts::list_posts;
pub use posts::md_file_name;
pub use posts::metas_of;
pub use posts::names_distinct;
pub use posts::slug_of_name;
pub use posts::sorted_desc;
pub use posts::strictly_sorted_desc;
pub use posts::title_from_content;
pub use posts::body_from_content;
pub use reading::MindMapCluster;
pub use reading::MindMapEdge;
pub use reading::MindMapNode;
pub use reading::ReadingData;
pub use reading::ReadingItem;
pub use reading::ReadingItemView;
pub use reading::ReadingListView;
pub use reading::build_view;
pub use reading::build_view_at;
pub use reading::is_view_of;
pub use reading::node_projects;
pub use reading::BookmarkEntry;
pub use reading::BookmarkFolder;
pub use reading::first_titled;
pub use reading::folder_titled;
pub use reading::item_of_entry;
pub use reading::reading_list_from_bookmarks;
pub use mime::content_type_for;
pub use mime::content_type_of;
pub use mime::ext_of;
pub use slug::lemma_valid_slug_no_traversal;
pub use slug::slug_char;
pub use text::join_keywords;
pub use text::join_with;
pub use text::dec_str;
pub use text::trim_spec;
pub use text::strip_hashes;
pub use text::white_char;
pub use order::lex_leq;
pub use order::lex_lt;
pub use lines::split_lines;
pub use lines::strip_cr;
