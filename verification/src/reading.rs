//! The reading list: an immutable sequence of items loaded once at startup,
//! projected per request into a mind-map shaped view. The view either wraps
//! the items as numbered nodes or carries an explicit error message when
//! there is nothing to show.

use vstd::prelude::*;

use crate::text::dec_str;
use crate::text::str_eq;
use crate::text::u64_to_dec;
use crate::time::now_rfc3339;

verus! {

/// One reading-list entry, in source order.
pub struct ReadingItem {
    pub title: String,
    pub url: String,
    pub date_added: String,
}

/// The mathematical content of a `ReadingItem`.
#[verifier::ext_equal]
pub ghost struct ReadingItemView {
    pub title: Seq<char>,
    pub url: Seq<char>,
    pub date_added: Seq<char>,
}

impl View for ReadingItem {
    type V = ReadingItemView;

    open spec fn view(&self) -> ReadingItemView {
        ReadingItemView { title: self.title@, url: self.url@, date_added: self.date_added@ }
    }
}

impl DeepView for ReadingItem {
    type V = ReadingItemView;

    open spec fn deep_view(&self) -> ReadingItemView {
        self.view()
    }
}

/// One node of the mind-map view. Cluster, keywords and preview exist only
/// for structural compatibility with a richer visualization format and are
/// always zero or empty.
pub struct MindMapNode {
    pub id: String,
    pub title: String,
    pub url: String,
    pub cluster: i32,
    pub keywords: Vec<String>,
    pub content_preview: String,
}

/// An edge of the mind-map view; the view never emits any.
pub struct MindMapEdge {
    pub source: String,
    pub target: String,
}

/// A cluster of the mind-map view; the view never emits any.
pub struct MindMapCluster {
    pub id: i32,
    pub name: String,
    pub keywords: Vec<String>,
    pub articles: Vec<i32>,
}

/// The data behind a populated reading page.
pub struct ReadingData {
    pub id: String,
    pub nodes: Vec<MindMapNode>,
    pub edges: Vec<MindMapEdge>,
    pub clusters: Vec<MindMapCluster>,
    pub created_at: String,
}

/// What the reading page shows: either data or an explicit error message.
pub struct ReadingListView {
    pub reading: Option<ReadingData>,
    pub error: Option<String>,
}

/// Node `i` of the view presents item `i`: its id is the index in decimal,
/// title and url are taken over, and the compatibility fields are zero or
/// empty.
pub open spec fn node_projects(n: MindMapNode, item: ReadingItem, i: int) -> bool {
    &&& n.id@ == dec_str(i as nat)
    &&& n.title@ == item.title@
    &&& n.url@ == item.url@
    &&& n.cluster == 0
    &&& n.keywords@.len() == 0
    &&& n.content_preview@.len() == 0
}

/// The view presents exactly the given items: an error message and no data
/// when there are none, else one node per item, in order, and no edges or
/// clusters.
pub open spec fn is_view_of(v: ReadingListView, items: Seq<ReadingItem>) -> bool {
    if items.len() == 0 {
        &&& v.reading is None
        &&& v.error matches Some(e) && e@ == "No reading list items found"@
    } else {
        &&& v.error is None
        &&& v.reading matches Some(d) && d.id@ == "reading-list"@ && d.edges@.len() == 0
            && d.clusters@.len() == 0 && d.nodes@.len() == items.len() && forall|i: int|
            0 <= i < items.len() ==> node_projects(#[trigger] d.nodes@[i], items[i], i)
    }
}

/// Builds the reading page view for the given items, stamped with the given
/// generation time.
pub fn build_view_at(items: &Vec<ReadingItem>, created_at: String) -> (v: ReadingListView)
    ensures
        is_view_of(v, items@),
        items@.len() > 0 ==> (v.reading matches Some(d) && d.created_at == created_at),
{
    if items.len() == 0 {
        return ReadingListView {
            reading: None,
            error: Some(String::from_str("No reading list items found")),
        };
    }
    let mut nodes: Vec<MindMapNode> = Vec::new();
    let mut i: usize = 0;
    while i < items.len()
        invariant
            0 <= i <= items@.len(),
            nodes@.len() == i,
            forall|j: int| 0 <= j < i ==> node_projects(#[trigger] nodes@[j], items@[j], j),
        decreases items@.len() - i,
    {
        let node = MindMapNode {
            id: u64_to_dec(i as u64),
            title: items[i].title.clone(),
            url: items[i].url.clone(),
            cluster: 0,
            keywords: Vec::new(),
            content_preview: String::new(),
        };
        nodes.push(node);
        i = i + 1;
    }
    ReadingListView {
        reading: Some(
            ReadingData {
                id: String::from_str("reading-list"),
                nodes,
                edges: Vec::new(),
                clusters: Vec::new(),
                created_at,
            },
        ),
        error: None,
    }
}

/// Builds the reading page view for the given items, stamped with the
/// current time. The stamp comes from the clock, so only its non-emptiness
/// can be promised.
pub fn build_view(items: &Vec<ReadingItem>) -> (v: ReadingListView)
    ensures
        is_view_of(v, items@),
        items@.len() > 0 ==> (v.reading matches Some(d) && d.created_at@.len() > 0),
{
    let created_at = now_rfc3339();
    build_view_at(items, created_at)
}

/// One bookmark of the platform bookmark store, with every field optional.
pub struct BookmarkEntry {
    pub title: Option<String>,
    pub url: Option<String>,
    pub date_added: Option<String>,
}

/// One top-level container of the bookmark store.
pub struct BookmarkFolder {
    pub title: Option<String>,
    pub children: Vec<BookmarkEntry>,
}

/// Whether a folder is the reading-list container named by the sentinel.
pub open spec fn folder_titled(f: BookmarkFolder, sentinel: Seq<char>) -> bool {
    f.title matches Some(t) && t@ == sentinel
}

/// Index of the first folder titled with the sentinel, or the length when
/// there is none.
pub open spec fn first_titled(folders: Seq<BookmarkFolder>, sentinel: Seq<char>) -> nat
    decreases folders.len(),
{
    if folders.len() == 0 {
        0
    } else if folder_titled(folders[0], sentinel) {
        0
    } else {
        1 + first_titled(folders.drop_first(), sentinel)
    }
}

proof fn lemma_first_titled_from_boundary(
    folders: Seq<BookmarkFolder>,
    sentinel: Seq<char>,
    k: int,
)
    requires
        0 <= k <= folders.len(),
        forall|j: int| 0 <= j < k ==> !folder_titled(#[trigger] folders[j], sentinel),
        k == folders.len() || folder_titled(folders[k], sentinel),
    ensures
        first_titled(folders, sentinel) == k,
    decreases k,
{
    if k == 0 {
    } else {
        let rest = folders.drop_first();
        assert(!folder_titled(folders[0], sentinel));
        assert forall|j: int| 0 <= j < k - 1 implies !folder_titled(
            #[trigger] rest[j],
            sentinel,
        ) by {
            assert(rest[j] == folders[j + 1]);
        }
        if k < folders.len() {
            assert(rest[k - 1] == folders[k]);
        }
        lemma_first_titled_from_boundary(rest, sentinel, k - 1);
    }
}

/// The reading item a bookmark yields: the url is required and gets a
/// placeholder when absent, the title falls back to the url, and the date
/// falls back to the given current time.
pub open spec fn item_of_entry(e: BookmarkEntry, now: Seq<char>) -> ReadingItemView {
    let url = match e.url {
        Some(u) => u@,
        None => "No URL"@,
    };
    let title = match e.title {
        Some(t) => t@,
        None => url,
    };
    let date_added = match e.date_added {
        Some(d) => d@,
        None => now,
    };
    ReadingItemView { title, url, date_added }
}

/// Extracts the reading list from the top-level containers of a bookmark
/// store: the children of the first folder titled with the sentinel, in
/// order and with the fallbacks of `item_of_entry`; no such folder yields no
/// items.
pub fn reading_list_from_bookmarks(
    folders: &Vec<BookmarkFolder>,
    sentinel: &str,
    now: &str,
) -> (items: Vec<ReadingItem>)
    ensures
        first_titled(folders@, sentinel@) == folders@.len() ==> items@.len() == 0,
        first_titled(folders@, sentinel@) < folders@.len() ==> {
            let children = folders@[first_titled(folders@, sentinel@) as int].children@;
            &&& items@.len() == children.len()
            &&& forall|t: int|
                0 <= t < children.len() ==> (#[trigger] items@[t])@ == item_of_entry(
                    children[t],
                    now@,
                )
        },
{
    let mut k: usize = 0;
    loop
        invariant_except_break
            0 <= k <= folders@.len(),
            forall|j: int| 0 <= j < k ==> !folder_titled(#[trigger] folders@[j], sentinel@),
        ensures
            0 <= k <= folders@.len(),
            first_titled(folders@, sentinel@) == k,
        decreases folders@.len() - k,
    {
        if k >= folders.len() {
            proof {
                lemma_first_titled_from_boundary(folders@, sentinel@, k as int);
            }
            break ;
        }
        let found = match &folders[k].title {
            Some(t) => str_eq(t.as_str(), sentinel),
            None => false,
        };
        if found {
            proof {
                lemma_first_titled_from_boundary(folders@, sentinel@, k as int);
            }
            break ;
        }
        k = k + 1;
    }
    let mut items: Vec<ReadingItem> = Vec::new();
    if k >= folders.len() {
        return items;
    }
    let children = &folders[k].children;
    let mut t: usize = 0;
    while t < children.len()
        invariant
            0 <= t <= children@.len(),
            children@ == folders@[k as int].children@,
            items@.len() == t,
            forall|j: int|
                0 <= j < t ==> (#[trigger] items@[j])@ == item_of_entry(children@[j], now@),
        decreases children@.len() - t,
    {
        let url = match &children[t].url {
            Some(u) => u.clone(),
            None => String::from_str("No URL"),
        };
        let title = match &children[t].title {
            Some(s) => s.clone(),
            None => url.clone(),
        };
        let date_added = match &children[t].date_added {
            Some(d) => d.clone(),
            None => String::from_str(now),
        };
        items.push(ReadingItem { title, url, date_added });
        t = t + 1;
    }
    items
}

} // verus!
