//! The post catalog: titles and bodies of Markdown post files, rendered
//! articles, and slug-guarded resolution of a post file path.

use vstd::multiset::Multiset;
use vstd::prelude::*;

use crate::lines::split_lines;
use crate::lines::split_lines_str;
use crate::md::html_of;
use crate::md::md_to_html;
use crate::order::lex_leq;
use crate::order::lex_lt;
use crate::order::lemma_lex_trans;
use crate::order::lemma_lex_trichotomy;
use crate::order::str_lex_lt;
use crate::slug::valid_slug;
use crate::slug::is_valid_slug;
use crate::text::join_with;
use crate::text::join_from;
use crate::text::strip_hashes;
use crate::text::strip_hashes_str;
use crate::text::trim_spec;
use crate::text::trim_str;

verus! {

/// A rendered article: the first line of the file as title, the rest as
/// HTML rendered from Markdown.
pub struct Post {
    pub title: String,
    pub html: String,
}

/// One listing entry of the blog index.
pub struct PostMeta {
    pub slug: String,
    pub title: String,
}

/// The mathematical content of a `PostMeta`.
#[verifier::ext_equal]
pub ghost struct PostMetaView {
    pub slug: Seq<char>,
    pub title: Seq<char>,
}

impl View for PostMeta {
    type V = PostMetaView;

    open spec fn view(&self) -> PostMetaView {
        PostMetaView { slug: self.slug@, title: self.title@ }
    }
}

impl DeepView for PostMeta {
    type V = PostMetaView;

    open spec fn deep_view(&self) -> PostMetaView {
        self.view()
    }
}

/// Why a slug could not be resolved to a post.
#[derive(Debug, PartialEq, Eq, Structural)]
pub enum PostError {
    /// The slug fails the allowed pattern; it never reaches the filesystem.
    InvalidSlug,
    /// The slug is well-formed but no candidate directory holds its file.
    NotFound,
}

/// The title of a post file: its first line, with leading `#` markers and
/// surrounding white space removed; `Untitled` when the file is empty.
pub open spec fn post_title(content: Seq<char>) -> Seq<char> {
    let ls = split_lines(content);
    if ls.len() == 0 {
        "Untitled"@
    } else {
        trim_spec(strip_hashes(ls[0]))
    }
}

/// The Markdown body of a post file: every line after the first, joined
/// with `\n`.
pub open spec fn post_body(content: Seq<char>) -> Seq<char> {
    let ls = split_lines(content);
    if ls.len() == 0 {
        Seq::empty()
    } else {
        join_with(ls.skip(1), seq!['\n'])
    }
}

/// Extracts the title of a post file.
pub fn title_from_content(content: &str) -> (t: String)
    ensures
        t@ == post_title(content@),
{
    let lines = split_lines_str(content);
    if lines.len() == 0 {
        String::from_str("Untitled")
    } else {
        let stripped = strip_hashes_str(lines[0].as_str());
        let trimmed = trim_str(stripped);
        String::from_str(trimmed)
    }
}

/// Extracts the Markdown body of a post file.
pub fn body_from_content(content: &str) -> (b: String)
    ensures
        b@ == post_body(content@),
{
    let lines = split_lines_str(content);
    let b = join_from(&lines, "\n", 1);
    proof {
        reveal_strlit("\n");
        assert("\n"@ =~= seq!['\n']);
        if lines@.len() >= 1 {
            assert(lines.deep_view().skip(1) == split_lines(content@).skip(1));
        }
    }
    b
}

/// Renders a post file: first line as title, remainder as Markdown turned
/// into HTML.
pub fn render_post(content: &str) -> (post: Post)
    ensures
        post.title@ == post_title(content@),
        post.html@ == html_of(post_body(content@)),
{
    let title = title_from_content(content);
    let body = body_from_content(content);
    let html = md_to_html(body.as_str());
    Post { title, html }
}

/// Resolves a slug against the content the caller found for it. A slug that
/// fails the pattern is rejected whether or not content was found; a valid
/// slug with no content is not found; otherwise the content is rendered.
pub fn get_post(slug: &str, content: Option<&String>) -> (r: Result<Post, PostError>)
    ensures
        !valid_slug(slug@) ==> r == Err::<Post, PostError>(PostError::InvalidSlug),
        valid_slug(slug@) ==> match content {
            None => r == Err::<Post, PostError>(PostError::NotFound),
            Some(c) => r matches Ok(post) && post.title@ == post_title(c@) && post.html@
                == html_of(post_body(c@)),
        },
{
    if !is_valid_slug(slug) {
        return Err(PostError::InvalidSlug);
    }
    match content {
        None => Err(PostError::NotFound),
        Some(c) => Ok(render_post(c.as_str())),
    }
}

/// The fixed directory preference order in which post files are looked up.
pub fn default_post_dirs() -> (dirs: Vec<String>)
    ensures
        dirs@.len() == 2,
        dirs@[0]@ == "posts"@,
        dirs@[1]@ == "/app/posts"@,
{
    let mut dirs: Vec<String> = Vec::new();
    dirs.push(String::from_str("posts"));
    dirs.push(String::from_str("/app/posts"));
    dirs
}

/// The candidate file paths for a slug, one per candidate directory, in
/// preference order. An invalid slug yields no path at all, so a slug that
/// could traverse the filesystem never becomes part of a path.
pub fn post_path_candidates(slug: &str, dirs: &Vec<String>) -> (r: Result<
    Vec<String>,
    PostError,
>)
    ensures
        !valid_slug(slug@) ==> r == Err::<Vec<String>, PostError>(PostError::InvalidSlug),
        valid_slug(slug@) ==> (r matches Ok(paths) && paths@.len() == dirs@.len() && forall|
            i: int,
        | 0 <= i < dirs@.len() ==> #[trigger] paths@[i]@ == dirs@[i]@ + "/"@ + slug@ + ".md"@),
{
    if !is_valid_slug(slug) {
        return Err(PostError::InvalidSlug);
    }
    let mut paths: Vec<String> = Vec::new();
    let mut i: usize = 0;
    while i < dirs.len()
        invariant
            0 <= i <= dirs@.len(),
            paths@.len() == i,
            forall|j: int| 0 <= j < i ==> #[trigger] paths@[j]@ == dirs@[j]@ + "/"@ + slug@
                + ".md"@,
        decreases dirs@.len() - i,
    {
        let mut p = String::new();
        p.append(dirs[i].as_str());
        p.append("/");
        p.append(slug);
        p.append(".md");
        proof {
            assert(Seq::<char>::empty() + dirs@[i as int]@ =~= dirs@[i as int]@);
        }
        paths.push(p);
        i = i + 1;
    }
    Ok(paths)
}

/// A Markdown post file: its name ends in `.md` and has a non-empty stem.
pub open spec fn md_file_name(name: Seq<char>) -> bool {
    &&& name.len() > 3
    &&& name[name.len() - 3] == '.'
    &&& name[name.len() - 2] == 'm'
    &&& name[name.len() - 1] == 'd'
}

/// The slug of a post file: its name with the `.md` extension stripped.
pub open spec fn slug_of_name(name: Seq<char>) -> Seq<char> {
    name.take(name.len() - 3)
}

/// The listing entry a directory entry contributes, if any: `.md` files
/// contribute their slug and title, everything else is skipped.
pub open spec fn file_meta(f: (Seq<char>, Seq<char>)) -> Option<PostMetaView> {
    if md_file_name(f.0) {
        Some(PostMetaView { slug: slug_of_name(f.0), title: post_title(f.1) })
    } else {
        None
    }
}

/// The listing entries of a directory listing (name and content of each
/// entry), in directory order.
pub open spec fn metas_of(files: Seq<(Seq<char>, Seq<char>)>) -> Seq<PostMetaView>
    decreases files.len(),
{
    if files.len() == 0 {
        Seq::empty()
    } else {
        metas_of(files.drop_last()) + match file_meta(files.last()) {
            Some(m) => seq![m],
            None => Seq::<PostMetaView>::empty(),
        }
    }
}

proof fn lemma_metas_of_take_succ(files: Seq<(Seq<char>, Seq<char>)>, i: int)
    requires
        0 <= i < files.len(),
    ensures
        metas_of(files.take(i + 1)) == metas_of(files.take(i)) + match file_meta(files[i]) {
            Some(m) => seq![m],
            None => Seq::<PostMetaView>::empty(),
        },
{
    assert(files.take(i + 1).drop_last() =~= files.take(i));
    assert(files.take(i + 1).last() == files[i]);
}

/// Descending lexicographic order by slug.
pub open spec fn sorted_desc(s: Seq<PostMetaView>) -> bool {
    forall|i: int, j: int| 0 <= i < j < s.len() ==> lex_leq(#[trigger] s[j].slug, #[trigger] s[i].slug)
}

/// Strictly descending lexicographic order by slug.
pub open spec fn strictly_sorted_desc(s: Seq<PostMetaView>) -> bool {
    forall|i: int, j: int| 0 <= i < j < s.len() ==> lex_lt(#[trigger] s[j].slug, #[trigger] s[i].slug)
}

/// No two entries share a slug.
pub open spec fn slug_distinct(s: Seq<PostMetaView>) -> bool {
    forall|i: int, j: int| 0 <= i < j < s.len() ==> (#[trigger] s[i].slug) != (#[trigger] s[j].slug)
}

proof fn lemma_lex_leq_trans(a: Seq<char>, b: Seq<char>, c: Seq<char>)
    requires
        lex_leq(a, b),
        lex_leq(b, c),
    ensures
        lex_leq(a, c),
{
    if lex_lt(a, b) && lex_lt(b, c) {
        lemma_lex_trans(a, b, c);
    }
}

/// Inserting an element anywhere adds exactly it to the multiset of the
/// sequence's elements.
proof fn lemma_to_multiset_insert<A>(s: Seq<A>, k: int, x: A)
    requires
        0 <= k <= s.len(),
    ensures
        s.insert(k, x).to_multiset() == s.to_multiset().insert(x),
{
    broadcast use vstd::seq_lib::group_to_multiset_ensures;
    broadcast use vstd::multiset::group_multiset_axioms;

    let t = s.subrange(0, k);
    let u = s.subrange(k, s.len() as int);
    assert(s.insert(k, x) =~= t.push(x) + u);
    assert(t.push(x).to_multiset() == t.to_multiset().insert(x));
    vstd::seq_lib::lemma_multiset_commutative(t.push(x), u);
    assert(s =~= t + u);
    vstd::seq_lib::lemma_multiset_commutative(t, u);
    assert(s.insert(k, x).to_multiset() =~= s.to_multiset().insert(x));
}

/// Sorts listing entries by slug, descending.
fn sort_metas_desc(metas: Vec<PostMeta>) -> (out: Vec<PostMeta>)
    ensures
        out.deep_view().to_multiset() == metas.deep_view().to_multiset(),
        sorted_desc(out.deep_view()),
{
    broadcast use vstd::seq_lib::group_to_multiset_ensures;
    broadcast use vstd::multiset::group_multiset_axioms;
    broadcast use vstd::multiset::lemma_multiset_empty_len;

    let ghost all = metas.deep_view();
    let mut rem = metas;
    let mut out: Vec<PostMeta> = Vec::new();
    proof {
        assert(out.deep_view() =~~= Seq::<PostMetaView>::empty());
        assert(out.deep_view().to_multiset().add(rem.deep_view().to_multiset())
            =~= all.to_multiset());
    }
    loop
        invariant_except_break
            out.deep_view().to_multiset().add(rem.deep_view().to_multiset())
                == all.to_multiset(),
            sorted_desc(out.deep_view()),
        ensures
            out.deep_view().to_multiset() == all.to_multiset(),
            sorted_desc(out.deep_view()),
        decreases rem@.len(),
    {
        let ghost rem0 = rem.deep_view();
        let ghost out0 = out.deep_view();
        let m_opt = rem.pop();
        let m = match m_opt {
            None => {
                proof {
                    broadcast use vstd::seq_lib::group_to_multiset_ensures;
                    broadcast use vstd::multiset::group_multiset_axioms;
                    broadcast use vstd::multiset::lemma_multiset_empty_len;

                    assert(rem.deep_view() =~~= Seq::<PostMetaView>::empty());
                    assert(rem.deep_view().to_multiset().len() == 0);
                    assert(rem.deep_view().to_multiset() =~= Multiset::<PostMetaView>::empty());
                    assert(out.deep_view().to_multiset().add(rem.deep_view().to_multiset())
                        =~= out.deep_view().to_multiset());
                }
                break ;
            },
            Some(m) => m,
        };
        let ghost mv = m@;
        proof {
            assert(rem0 =~~= rem.deep_view().push(mv));
        }
        let mut k: usize = 0;
        loop
            invariant_except_break
                0 <= k <= out@.len(),
                out.deep_view() == out0,
                forall|j: int| 0 <= j < k ==> lex_lt(m@.slug, #[trigger] out.deep_view()[j].slug),
            ensures
                0 <= k <= out@.len(),
                out.deep_view() == out0,
                forall|j: int| 0 <= j < k ==> lex_lt(m@.slug, #[trigger] out.deep_view()[j].slug),
                k == out@.len() || !lex_lt(m@.slug, out.deep_view()[k as int].slug),
            decreases out@.len() - k,
        {
            if k >= out.len() {
                break ;
            }
            if !str_lex_lt(m.slug.as_str(), out[k].slug.as_str()) {
                proof {
                    assert(out.deep_view()[k as int].slug == out@[k as int].slug@);
                }
                break ;
            }
            k = k + 1;
        }
        out.insert(k, m);
        proof {
            broadcast use vstd::seq_lib::group_to_multiset_ensures;
            broadcast use vstd::multiset::group_multiset_axioms;

            assert(out.deep_view() =~~= out0.insert(k as int, mv));
            out0.insert_ensures(k as int, mv);
            lemma_to_multiset_insert(out0, k as int, mv);
            let dv = out.deep_view();
            assert forall|i: int, j: int| 0 <= i < j < dv.len() implies lex_leq(
                #[trigger] dv[j].slug,
                #[trigger] dv[i].slug,
            ) by {
                if j < k {
                    assert(dv[i] == out0[i] && dv[j] == out0[j]);
                } else if i > k {
                    assert(dv[i] == out0[i - 1] && dv[j] == out0[j - 1]);
                } else if i < k && j == k {
                    assert(dv[i] == out0[i] && dv[j] == mv);
                    assert(lex_lt(mv.slug, out0[i].slug));
                } else if i == k && j > k {
                    assert(dv[i] == mv && dv[j] == out0[j - 1]);
                    assert(!lex_lt(mv.slug, out0[k as int].slug));
                    lemma_lex_trichotomy(mv.slug, out0[k as int].slug);
                    assert(lex_leq(out0[k as int].slug, mv.slug));
                    if j - 1 > k {
                        assert(lex_leq(out0[j - 1].slug, out0[k as int].slug));
                    }
                    lemma_lex_leq_trans(out0[j - 1].slug, out0[k as int].slug, mv.slug);
                } else if i < k && j > k {
                    assert(dv[i] == out0[i] && dv[j] == out0[j - 1]);
                    if j - 1 > i {
                        assert(lex_leq(out0[j - 1].slug, out0[i].slug));
                    }
                }
            }
            assert(rem0.to_multiset() == rem.deep_view().push(mv).to_multiset());
            assert(rem.deep_view().push(mv).to_multiset() == rem.deep_view().to_multiset().insert(
                mv,
            ));
            assert(out.deep_view().to_multiset().add(rem.deep_view().to_multiset())
                =~= all.to_multiset());
        }
    }
    out
}

/// Two `.md` names with the same slug are the same name.
proof fn lemma_slug_of_name_injective(a: Seq<char>, b: Seq<char>)
    requires
        md_file_name(a),
        md_file_name(b),
        slug_of_name(a) == slug_of_name(b),
    ensures
        a == b,
{
    assert(slug_of_name(a).len() == a.len() - 3);
    assert(slug_of_name(b).len() == b.len() - 3);
    assert(a.len() == b.len());
    assert forall|i: int| 0 <= i < a.len() implies a[i] == b[i] by {
        if i < a.len() - 3 {
            assert(slug_of_name(a)[i] == a[i]);
            assert(slug_of_name(b)[i] == b[i]);
        }
    }
    assert(a =~= b);
}

/// Every slug in a listing comes from some `.md` entry of the input.
spec fn meta_sourced(files: Seq<(Seq<char>, Seq<char>)>, m: PostMetaView) -> bool {
    exists|k: int|
        0 <= k < files.len() && md_file_name(#[trigger] files[k].0) && m.slug == slug_of_name(
            files[k].0,
        )
}

proof fn lemma_metas_of_sources(files: Seq<(Seq<char>, Seq<char>)>)
    ensures
        forall|t: int|
            0 <= t < metas_of(files).len() ==> meta_sourced(files, #[trigger] metas_of(files)[t]),
    decreases files.len(),
{
    if files.len() > 0 {
        let rest = files.drop_last();
        lemma_metas_of_sources(rest);
        assert forall|t: int| 0 <= t < metas_of(files).len() implies meta_sourced(
            files,
            #[trigger] metas_of(files)[t],
        ) by {
            if t < metas_of(rest).len() {
                assert(metas_of(files)[t] == metas_of(rest)[t]);
                let k = choose|k: int|
                    0 <= k < rest.len() && md_file_name(#[trigger] rest[k].0) && metas_of(
                        rest,
                    )[t].slug == slug_of_name(rest[k].0);
                assert(files[k] == rest[k]);
                assert(md_file_name(files[k].0) && metas_of(files)[t].slug == slug_of_name(
                    files[k].0,
                ));
            } else {
                let k = files.len() - 1;
                assert(file_meta(files.last()) is Some);
                assert(md_file_name(files[k].0) && metas_of(files)[t].slug == slug_of_name(
                    files[k].0,
                ));
            }
        }
    }
}

/// The names of a directory listing are pairwise distinct.
pub open spec fn names_distinct(files: Seq<(Seq<char>, Seq<char>)>) -> bool {
    forall|i: int, j: int|
        0 <= i < j < files.len() ==> (#[trigger] files[i].0) != (#[trigger] files[j].0)
}

/// Distinct file names give distinct slugs in the listing.
proof fn lemma_metas_of_distinct(files: Seq<(Seq<char>, Seq<char>)>)
    requires
        names_distinct(files),
    ensures
        slug_distinct(metas_of(files)),
    decreases files.len(),
{
    if files.len() > 0 {
        let rest = files.drop_last();
        assert forall|i: int, j: int| 0 <= i < j < rest.len() implies (#[trigger] rest[i].0)
            != (#[trigger] rest[j].0) by {
            assert(files[i] == rest[i] && files[j] == rest[j]);
        }
        lemma_metas_of_distinct(rest);
        lemma_metas_of_sources(rest);
        let ms = metas_of(files);
        assert forall|i: int, j: int| 0 <= i < j < ms.len() implies (#[trigger] ms[i].slug)
            != (#[trigger] ms[j].slug) by {
            if j < metas_of(rest).len() {
                assert(ms[i] == metas_of(rest)[i] && ms[j] == metas_of(rest)[j]);
            } else {
                assert(file_meta(files.last()) is Some);
                assert(md_file_name(files.last().0));
                assert(ms[j].slug == slug_of_name(files.last().0));
                assert(ms[i] == metas_of(rest)[i]);
                assert(meta_sourced(rest, metas_of(rest)[i]));
                let k = choose|k: int|
                    0 <= k < rest.len() && md_file_name(#[trigger] rest[k].0) && metas_of(
                        rest,
                    )[i].slug == slug_of_name(rest[k].0);
                if ms[i].slug == ms[j].slug {
                    lemma_slug_of_name_injective(rest[k].0, files.last().0);
                    assert(files[k].0 == files[files.len() - 1].0);
                }
            }
        }
    }
}

/// A permutation of a slug-distinct sequence is slug-distinct.
proof fn lemma_multiset_slug_distinct(a: Seq<PostMetaView>, b: Seq<PostMetaView>)
    requires
        a.to_multiset() == b.to_multiset(),
        slug_distinct(a),
    ensures
        slug_distinct(b),
{
    broadcast use vstd::seq_lib::group_to_multiset_ensures;
    broadcast use vstd::multiset::group_multiset_axioms;

    assert forall|i: int, j: int| 0 <= i < j < a.len() implies a[i] != a[j] by {
        assert(a[i].slug != a[j].slug);
    }
    assert(a.no_duplicates());
    a.lemma_multiset_has_no_duplicates();
    b.lemma_multiset_has_no_duplicates_conv();
    assert(b.no_duplicates());
    assert forall|i: int, j: int| 0 <= i < j < b.len() implies (#[trigger] b[i].slug)
        != (#[trigger] b[j].slug) by {
        if b[i].slug == b[j].slug {
            assert(b[i] != b[j]);
            assert(b.contains(b[i])) by {
                assert(0 <= i < b.len() && b[i] == b[i]);
            }
            assert(b.contains(b[j])) by {
                assert(0 <= j < b.len() && b[j] == b[j]);
            }
            assert(a.to_multiset().count(b[i]) > 0);
            assert(a.to_multiset().count(b[j]) > 0);
            assert(a.contains(b[i]));
            assert(a.contains(b[j]));
            let k = choose|k: int| 0 <= k < a.len() && a[k] == b[i];
            let l = choose|l: int| 0 <= l < a.len() && a[l] == b[j];
            assert(k != l);
            if k < l {
                assert(a[k].slug != a[l].slug);
            } else {
                assert(a[l].slug != a[k].slug);
            }
        }
    }
}

/// Builds the blog index from a directory listing (file name and content of
/// each entry): every `.md` file contributes its slug and title, and the
/// result is ordered by slug, descending. When the file names are distinct
/// (as the names in one directory are), the order is strictly descending.
pub fn list_posts(files: &Vec<(String, String)>) -> (posts: Vec<PostMeta>)
    ensures
        posts.deep_view().to_multiset() == metas_of(files.deep_view()).to_multiset(),
        sorted_desc(posts.deep_view()),
        names_distinct(files.deep_view()) ==> strictly_sorted_desc(posts.deep_view()),
{
    let ghost dv = files.deep_view();
    let mut metas: Vec<PostMeta> = Vec::new();
    let mut i: usize = 0;
    proof {
        assert(metas.deep_view() =~~= metas_of(dv.take(0)));
    }
    while i < files.len()
        invariant
            0 <= i <= files@.len(),
            dv == files.deep_view(),
            dv.len() == files@.len(),
            metas.deep_view() == metas_of(dv.take(i as int)),
        decreases files@.len() - i,
    {
        let name = files[i].0.as_str();
        let n: usize = name.unicode_len();
        let eligible = n > 3 && name.get_char(n - 3) == '.' && name.get_char(n - 2) == 'm'
            && name.get_char(n - 1) == 'd';
        proof {
            assert(dv[i as int] == (files@[i as int].0@, files@[i as int].1@));
            assert(eligible == md_file_name(dv[i as int].0));
            lemma_metas_of_take_succ(dv, i as int);
        }
        if eligible {
            let slug = String::from_str(name.substring_char(0, n - 3));
            let title = title_from_content(files[i].1.as_str());
            let ghost metas0 = metas.deep_view();
            let meta = PostMeta { slug, title };
            let ghost m = meta@;
            metas.push(meta);
            proof {
                assert(file_meta(dv[i as int]) == Some(m));
                assert(metas.deep_view() =~~= metas0 + seq![m]);
            }
        } else {
            proof {
                assert(metas_of(dv.take(i + 1)) =~~= metas_of(dv.take(i as int)));
            }
        }
        i = i + 1;
    }
    proof {
        assert(dv.take(dv.len() as int) =~= dv);
    }
    let posts = sort_metas_desc(metas);
    proof {
        if names_distinct(dv) {
            lemma_metas_of_distinct(dv);
            lemma_multiset_slug_distinct(metas_of(dv), posts.deep_view());
            assert forall|i: int, j: int| 0 <= i < j < posts.deep_view().len() implies lex_lt(
                #[trigger] posts.deep_view()[j].slug,
                #[trigger] posts.deep_view()[i].slug,
            ) by {
                assert(lex_leq(posts.deep_view()[j].slug, posts.deep_view()[i].slug));
                assert(posts.deep_view()[i].slug != posts.deep_view()[j].slug);
            }
        }
    }
    posts
}

} // verus!
