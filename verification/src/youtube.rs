//! Video records scraped from the trending feed and from watch pages.

use vstd::prelude::*;
use vstd::string::*;
use select::document::Document;

use crate::dom::{
    attr_of, attr_pred, children_indices, children_of, class_child_class_pred, class_child_name_pred, class_pred, document_nodes,
    at_most_one_below, first_below_is, first_in_document_is, first_two_below_are,
    lemma_first_below, lemma_first_in_document, lemma_first_two_below, lemma_select_all_lists,
    lists_all_in_order, none_below, none_in_document, lemma_first_below_full, lemma_first_in_document_full, parent_has_class, has_class,
    dom_well_formed, find_attr, find_class, find_class_below, find_class_child_class, find_class_child_class_below,
    find_class_child_name_below, is_ancestor, lemma_select_range_bounds, lists, node_attr,
    name_of, node_name, parse_document, parsed_nodes, select_all, select_below, subtree_text, text_of, DomNode,
};
use crate::text::{
    digits_of, is_digit, is_duration_noise, is_space, keep_digits, law_digits_only,
    law_duration_has_no_noise, law_second_field_has_no_separator, law_second_field_splits, is_second_piece, law_trimmed_edges, same_text,
    second_field, second_field_of, strip_duration, strip_duration_noise,
    trim_spaces, trim_ws,
};

verus! {

/// A video as the pages describe it. Counts are kept as the text the page
/// shows; fields a page does not give are empty.
#[derive(Debug, Clone)]
pub struct Video {
    pub views: String,
    pub likes: String,
    pub dislikes: String,
    pub duration: String,
    pub title: String,
    pub author: String,
    pub id: String,
    pub description: String,
}

/// The text content of a `Video`.
pub struct VideoView {
    pub views: Seq<char>,
    pub likes: Seq<char>,
    pub dislikes: Seq<char>,
    pub duration: Seq<char>,
    pub title: Seq<char>,
    pub author: Seq<char>,
    pub id: Seq<char>,
    pub description: Seq<char>,
}

impl View for Video {
    type V = VideoView;

    open spec fn view(&self) -> VideoView {
        VideoView {
            views: self.views@,
            likes: self.likes@,
            dislikes: self.dislikes@,
            duration: self.duration@,
            title: self.title@,
            author: self.author@,
            id: self.id@,
            description: self.description@,
        }
    }
}

impl Video {
    #[allow(clippy::too_many_arguments)]
    fn new(
        views: String,
        likes: String,
        dislikes: String,
        duration: String,
        title: String,
        author: String,
        id: String,
        description: String,
    ) -> (v: Video)
        ensures
            v@ == (VideoView {
                views: views@,
                likes: likes@,
                dislikes: dislikes@,
                duration: duration@,
                title: title@,
                author: author@,
                id: id@,
                description: description@,
            }),
    {
        Video { views, likes, dislikes, duration, title, author, id, description }
    }
}

/// The views of a sequence of videos.
pub open spec fn views_of(vs: Seq<Video>) -> Seq<VideoView> {
    Seq::new(vs.len(), |i: int| vs[i]@)
}

/// The first index of `s`, if any.
pub open spec fn first_of(s: Seq<int>) -> Option<int> {
    if s.len() > 0 {
        Some(s[0])
    } else {
        None
    }
}

/// The records `f` gives for `items`, in order, or `None` as soon as one of
/// them has none.
pub open spec fn collect_entries(items: Seq<int>, f: spec_fn(int) -> Option<VideoView>) -> Option<Seq<VideoView>>
    decreases items.len(),
{
    if items.len() == 0 {
        Some(Seq::empty())
    } else {
        match collect_entries(items.drop_last(), f) {
            None => None,
            Some(vs) => match f(items.last()) {
                None => None,
                Some(v) => Some(vs.push(v)),
            },
        }
    }
}

/// Once a prefix of the items lacks a record, so do all the items.
pub proof fn lemma_collect_none(items: Seq<int>, f: spec_fn(int) -> Option<VideoView>, k: int)
    requires
        0 <= k <= items.len(),
        collect_entries(items.take(k), f) is None,
    ensures
        collect_entries(items, f) is None,
    decreases items.len() - k,
{
    if k < items.len() {
        assert(items.take(k + 1).drop_last() =~= items.take(k));
        lemma_collect_none(items, f, k + 1);
    } else {
        assert(items.take(k) =~= items);
    }
}

// ---------------------------------------------------------------------------
// The trending feed
// ---------------------------------------------------------------------------

/// The record of one tile of the trending feed (the node `t`, a
/// `yt-lockup-content` under a `yt-uix-tile`), or `None` where the tile lacks
/// its link, the link its `href`, the `href` its `=`, or the tile its author.
pub open spec fn trending_entry(nodes: Seq<DomNode>, t: int) -> Option<VideoView> {
    match first_of(select_below(nodes, t, class_pred(nodes, "yt-uix-tile-link"@))) {
        None => None,
        Some(link) => match node_attr(nodes[link], "href"@) {
            None => None,
            Some(href) => match second_field(href, '=') {
                None => None,
                Some(id) => match first_of(
                    select_below(nodes, t, class_child_class_pred(nodes, "yt-lockup-byline"@, "yt-uix-sessionlink"@)),
                ) {
                    None => None,
                    Some(a) => {
                        let meta = select_below(nodes, t, class_child_name_pred(nodes, "yt-lockup-meta-info"@, "li"@));
                        let durations = select_below(nodes, t, class_pred(nodes, "accessible-description"@));
                        Some(VideoView {
                            views: if meta.len() < 2 { "hidden"@ } else { subtree_text(nodes, meta[1]) },
                            likes: Seq::empty(),
                            dislikes: Seq::empty(),
                            duration: if durations.len() == 0 {
                                "LIVE"@
                            } else {
                                strip_duration_noise(subtree_text(nodes, durations[0]))
                            },
                            title: subtree_text(nodes, link),
                            author: subtree_text(nodes, a),
                            id: id,
                            description: Seq::empty(),
                        })
                    },
                },
            },
        },
    }
}

/// The tiles of the trending feed.
pub open spec fn trending_tiles(nodes: Seq<DomNode>) -> Seq<int> {
    select_all(nodes, class_child_class_pred(nodes, "yt-uix-tile"@, "yt-lockup-content"@))
}

/// The records of the trending feed, one per tile in document order; `None`
/// where a tile lacks what its record needs.
pub open spec fn trending_page(nodes: Seq<DomNode>) -> Option<Seq<VideoView>> {
    collect_entries(trending_tiles(nodes), |t: int| trending_entry(nodes, t))
}

/// The first of the indices that `found` lists, checked against the document.
fn first_found(found: &Vec<usize>, Ghost(s): Ghost<Seq<int>>, Ghost(len): Ghost<int>) -> (res: Option<usize>)
    requires
        lists(found@, s),
        forall|k: int| 0 <= k < s.len() ==> 0 <= #[trigger] s[k] < len,
    ensures
        res is Some <==> first_of(s) is Some,
        res matches Some(i) ==> first_of(s) == Some(i as int) && i < len,
{
    if found.len() == 0 {
        None
    } else {
        proof {
            assert(0 <= s[0] < len);
        }
        Some(found[0])
    }
}

/// The record of one trending tile.
fn trending_entry_at(doc: &Document, t: usize) -> (res: Option<Video>)
    requires
        dom_well_formed(document_nodes(*doc)),
        t < document_nodes(*doc).len(),
    ensures
        res is Some <==> trending_entry(document_nodes(*doc), t as int) is Some,
        res matches Some(v) ==> trending_entry(document_nodes(*doc), t as int) == Some(v@),
{
    let ghost nodes = document_nodes(*doc);
    let ghost len = nodes.len() as int;
    let links = find_class_below(doc, t, "yt-uix-tile-link");
    let ghost links_s = select_below(nodes, t as int, class_pred(nodes, "yt-uix-tile-link"@));
    proof {
        lemma_select_range_bounds(0, len, |j: int| is_ancestor(nodes, t as int, j) && class_pred(nodes, "yt-uix-tile-link"@)(j));
    }
    let link = match first_found(&links, Ghost(links_s), Ghost(len)) {
        Some(l) => l,
        None => return None,
    };
    let href = match attr_of(doc, link, "href") {
        Some(h) => h,
        None => return None,
    };
    let id = match second_field_of(href.as_str(), '=') {
        Some(i) => i,
        None => return None,
    };
    let title = text_of(doc, link);
    let authors = find_class_child_class_below(doc, t, "yt-lockup-byline", "yt-uix-sessionlink");
    let ghost authors_s = select_below(nodes, t as int, class_child_class_pred(nodes, "yt-lockup-byline"@, "yt-uix-sessionlink"@));
    proof {
        lemma_select_range_bounds(0, len, |j: int| is_ancestor(nodes, t as int, j) && class_child_class_pred(nodes, "yt-lockup-byline"@, "yt-uix-sessionlink"@)(j));
    }
    let author_node = match first_found(&authors, Ghost(authors_s), Ghost(len)) {
        Some(a) => a,
        None => return None,
    };
    let author = text_of(doc, author_node);
    let meta = find_class_child_name_below(doc, t, "yt-lockup-meta-info", "li");
    let ghost meta_s = select_below(nodes, t as int, class_child_name_pred(nodes, "yt-lockup-meta-info"@, "li"@));
    proof {
        lemma_select_range_bounds(0, len, |j: int| is_ancestor(nodes, t as int, j) && class_child_name_pred(nodes, "yt-lockup-meta-info"@, "li"@)(j));
    }
    let views = if meta.len() < 2 {
        "hidden".to_owned()
    } else {
        proof {
            assert(0 <= meta_s[1] < len);
        }
        text_of(doc, meta[1])
    };
    let durations = find_class_below(doc, t, "accessible-description");
    let ghost durations_s = select_below(nodes, t as int, class_pred(nodes, "accessible-description"@));
    proof {
        lemma_select_range_bounds(0, len, |j: int| is_ancestor(nodes, t as int, j) && class_pred(nodes, "accessible-description"@)(j));
    }
    let duration = if durations.len() == 0 {
        "LIVE".to_owned()
    } else {
        proof {
            assert(0 <= durations_s[0] < len);
        }
        let raw = text_of(doc, durations[0]);
        strip_duration(raw.as_str())
    };
    Some(Video::new(views, String::new(), String::new(), duration, title, author, id, String::new()))
}

/// The videos of a parsed trending feed, one per tile in document order;
/// `None` where a tile lacks its link, the link an `href` with a `=`, or the
/// tile its author.
fn trending_videos_in(doc: &Document) -> (res: Option<Vec<Video>>)
    requires
        dom_well_formed(document_nodes(*doc)),
    ensures
        res is Some <==> trending_page(document_nodes(*doc)) is Some,
        res matches Some(vs) ==> trending_page(document_nodes(*doc)) == Some(views_of(vs@)),
{
    let ghost nodes = document_nodes(*doc);
    let ghost len = nodes.len() as int;
    let ghost f = |t: int| trending_entry(nodes, t);
    let tiles = find_class_child_class(doc, "yt-uix-tile", "yt-lockup-content");
    let ghost tiles_s = trending_tiles(nodes);
    proof {
        lemma_select_range_bounds(0, len, class_child_class_pred(nodes, "yt-uix-tile"@, "yt-lockup-content"@));
    }
    let mut videos: Vec<Video> = Vec::new();
    let mut k: usize = 0;
    while k < tiles.len()
        invariant
            lists(tiles@, tiles_s),
            forall|q: int| 0 <= q < tiles_s.len() ==> 0 <= #[trigger] tiles_s[q] < len,
            len == document_nodes(*doc).len(),
            nodes == document_nodes(*doc),
            dom_well_formed(nodes),
            f == (|t: int| trending_entry(nodes, t)),
            tiles_s == trending_tiles(nodes),
            0 <= k <= tiles@.len(),
            collect_entries(tiles_s.take(k as int), f) == Some(views_of(videos@)),
        decreases tiles.len() - k,
    {
        proof {
            assert(0 <= tiles_s[k as int] < len);
        }
        let entry = trending_entry_at(doc, tiles[k]);
        proof {
            assert(tiles_s.take(k + 1).drop_last() =~= tiles_s.take(k as int));
            assert(tiles_s.take(k + 1).last() == tiles_s[k as int]);
        }
        match entry {
            Some(v) => {
                let ghost before = videos@;
                videos.push(v);
                proof {
                    assert(views_of(videos@) =~= views_of(before).push(v@));
                }
            },
            None => {
                proof {
                    lemma_collect_none(tiles_s, f, k + 1);
                }
                return None;
            },
        }
        k = k + 1;
    }
    proof {
        assert(tiles_s.take(k as int) =~= tiles_s);
    }
    Some(videos)
}

/// The videos of the trending feed in the HTML text `html`; `None` where the
/// page does not hold what every tile needs.
pub fn get_trending_videos(html: &str) -> (res: Option<Vec<Video>>)
    ensures
        res is Some <==> trending_page(parsed_nodes(html@)) is Some,
        res matches Some(vs) ==> trending_page(parsed_nodes(html@)) == Some(views_of(vs@)),
{
    let doc = parse_document(html);
    trending_videos_in(&doc)
}

// ---------------------------------------------------------------------------
// Watch pages
// ---------------------------------------------------------------------------

/// What one child of the description block adds to the description: a line
/// break for a `br` element, its text otherwise.
pub open spec fn description_piece(nodes: Seq<DomNode>, c: int) -> Seq<char> {
    if node_name(nodes[c]) == Some("br"@) {
        "\n"@
    } else {
        subtree_text(nodes, c)
    }
}

/// The description that the children `cs` of the description block make.
pub open spec fn description_of(nodes: Seq<DomNode>, cs: Seq<int>) -> Seq<char>
    decreases cs.len(),
{
    if cs.len() == 0 {
        Seq::empty()
    } else {
        description_of(nodes, cs.drop_last()) + description_piece(nodes, cs.last())
    }
}

/// The record of one entry `r` (a `video-list-item`) of the related list, or
/// `None` where it lacks its view count, length, title, author or link, or
/// the link an `href` with a `=`.
pub open spec fn related_entry(nodes: Seq<DomNode>, r: int) -> Option<VideoView> {
    match (
        first_of(select_below(nodes, r, class_pred(nodes, "view-count"@))),
        first_of(select_below(nodes, r, class_pred(nodes, "video-time"@))),
        first_of(select_below(nodes, r, class_pred(nodes, "title"@))),
        first_of(select_below(nodes, r, class_child_name_pred(nodes, "attribution"@, "span"@))),
        first_of(select_below(nodes, r, class_pred(nodes, "yt-uix-sessionlink"@))),
    ) {
        (Some(vc), Some(vt), Some(ti), Some(au), Some(sl)) => match node_attr(nodes[sl], "href"@) {
            None => None,
            Some(href) => match second_field(href, '=') {
                None => None,
                Some(id) => Some(VideoView {
                    views: digits_of(subtree_text(nodes, vc)),
                    likes: Seq::empty(),
                    dislikes: Seq::empty(),
                    duration: subtree_text(nodes, vt),
                    title: trim_ws(subtree_text(nodes, ti)),
                    author: subtree_text(nodes, au),
                    id: id,
                    description: Seq::empty(),
                }),
            },
        },
        _ => None,
    }
}

/// The entries of the related list.
pub open spec fn related_items(nodes: Seq<DomNode>) -> Seq<int> {
    select_all(nodes, class_pred(nodes, "video-list-item"@))
}

/// The record of the video `id` that its watch page gives, and the records
/// of its related list in document order; `None` where the page lacks the
/// view count, a like or dislike button, the titled heading, the author, the
/// description block, or what a related entry needs.
pub open spec fn watch_page(nodes: Seq<DomNode>, id: Seq<char>) -> Option<(VideoView, Seq<VideoView>)> {
    match (
        first_of(select_all(nodes, class_pred(nodes, "watch-view-count"@))),
        first_of(select_all(nodes, class_pred(nodes, "like-button-renderer-like-button"@))),
        first_of(select_all(nodes, class_pred(nodes, "like-button-renderer-dislike-button"@))),
        first_of(select_all(nodes, attr_pred(nodes, "id"@, "eow-title"@))),
        first_of(select_all(nodes, class_child_class_pred(nodes, "yt-user-info"@, "yt-uix-sessionlink"@))),
        first_of(select_all(nodes, attr_pred(nodes, "id"@, "eow-description"@))),
    ) {
        (Some(vw), Some(lk), Some(dl), Some(ti), Some(au), Some(de)) => match node_attr(nodes[ti], "title"@) {
            None => None,
            Some(title) => match collect_entries(related_items(nodes), |r: int| related_entry(nodes, r)) {
                None => None,
                Some(related) => Some(
                    (
                        VideoView {
                            views: digits_of(subtree_text(nodes, vw)),
                            likes: digits_of(subtree_text(nodes, lk)),
                            dislikes: digits_of(subtree_text(nodes, dl)),
                            duration: Seq::empty(),
                            title: title,
                            author: subtree_text(nodes, au),
                            id: id,
                            description: description_of(nodes, children_of(nodes, de)),
                        },
                        related,
                    ),
                ),
            },
        },
        _ => None,
    }
}

/// The first node below `r` that carries class `class`.
fn first_class_below(doc: &Document, r: usize, class: &str) -> (res: Option<usize>)
    requires
        dom_well_formed(document_nodes(*doc)),
        r < document_nodes(*doc).len(),
    ensures
        res is Some <==> first_of(select_below(document_nodes(*doc), r as int, class_pred(document_nodes(*doc), class@))) is Some,
        res matches Some(i) ==> first_of(select_below(document_nodes(*doc), r as int, class_pred(document_nodes(*doc), class@))) == Some(i as int) && i < document_nodes(*doc).len(),
{
    let ghost nodes = document_nodes(*doc);
    let found = find_class_below(doc, r, class);
    proof {
        lemma_select_range_bounds(0, nodes.len() as int, |j: int| is_ancestor(nodes, r as int, j) && class_pred(nodes, class@)(j));
    }
    first_found(&found, Ghost(select_below(nodes, r as int, class_pred(nodes, class@))), Ghost(nodes.len() as int))
}

/// The first node of the document that carries class `class`.
fn first_class(doc: &Document, class: &str) -> (res: Option<usize>)
    ensures
        res is Some <==> first_of(select_all(document_nodes(*doc), class_pred(document_nodes(*doc), class@))) is Some,
        res matches Some(i) ==> first_of(select_all(document_nodes(*doc), class_pred(document_nodes(*doc), class@))) == Some(i as int) && i < document_nodes(*doc).len(),
{
    let ghost nodes = document_nodes(*doc);
    let found = find_class(doc, class);
    proof {
        lemma_select_range_bounds(0, nodes.len() as int, class_pred(nodes, class@));
    }
    first_found(&found, Ghost(select_all(nodes, class_pred(nodes, class@))), Ghost(nodes.len() as int))
}

/// The first node of the document whose attribute `name` is `value`.
fn first_attr(doc: &Document, name: &str, value: &str) -> (res: Option<usize>)
    ensures
        res is Some <==> first_of(select_all(document_nodes(*doc), attr_pred(document_nodes(*doc), name@, value@))) is Some,
        res matches Some(i) ==> first_of(select_all(document_nodes(*doc), attr_pred(document_nodes(*doc), name@, value@))) == Some(i as int) && i < document_nodes(*doc).len(),
{
    let ghost nodes = document_nodes(*doc);
    let found = find_attr(doc, name, value);
    proof {
        lemma_select_range_bounds(0, nodes.len() as int, attr_pred(nodes, name@, value@));
    }
    first_found(&found, Ghost(select_all(nodes, attr_pred(nodes, name@, value@))), Ghost(nodes.len() as int))
}

/// The record of one entry of the related list.
fn related_entry_at(doc: &Document, r: usize) -> (res: Option<Video>)
    requires
        dom_well_formed(document_nodes(*doc)),
        r < document_nodes(*doc).len(),
    ensures
        res is Some <==> related_entry(document_nodes(*doc), r as int) is Some,
        res matches Some(v) ==> related_entry(document_nodes(*doc), r as int) == Some(v@),
{
    let ghost nodes = document_nodes(*doc);
    let ghost len = nodes.len() as int;
    let vc = first_class_below(doc, r, "view-count");
    let vt = first_class_below(doc, r, "video-time");
    let ti = first_class_below(doc, r, "title");
    let authors = find_class_child_name_below(doc, r, "attribution", "span");
    proof {
        lemma_select_range_bounds(0, len, |j: int| is_ancestor(nodes, r as int, j) && class_child_name_pred(nodes, "attribution"@, "span"@)(j));
    }
    let au = first_found(&authors, Ghost(select_below(nodes, r as int, class_child_name_pred(nodes, "attribution"@, "span"@))), Ghost(len));
    let sl = first_class_below(doc, r, "yt-uix-sessionlink");
    match (vc, vt, ti, au, sl) {
        (Some(vc), Some(vt), Some(ti), Some(au), Some(sl)) => {
            let href = match attr_of(doc, sl, "href") {
                Some(h) => h,
                None => return None,
            };
            let id = match second_field_of(href.as_str(), '=') {
                Some(i) => i,
                None => return None,
            };
            let views_raw = text_of(doc, vc);
            let views = keep_digits(views_raw.as_str());
            let duration = text_of(doc, vt);
            let title_raw = text_of(doc, ti);
            let title = trim_spaces(title_raw.as_str());
            let author = text_of(doc, au);
            Some(Video::new(views, String::new(), String::new(), duration, title, author, id, String::new()))
        },
        _ => None,
    }
}

/// The description that the children of node `d` make.
fn description_at(doc: &Document, d: usize) -> (res: String)
    requires
        dom_well_formed(document_nodes(*doc)),
        d < document_nodes(*doc).len(),
    ensures
        res@ == description_of(document_nodes(*doc), children_of(document_nodes(*doc), d as int)),
{
    let ghost nodes = document_nodes(*doc);
    let ghost cs = children_of(nodes, d as int);
    let children = children_indices(doc, d);
    proof {
        lemma_select_range_bounds(0, nodes.len() as int, |j: int| nodes[j].parent == Some(d as int));
    }
    let mut description = String::new();
    let mut k: usize = 0;
    while k < children.len()
        invariant
            nodes == document_nodes(*doc),
            dom_well_formed(nodes),
            cs == children_of(nodes, d as int),
            lists(children@, cs),
            forall|q: int| 0 <= q < cs.len() ==> 0 <= #[trigger] cs[q] < nodes.len(),
            0 <= k <= children@.len(),
            description@ == description_of(nodes, cs.take(k as int)),
        decreases children.len() - k,
    {
        let c = children[k];
        proof {
            assert(0 <= cs[k as int] < nodes.len());
            assert(cs.take(k + 1).drop_last() =~= cs.take(k as int));
            assert(cs.take(k + 1).last() == cs[k as int]);
        }
        let is_br = match name_of(doc, c) {
            Some(n) => same_text(n.as_str(), "br"),
            None => false,
        };
        if is_br {
            proof {
                reveal_strlit("\n");
            }
            description.append("\n");
        } else {
            let piece = text_of(doc, c);
            description.append(piece.as_str());
        }
        k = k + 1;
    }
    proof {
        assert(cs.take(k as int) =~= cs);
    }
    description
}

/// The records of the related list.
fn related_videos_in(doc: &Document) -> (res: Option<Vec<Video>>)
    requires
        dom_well_formed(document_nodes(*doc)),
    ensures
        res is Some <==> collect_entries(related_items(document_nodes(*doc)), |r: int| related_entry(document_nodes(*doc), r)) is Some,
        res matches Some(vs) ==> collect_entries(related_items(document_nodes(*doc)), |r: int| related_entry(document_nodes(*doc), r)) == Some(views_of(vs@)),
{
    let ghost nodes = document_nodes(*doc);
    let ghost len = nodes.len() as int;
    let ghost f = |r: int| related_entry(nodes, r);
    let items = find_class(doc, "video-list-item");
    let ghost items_s = related_items(nodes);
    proof {
        lemma_select_range_bounds(0, len, class_pred(nodes, "video-list-item"@));
    }
    let mut videos: Vec<Video> = Vec::new();
    let mut k: usize = 0;
    while k < items.len()
        invariant
            lists(items@, items_s),
            forall|q: int| 0 <= q < items_s.len() ==> 0 <= #[trigger] items_s[q] < len,
            len == document_nodes(*doc).len(),
            nodes == document_nodes(*doc),
            dom_well_formed(nodes),
            f == (|r: int| related_entry(nodes, r)),
            items_s == related_items(nodes),
            0 <= k <= items@.len(),
            collect_entries(items_s.take(k as int), f) == Some(views_of(videos@)),
        decreases items.len() - k,
    {
        proof {
            assert(0 <= items_s[k as int] < len);
        }
        let entry = related_entry_at(doc, items[k]);
        proof {
            assert(items_s.take(k + 1).drop_last() =~= items_s.take(k as int));
            assert(items_s.take(k + 1).last() == items_s[k as int]);
        }
        match entry {
            Some(v) => {
                let ghost before = videos@;
                videos.push(v);
                proof {
                    assert(views_of(videos@) =~= views_of(before).push(v@));
                }
            },
            None => {
                proof {
                    lemma_collect_none(items_s, f, k + 1);
                }
                return None;
            },
        }
        k = k + 1;
    }
    proof {
        assert(items_s.take(k as int) =~= items_s);
    }
    Some(videos)
}

/// The video `id` and its related videos, read from its parsed watch page;
/// `None` where the page lacks what `watch_page` needs.
fn video_info_in(doc: &Document, id: String) -> (res: Option<(Video, Vec<Video>)>)
    requires
        dom_well_formed(document_nodes(*doc)),
    ensures
        res is Some <==> watch_page(document_nodes(*doc), id@) is Some,
        res matches Some((v, related)) ==> watch_page(document_nodes(*doc), id@) == Some((v@, views_of(related@))),
{
    let ghost nodes = document_nodes(*doc);
    let vw = first_class(doc, "watch-view-count");
    let lk = first_class(doc, "like-button-renderer-like-button");
    let dl = first_class(doc, "like-button-renderer-dislike-button");
    let ti = first_attr(doc, "id", "eow-title");
    let authors = find_class_child_class(doc, "yt-user-info", "yt-uix-sessionlink");
    proof {
        lemma_select_range_bounds(0, nodes.len() as int, class_child_class_pred(nodes, "yt-user-info"@, "yt-uix-sessionlink"@));
    }
    let au = first_found(&authors, Ghost(select_all(nodes, class_child_class_pred(nodes, "yt-user-info"@, "yt-uix-sessionlink"@))), Ghost(nodes.len() as int));
    let de = first_attr(doc, "id", "eow-description");
    match (vw, lk, dl, ti, au, de) {
        (Some(vw), Some(lk), Some(dl), Some(ti), Some(au), Some(de)) => {
            let title = match attr_of(doc, ti, "title") {
                Some(t) => t,
                None => return None,
            };
            let views_raw = text_of(doc, vw);
            let likes_raw = text_of(doc, lk);
            let dislikes_raw = text_of(doc, dl);
            let author = text_of(doc, au);
            let views = keep_digits(views_raw.as_str());
            let likes = keep_digits(likes_raw.as_str());
            let dislikes = keep_digits(dislikes_raw.as_str());
            let description = description_at(doc, de);
            let related = match related_videos_in(doc) {
                Some(r) => r,
                None => return None,
            };
            let video = Video::new(views, likes, dislikes, String::new(), title, author, id, description);
            Some((video, related))
        },
        _ => None,
    }
}

/// The video `id` and its related videos, read from the HTML text of its
/// watch page; `None` where the page lacks what `watch_page` needs.
pub fn video_info(id: String, html: &str) -> (res: Option<(Video, Vec<Video>)>)
    ensures
        res is Some <==> watch_page(parsed_nodes(html@), id@) is Some,
        res matches Some((v, related)) ==> watch_page(parsed_nodes(html@), id@) == Some((v@, views_of(related@))),
{
    let doc = parse_document(html);
    video_info_in(&doc, id)
}

/// The address of the watch page of video `id`.
pub fn watch_url(id: &str) -> (res: String)
    ensures
        res@ == "https://www.youtube.com/watch?v="@ + id@,
{
    let mut url = "https://www.youtube.com/watch?v=".to_owned();
    url.append(id);
    url
}

/// The address of the trending feed.
pub fn trending_url() -> (res: String)
    ensures
        res@ == "https://www.youtube.com/feed/trending"@,
{
    "https://www.youtube.com/feed/trending".to_owned()
}

// ---------------------------------------------------------------------------
// Laws
// ---------------------------------------------------------------------------

/// A collection that succeeds has one record per item, each the record of
/// that item.
pub proof fn lemma_collect_some(items: Seq<int>, f: spec_fn(int) -> Option<VideoView>)
    ensures
        collect_entries(items, f) matches Some(vs) ==> vs.len() == items.len() && forall|k: int|
            0 <= k < items.len() ==> f(#[trigger] items[k]) == Some(vs[k]),
    decreases items.len(),
{
    if items.len() > 0 {
        lemma_collect_some(items.drop_last(), f);
        if let Some(vs) = collect_entries(items, f) {
            let prev = collect_entries(items.drop_last(), f).unwrap();
            assert forall|k: int| 0 <= k < items.len() implies f(#[trigger] items[k]) == Some(vs[k]) by {
                if k < items.len() - 1 {
                    assert(items[k] == items.drop_last()[k]);
                    assert(vs[k] == prev[k]);
                }
            }
        }
    }
}

/// Every video of the trending feed stands for one tile, in order; its
/// likes, dislikes and description are empty, its id holds no `=`, and its
/// duration is "LIVE" or free of letters, whitespace, `'-'` and `'.'`.
pub proof fn law_trending_records(nodes: Seq<DomNode>)
    ensures
        trending_page(nodes) matches Some(vs) ==> {
            &&& vs.len() == trending_tiles(nodes).len()
            &&& forall|k: int| #![trigger vs[k]] 0 <= k < vs.len() ==> {
                &&& trending_entry(nodes, trending_tiles(nodes)[k]) == Some(vs[k])
                &&& vs[k].likes.len() == 0
                &&& vs[k].dislikes.len() == 0
                &&& vs[k].description.len() == 0
                &&& forall|i: int| 0 <= i < vs[k].id.len() ==> vs[k].id[i] != '='
                &&& vs[k].duration == "LIVE"@ || forall|i: int| 0 <= i < vs[k].duration.len() ==> !is_duration_noise(#[trigger] vs[k].duration[i])
            }
        },
{
    let tiles = trending_tiles(nodes);
    let f = |t: int| trending_entry(nodes, t);
    lemma_collect_some(tiles, f);
    if let Some(vs) = trending_page(nodes) {
        assert forall|k: int| #![trigger vs[k]] 0 <= k < vs.len() implies {
            &&& trending_entry(nodes, tiles[k]) == Some(vs[k])
            &&& vs[k].likes.len() == 0
            &&& vs[k].dislikes.len() == 0
            &&& vs[k].description.len() == 0
            &&& forall|i: int| 0 <= i < vs[k].id.len() ==> vs[k].id[i] != '='
            &&& vs[k].duration == "LIVE"@ || forall|i: int| 0 <= i < vs[k].duration.len() ==> !is_duration_noise(#[trigger] vs[k].duration[i])
        } by {
            assert(f(tiles[k]) == Some(vs[k]));
            let t = tiles[k];
            let link = first_of(select_below(nodes, t, class_pred(nodes, "yt-uix-tile-link"@))).unwrap();
            let href = node_attr(nodes[link], "href"@).unwrap();
            law_second_field_has_no_separator(href, '=');
            let durations = select_below(nodes, t, class_pred(nodes, "accessible-description"@));
            if durations.len() > 0 {
                law_duration_has_no_noise(subtree_text(nodes, durations[0]));
            }
        }
    }
}

/// A read watch page gives the asked-for id, no duration, counts made of
/// digits only; its related videos have digit-only counts, titles without
/// whitespace at either end, ids without `=`, and no likes, dislikes or
/// description.
pub proof fn law_watch_records(nodes: Seq<DomNode>, id: Seq<char>)
    ensures
        watch_page(nodes, id) matches Some((v, related)) ==> {
            &&& v.id == id
            &&& v.duration.len() == 0
            &&& forall|i: int| 0 <= i < v.views.len() ==> is_digit(#[trigger] v.views[i])
            &&& forall|i: int| 0 <= i < v.likes.len() ==> is_digit(#[trigger] v.likes[i])
            &&& forall|i: int| 0 <= i < v.dislikes.len() ==> is_digit(#[trigger] v.dislikes[i])
            &&& related.len() == related_items(nodes).len()
            &&& forall|k: int| #![trigger related[k]] 0 <= k < related.len() ==> {
                &&& related_entry(nodes, related_items(nodes)[k]) == Some(related[k])
                &&& forall|i: int| 0 <= i < related[k].views.len() ==> is_digit(#[trigger] related[k].views[i])
                &&& related[k].title.len() > 0 ==> !is_space(related[k].title[0]) && !is_space(related[k].title.last())
                &&& forall|i: int| 0 <= i < related[k].id.len() ==> related[k].id[i] != '='
                &&& related[k].likes.len() == 0
                &&& related[k].dislikes.len() == 0
                &&& related[k].description.len() == 0
            }
        },
{
    if let Some((v, related)) = watch_page(nodes, id) {
        let vw = first_of(select_all(nodes, class_pred(nodes, "watch-view-count"@))).unwrap();
        let lk = first_of(select_all(nodes, class_pred(nodes, "like-button-renderer-like-button"@))).unwrap();
        let dl = first_of(select_all(nodes, class_pred(nodes, "like-button-renderer-dislike-button"@))).unwrap();
        law_digits_only(subtree_text(nodes, vw));
        law_digits_only(subtree_text(nodes, lk));
        law_digits_only(subtree_text(nodes, dl));
        let items = related_items(nodes);
        let f = |r: int| related_entry(nodes, r);
        lemma_collect_some(items, f);
        assert forall|k: int| #![trigger related[k]] 0 <= k < related.len() implies {
            &&& related_entry(nodes, items[k]) == Some(related[k])
            &&& forall|i: int| 0 <= i < related[k].views.len() ==> is_digit(#[trigger] related[k].views[i])
            &&& related[k].title.len() > 0 ==> !is_space(related[k].title[0]) && !is_space(related[k].title.last())
            &&& forall|i: int| 0 <= i < related[k].id.len() ==> related[k].id[i] != '='
            &&& related[k].likes.len() == 0
            &&& related[k].dislikes.len() == 0
            &&& related[k].description.len() == 0
        } by {
            assert(f(items[k]) == Some(related[k]));
            let r = items[k];
            let vc = first_of(select_below(nodes, r, class_pred(nodes, "view-count"@))).unwrap();
            let ti = first_of(select_below(nodes, r, class_pred(nodes, "title"@))).unwrap();
            let sl = first_of(select_below(nodes, r, class_pred(nodes, "yt-uix-sessionlink"@))).unwrap();
            law_digits_only(subtree_text(nodes, vc));
            law_trimmed_edges(subtree_text(nodes, ti));
            law_second_field_has_no_separator(node_attr(nodes[sl], "href"@).unwrap(), '=');
        }
    }
}

/// The records of the trending feed stand, one for one and in document
/// order, for the `yt-lockup-content` elements whose parent carries
/// `yt-uix-tile`.
pub proof fn law_trending_tiles(nodes: Seq<DomNode>)
    ensures
        lists_all_in_order(nodes, trending_tiles(nodes), class_child_class_pred(nodes, "yt-uix-tile"@, "yt-lockup-content"@)),
        trending_page(nodes) matches Some(vs) ==> vs.len() == trending_tiles(nodes).len(),
{
    lemma_select_all_lists(nodes, class_child_class_pred(nodes, "yt-uix-tile"@, "yt-lockup-content"@));
    lemma_collect_some(trending_tiles(nodes), |t: int| trending_entry(nodes, t));
}

/// Each record of the trending feed is read from its own tile `t` alone:
/// its title is the text of the first `yt-uix-tile-link` below `t` and its
/// id the second `=`-piece of that link's `href`; its author is the text of
/// the first `yt-uix-sessionlink` below `t` whose parent carries
/// `yt-lockup-byline`; its duration is the cleaned-up text of the first
/// `accessible-description` below `t`, or "LIVE" where there is none; its
/// views are the text of the second `li` under a `yt-lockup-meta-info`
/// below `t`, or "hidden" where there is no second one; likes, dislikes and
/// description are empty.
pub proof fn law_trending_record(nodes: Seq<DomNode>, k: int)
    requires
        trending_page(nodes) is Some,
        0 <= k < trending_page(nodes).unwrap().len(),
    ensures
        ({
            let v = trending_page(nodes).unwrap()[k];
            let t = trending_tiles(nodes)[k];
            &&& 0 <= t < nodes.len()
            &&& has_class(nodes[t], "yt-lockup-content"@)
            &&& parent_has_class(nodes, t, "yt-uix-tile"@)
            &&& exists|link: int|
                #![trigger subtree_text(nodes, link)]
                first_below_is(nodes, t, link, class_pred(nodes, "yt-uix-tile-link"@)) && v.title == subtree_text(nodes, link)
                    && (node_attr(nodes[link], "href"@) matches Some(h) && is_second_piece(h, '=', v.id))
            &&& exists|a: int|
                #![trigger subtree_text(nodes, a)]
                first_below_is(nodes, t, a, class_child_class_pred(nodes, "yt-lockup-byline"@, "yt-uix-sessionlink"@))
                    && v.author == subtree_text(nodes, a)
            &&& (none_below(nodes, t, class_pred(nodes, "accessible-description"@)) && v.duration == "LIVE"@)
                || exists|d: int|
                #![trigger subtree_text(nodes, d)]
                first_below_is(nodes, t, d, class_pred(nodes, "accessible-description"@))
                    && v.duration == strip_duration_noise(subtree_text(nodes, d))
            &&& (at_most_one_below(nodes, t, class_child_name_pred(nodes, "yt-lockup-meta-info"@, "li"@)) && v.views == "hidden"@)
                || exists|m1: int, m2: int|
                #![trigger subtree_text(nodes, m2), is_ancestor(nodes, t, m1)]
                first_two_below_are(nodes, t, m1, m2, class_child_name_pred(nodes, "yt-lockup-meta-info"@, "li"@))
                    && v.views == subtree_text(nodes, m2)
            &&& v.likes.len() == 0
            &&& v.dislikes.len() == 0
            &&& v.description.len() == 0
        }),
{
    let vs = trending_page(nodes).unwrap();
    let tiles = trending_tiles(nodes);
    let f = |t: int| trending_entry(nodes, t);
    lemma_collect_some(tiles, f);
    assert(f(tiles[k]) == Some(vs[k]));
    let v = vs[k];
    let t = tiles[k];
    lemma_select_range_bounds(0, nodes.len() as int, class_child_class_pred(nodes, "yt-uix-tile"@, "yt-lockup-content"@));
    assert(class_child_class_pred(nodes, "yt-uix-tile"@, "yt-lockup-content"@)(t));

    let lp = class_pred(nodes, "yt-uix-tile-link"@);
    lemma_first_below(nodes, t, lp);
    let link = select_below(nodes, t, lp)[0];
    let href = node_attr(nodes[link], "href"@).unwrap();
    law_second_field_splits(href, '=');
    assert(first_below_is(nodes, t, link, lp) && v.title == subtree_text(nodes, link)
        && (node_attr(nodes[link], "href"@) matches Some(h) && is_second_piece(h, '=', v.id)));

    let ap = class_child_class_pred(nodes, "yt-lockup-byline"@, "yt-uix-sessionlink"@);
    lemma_first_below(nodes, t, ap);
    let a = select_below(nodes, t, ap)[0];
    assert(first_below_is(nodes, t, a, ap) && v.author == subtree_text(nodes, a));

    let dp = class_pred(nodes, "accessible-description"@);
    lemma_first_below(nodes, t, dp);
    if select_below(nodes, t, dp).len() > 0 {
        let d = select_below(nodes, t, dp)[0];
        assert(first_below_is(nodes, t, d, dp) && v.duration == strip_duration_noise(subtree_text(nodes, d)));
    }

    let mp = class_child_name_pred(nodes, "yt-lockup-meta-info"@, "li"@);
    lemma_first_two_below(nodes, t, mp);
    if select_below(nodes, t, mp).len() >= 2 {
        let m1 = select_below(nodes, t, mp)[0];
        let m2 = select_below(nodes, t, mp)[1];
        assert(is_ancestor(nodes, t, m1));
        assert(first_two_below_are(nodes, t, m1, m2, mp) && v.views == subtree_text(nodes, m2));
    }
}

/// The related list of a watch page holds, one for one and in document
/// order, a record for each `video-list-item` element.
pub proof fn law_related_items(nodes: Seq<DomNode>, id: Seq<char>)
    ensures
        lists_all_in_order(nodes, related_items(nodes), class_pred(nodes, "video-list-item"@)),
        watch_page(nodes, id) matches Some((v, related)) ==> related.len() == related_items(nodes).len(),
{
    lemma_select_all_lists(nodes, class_pred(nodes, "video-list-item"@));
    lemma_collect_some(related_items(nodes), |r: int| related_entry(nodes, r));
}

/// Each related record is read from its own entry `r` alone: views are the
/// digits of the first `view-count` below `r`, the duration the text of the
/// first `video-time`, the title the trimmed text of the first `title`, the
/// author the text of the first `span` whose parent carries `attribution`,
/// and the id the second `=`-piece of the `href` of the first
/// `yt-uix-sessionlink`, all below `r`; likes, dislikes and description are
/// empty.
pub proof fn law_related_record(nodes: Seq<DomNode>, id: Seq<char>, k: int)
    requires
        watch_page(nodes, id) is Some,
        0 <= k < watch_page(nodes, id).unwrap().1.len(),
    ensures
        ({
            let v = watch_page(nodes, id).unwrap().1[k];
            let r = related_items(nodes)[k];
            &&& 0 <= r < nodes.len()
            &&& has_class(nodes[r], "video-list-item"@)
            &&& exists|vc: int|
                #![trigger subtree_text(nodes, vc)]
                first_below_is(nodes, r, vc, class_pred(nodes, "view-count"@)) && v.views == digits_of(subtree_text(nodes, vc))
            &&& exists|vt: int|
                #![trigger subtree_text(nodes, vt)]
                first_below_is(nodes, r, vt, class_pred(nodes, "video-time"@)) && v.duration == subtree_text(nodes, vt)
            &&& exists|ti: int|
                #![trigger subtree_text(nodes, ti)]
                first_below_is(nodes, r, ti, class_pred(nodes, "title"@)) && v.title == trim_ws(subtree_text(nodes, ti))
            &&& exists|au: int|
                #![trigger subtree_text(nodes, au)]
                first_below_is(nodes, r, au, class_child_name_pred(nodes, "attribution"@, "span"@)) && v.author == subtree_text(nodes, au)
            &&& exists|sl: int|
                #![trigger node_attr(nodes[sl], "href"@)]
                first_below_is(nodes, r, sl, class_pred(nodes, "yt-uix-sessionlink"@))
                    && (node_attr(nodes[sl], "href"@) matches Some(h) && is_second_piece(h, '=', v.id))
            &&& v.likes.len() == 0
            &&& v.dislikes.len() == 0
            &&& v.description.len() == 0
        }),
{
    let related = watch_page(nodes, id).unwrap().1;
    let items = related_items(nodes);
    let f = |r: int| related_entry(nodes, r);
    lemma_collect_some(items, f);
    assert(f(items[k]) == Some(related[k]));
    let v = related[k];
    let r = items[k];
    lemma_select_range_bounds(0, nodes.len() as int, class_pred(nodes, "video-list-item"@));
    assert(class_pred(nodes, "video-list-item"@)(r));

    let p1 = class_pred(nodes, "view-count"@);
    let p2 = class_pred(nodes, "video-time"@);
    let p3 = class_pred(nodes, "title"@);
    let p4 = class_child_name_pred(nodes, "attribution"@, "span"@);
    let p5 = class_pred(nodes, "yt-uix-sessionlink"@);
    lemma_first_below(nodes, r, p1);
    lemma_first_below(nodes, r, p2);
    lemma_first_below(nodes, r, p3);
    lemma_first_below(nodes, r, p4);
    lemma_first_below(nodes, r, p5);
    let vc = select_below(nodes, r, p1)[0];
    let vt = select_below(nodes, r, p2)[0];
    let ti = select_below(nodes, r, p3)[0];
    let au = select_below(nodes, r, p4)[0];
    let sl = select_below(nodes, r, p5)[0];
    let href = node_attr(nodes[sl], "href"@).unwrap();
    law_second_field_splits(href, '=');
    assert(first_below_is(nodes, r, vc, p1) && v.views == digits_of(subtree_text(nodes, vc)));
    assert(first_below_is(nodes, r, vt, p2) && v.duration == subtree_text(nodes, vt));
    assert(first_below_is(nodes, r, ti, p3) && v.title == trim_ws(subtree_text(nodes, ti)));
    assert(first_below_is(nodes, r, au, p4) && v.author == subtree_text(nodes, au));
    assert(first_below_is(nodes, r, sl, p5) && (node_attr(nodes[sl], "href"@) matches Some(h) && is_second_piece(h, '=', v.id)));
}

/// What a description block's children give when joined: a line break for
/// each `br` element, the whole text below every other child.
pub open spec fn joined_children_text(nodes: Seq<DomNode>, de: int) -> Seq<char> {
    children_of(nodes, de).map_values(
        |c: int| if node_name(nodes[c]) == Some("br"@) { "\n"@ } else { subtree_text(nodes, c) },
    ).flatten()
}

proof fn lemma_description_joined(nodes: Seq<DomNode>, cs: Seq<int>)
    ensures
        description_of(nodes, cs) == cs.map_values(
            |c: int| if node_name(nodes[c]) == Some("br"@) { "\n"@ } else { subtree_text(nodes, c) },
        ).flatten(),
    decreases cs.len(),
{
    let g = |c: int| if node_name(nodes[c]) == Some("br"@) { "\n"@ } else { subtree_text(nodes, c) };
    if cs.len() == 0 {
        assert(cs.map_values(g) =~= Seq::<Seq<char>>::empty());
    } else {
        lemma_description_joined(nodes, cs.drop_last());
        assert(cs.map_values(g) =~= cs.drop_last().map_values(g).push(g(cs.last())));
        cs.drop_last().map_values(g).lemma_flatten_push(g(cs.last()));
    }
}

/// The watched video's record: its id is the one asked for and its duration
/// empty; its views, likes and dislikes are the digits of the first
/// `watch-view-count`, `like-button-renderer-like-button` and
/// `like-button-renderer-dislike-button` of the page; its title is the
/// `title` attribute of the first element with id `eow-title`; its author is
/// the text of the first `yt-uix-sessionlink` whose parent carries
/// `yt-user-info`; its description joins the children of the first element
/// with id `eow-description`, a line break for each `br` and the whole text
/// below every other child, links included.
pub proof fn law_watch_record(nodes: Seq<DomNode>, id: Seq<char>)
    requires
        watch_page(nodes, id) is Some,
    ensures
        ({
            let v = watch_page(nodes, id).unwrap().0;
            &&& v.id == id
            &&& v.duration.len() == 0
            &&& exists|vw: int|
                #![trigger subtree_text(nodes, vw)]
                first_in_document_is(nodes, vw, class_pred(nodes, "watch-view-count"@)) && v.views == digits_of(subtree_text(nodes, vw))
            &&& exists|lk: int|
                #![trigger subtree_text(nodes, lk)]
                first_in_document_is(nodes, lk, class_pred(nodes, "like-button-renderer-like-button"@))
                    && v.likes == digits_of(subtree_text(nodes, lk))
            &&& exists|dl: int|
                #![trigger subtree_text(nodes, dl)]
                first_in_document_is(nodes, dl, class_pred(nodes, "like-button-renderer-dislike-button"@))
                    && v.dislikes == digits_of(subtree_text(nodes, dl))
            &&& exists|ti: int|
                #![trigger node_attr(nodes[ti], "title"@)]
                first_in_document_is(nodes, ti, attr_pred(nodes, "id"@, "eow-title"@)) && node_attr(nodes[ti], "title"@) == Some(v.title)
            &&& exists|au: int|
                #![trigger subtree_text(nodes, au)]
                first_in_document_is(nodes, au, class_child_class_pred(nodes, "yt-user-info"@, "yt-uix-sessionlink"@))
                    && v.author == subtree_text(nodes, au)
            &&& exists|de: int|
                #![trigger joined_children_text(nodes, de)]
                first_in_document_is(nodes, de, attr_pred(nodes, "id"@, "eow-description"@))
                    && v.description == joined_children_text(nodes, de)
        }),
{
    let v = watch_page(nodes, id).unwrap().0;
    let p1 = class_pred(nodes, "watch-view-count"@);
    let p2 = class_pred(nodes, "like-button-renderer-like-button"@);
    let p3 = class_pred(nodes, "like-button-renderer-dislike-button"@);
    let p4 = attr_pred(nodes, "id"@, "eow-title"@);
    let p5 = class_child_class_pred(nodes, "yt-user-info"@, "yt-uix-sessionlink"@);
    let p6 = attr_pred(nodes, "id"@, "eow-description"@);
    lemma_first_in_document(nodes, p1);
    lemma_first_in_document(nodes, p2);
    lemma_first_in_document(nodes, p3);
    lemma_first_in_document(nodes, p4);
    lemma_first_in_document(nodes, p5);
    lemma_first_in_document(nodes, p6);
    let vw = select_all(nodes, p1)[0];
    let lk = select_all(nodes, p2)[0];
    let dl = select_all(nodes, p3)[0];
    let ti = select_all(nodes, p4)[0];
    let au = select_all(nodes, p5)[0];
    let de = select_all(nodes, p6)[0];
    lemma_description_joined(nodes, children_of(nodes, de));
    assert(first_in_document_is(nodes, vw, p1) && v.views == digits_of(subtree_text(nodes, vw)));
    assert(first_in_document_is(nodes, lk, p2) && v.likes == digits_of(subtree_text(nodes, lk)));
    assert(first_in_document_is(nodes, dl, p3) && v.dislikes == digits_of(subtree_text(nodes, dl)));
    assert(first_in_document_is(nodes, ti, p4) && node_attr(nodes[ti], "title"@) == Some(v.title));
    assert(first_in_document_is(nodes, au, p5) && v.author == subtree_text(nodes, au));
    assert(first_in_document_is(nodes, de, p6) && v.description == joined_children_text(nodes, de));
}

/// A collection succeeds exactly when every item has a record.
pub proof fn lemma_collect_defined(items: Seq<int>, f: spec_fn(int) -> Option<VideoView>)
    ensures
        collect_entries(items, f) is Some <==> forall|k: int| 0 <= k < items.len() ==> f(#[trigger] items[k]) is Some,
    decreases items.len(),
{
    if items.len() > 0 {
        lemma_collect_defined(items.drop_last(), f);
        if collect_entries(items, f) is Some {
            assert forall|k: int| 0 <= k < items.len() implies f(#[trigger] items[k]) is Some by {
                if k < items.len() - 1 {
                    assert(items[k] == items.drop_last()[k]);
                }
            }
        } else {
            if collect_entries(items.drop_last(), f) is None {
                let k = choose|k: int| 0 <= k < items.drop_last().len() && !(f(#[trigger] items.drop_last()[k]) is Some);
                assert(items.drop_last()[k] == items[k]);
            } else {
                assert(f(items[items.len() - 1]) is None);
            }
        }
    }
}

/// Text that holds a `=`.
pub open spec fn holds_equals(h: Seq<char>) -> bool {
    exists|i: int| 0 <= i < h.len() && h[i] == '='
}

/// A trending tile `t` carries what its record needs: a `yt-uix-tile-link`
/// below it, the first of which has an `href` holding a `=`, and a
/// `yt-uix-sessionlink` with a `yt-lockup-byline` parent below it.
pub open spec fn tile_is_readable(nodes: Seq<DomNode>, t: int) -> bool {
    &&& !none_below(nodes, t, class_pred(nodes, "yt-uix-tile-link"@))
    &&& forall|l: int| #[trigger] first_below_is(nodes, t, l, class_pred(nodes, "yt-uix-tile-link"@))
        ==> (node_attr(nodes[l], "href"@) matches Some(h) && holds_equals(h))
    &&& !none_below(nodes, t, class_child_class_pred(nodes, "yt-lockup-byline"@, "yt-uix-sessionlink"@))
}

proof fn lemma_tile_readable(nodes: Seq<DomNode>, t: int)
    ensures
        trending_entry(nodes, t) is Some <==> tile_is_readable(nodes, t),
{
    let lp = class_pred(nodes, "yt-uix-tile-link"@);
    let ap = class_child_class_pred(nodes, "yt-lockup-byline"@, "yt-uix-sessionlink"@);
    lemma_first_below(nodes, t, lp);
    lemma_first_below_full(nodes, t, lp);
    lemma_first_below_full(nodes, t, ap);
    if select_below(nodes, t, lp).len() > 0 {
        let link = select_below(nodes, t, lp)[0];
        if let Some(h) = node_attr(nodes[link], "href"@) {
            law_second_field_splits(h, '=');
        }
        assert(first_below_is(nodes, t, link, lp));
    }
}

/// The trending feed is read exactly when every tile is readable.
pub proof fn law_trending_page_succeeds(nodes: Seq<DomNode>)
    ensures
        trending_page(nodes) is Some <==> forall|k: int| 0 <= k < trending_tiles(nodes).len() ==> tile_is_readable(nodes, #[trigger] trending_tiles(nodes)[k]),
{
    let tiles = trending_tiles(nodes);
    let f = |t: int| trending_entry(nodes, t);
    lemma_collect_defined(tiles, f);
    assert forall|k: int| 0 <= k < tiles.len() implies (f(#[trigger] tiles[k]) is Some <==> tile_is_readable(nodes, tiles[k])) by {
        lemma_tile_readable(nodes, tiles[k]);
    }
}

/// A related entry `r` carries what its record needs: below it a
/// `view-count`, a `video-time`, a `title`, a `span` under an `attribution`,
/// and a `yt-uix-sessionlink`, the first of which has an `href` holding a
/// `=`.
pub open spec fn related_is_readable(nodes: Seq<DomNode>, r: int) -> bool {
    &&& !none_below(nodes, r, class_pred(nodes, "view-count"@))
    &&& !none_below(nodes, r, class_pred(nodes, "video-time"@))
    &&& !none_below(nodes, r, class_pred(nodes, "title"@))
    &&& !none_below(nodes, r, class_child_name_pred(nodes, "attribution"@, "span"@))
    &&& !none_below(nodes, r, class_pred(nodes, "yt-uix-sessionlink"@))
    &&& forall|l: int| #[trigger] first_below_is(nodes, r, l, class_pred(nodes, "yt-uix-sessionlink"@))
        ==> (node_attr(nodes[l], "href"@) matches Some(h) && holds_equals(h))
}

proof fn lemma_related_readable(nodes: Seq<DomNode>, r: int)
    ensures
        related_entry(nodes, r) is Some <==> related_is_readable(nodes, r),
{
    let p1 = class_pred(nodes, "view-count"@);
    let p2 = class_pred(nodes, "video-time"@);
    let p3 = class_pred(nodes, "title"@);
    let p4 = class_child_name_pred(nodes, "attribution"@, "span"@);
    let p5 = class_pred(nodes, "yt-uix-sessionlink"@);
    lemma_first_below_full(nodes, r, p1);
    lemma_first_below_full(nodes, r, p2);
    lemma_first_below_full(nodes, r, p3);
    lemma_first_below_full(nodes, r, p4);
    lemma_first_below_full(nodes, r, p5);
    lemma_first_below(nodes, r, p5);
    if select_below(nodes, r, p5).len() > 0 {
        let sl = select_below(nodes, r, p5)[0];
        if let Some(h) = node_attr(nodes[sl], "href"@) {
            law_second_field_splits(h, '=');
        }
        assert(first_below_is(nodes, r, sl, p5));
    }
}

/// A watch page carries what its records need: a `watch-view-count`, a like
/// and a dislike button, an element with id `eow-title` (the first of which
/// has a `title` attribute), a `yt-uix-sessionlink` with a `yt-user-info`
/// parent, an element with id `eow-description`, and readable related
/// entries.
pub open spec fn watch_page_is_readable(nodes: Seq<DomNode>) -> bool {
    &&& !none_in_document(nodes, class_pred(nodes, "watch-view-count"@))
    &&& !none_in_document(nodes, class_pred(nodes, "like-button-renderer-like-button"@))
    &&& !none_in_document(nodes, class_pred(nodes, "like-button-renderer-dislike-button"@))
    &&& !none_in_document(nodes, attr_pred(nodes, "id"@, "eow-title"@))
    &&& forall|ti: int| #[trigger] first_in_document_is(nodes, ti, attr_pred(nodes, "id"@, "eow-title"@))
        ==> node_attr(nodes[ti], "title"@) is Some
    &&& !none_in_document(nodes, class_child_class_pred(nodes, "yt-user-info"@, "yt-uix-sessionlink"@))
    &&& !none_in_document(nodes, attr_pred(nodes, "id"@, "eow-description"@))
    &&& forall|k: int| 0 <= k < related_items(nodes).len() ==> related_is_readable(nodes, #[trigger] related_items(nodes)[k])
}

/// A watch page is read exactly when it is readable, whatever the id asked
/// for.
pub proof fn law_watch_page_succeeds(nodes: Seq<DomNode>, id: Seq<char>)
    ensures
        watch_page(nodes, id) is Some <==> watch_page_is_readable(nodes),
{
    let p1 = class_pred(nodes, "watch-view-count"@);
    let p2 = class_pred(nodes, "like-button-renderer-like-button"@);
    let p3 = class_pred(nodes, "like-button-renderer-dislike-button"@);
    let p4 = attr_pred(nodes, "id"@, "eow-title"@);
    let p5 = class_child_class_pred(nodes, "yt-user-info"@, "yt-uix-sessionlink"@);
    let p6 = attr_pred(nodes, "id"@, "eow-description"@);
    lemma_first_in_document_full(nodes, p1);
    lemma_first_in_document_full(nodes, p2);
    lemma_first_in_document_full(nodes, p3);
    lemma_first_in_document_full(nodes, p4);
    lemma_first_in_document_full(nodes, p5);
    lemma_first_in_document_full(nodes, p6);
    lemma_first_in_document(nodes, p4);
    if select_all(nodes, p4).len() > 0 {
        assert(first_in_document_is(nodes, select_all(nodes, p4)[0], p4));
    }
    let items = related_items(nodes);
    let f = |r: int| related_entry(nodes, r);
    lemma_collect_defined(items, f);
    assert forall|k: int| 0 <= k < items.len() implies (f(#[trigger] items[k]) is Some <==> related_is_readable(nodes, items[k])) by {
        lemma_related_readable(nodes, items[k]);
    }
}

} // verus!
