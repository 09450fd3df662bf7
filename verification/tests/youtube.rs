use sentinel_api::youtube::{get_trending_videos, trending_url, video_info, watch_url};

const TRENDING: &str = r#"<!DOCTYPE html>
<html><head><title>Trending</title></head><body>
<ul>
<li><div class="yt-lockup yt-uix-tile clearfix">
  <div class="yt-lockup-content">
    <h3 class="yt-lockup-title"><a class="yt-uix-tile-link yt-ui-ellipsis" href="/watch?v=abc123">First &amp; best</a><span class="accessible-description"> - Duration: 4:13.</span></h3>
    <div class="yt-lockup-byline"><a class="yt-uix-sessionlink spf-link" href="/user/one">Author One</a></div>
    <div class="yt-lockup-meta"><ul class="yt-lockup-meta-info"><li>2 days ago</li><li>1,234 views</li></ul></div>
  </div>
</div></li>
<li><div class="yt-uix-tile">
  <div class="yt-lockup-content">
    <h3><a class="yt-uix-tile-link" href="/watch?v=live42&amp;t=1">Live now</a></h3>
    <div class="yt-lockup-byline"><a class="yt-uix-sessionlink" href="/user/two">Author Two</a></div>
    <div class="yt-lockup-meta"><ul class="yt-lockup-meta-info"><li>Streaming</li></ul></div>
  </div>
</div></li>
</ul>
</body></html>"#;

const WATCH: &str = r#"<!DOCTYPE html>
<html><head><title>Watch</title></head><body>
<h1><span id="eow-title" class="watch-title" title="  My &lt;Title&gt;">My Title</span></h1>
<div class="yt-user-info"><a class="yt-uix-sessionlink" href="/channel/up">Uploader</a></div>
<div class="watch-view-count">12,345 views</div>
<button class="yt-uix-button like-button-renderer-like-button"><span>1,000</span></button>
<button class="yt-uix-button like-button-renderer-dislike-button"><span>20</span></button>
<p id="eow-description">Line one<br>Line <b>two</b></p>
<ul>
<li class="video-list-item related-list-item"><a class="yt-uix-sessionlink" href="/watch?v=rel1"><span class="title">
   Related one  </span><span class="attribution"><span>Someone</span></span><span class="view-count">999 views</span></a><span class="video-time">3:21</span></li>
<li class="video-list-item"><a class="yt-uix-sessionlink" href="/watch?v=rel2=x"><span class="title">Two</span><span class="attribution"><span>Other</span></span><span class="view-count">No views</span></a><span class="video-time">10:00</span></li>
</ul>
</body></html>"#;

#[test]
fn trending_feed_gives_one_video_per_tile() {
    let videos = get_trending_videos(TRENDING).expect("the feed parses");
    assert_eq!(videos.len(), 2);

    let first = &videos[0];
    assert_eq!(first.title, "First & best");
    assert_eq!(first.author, "Author One");
    assert_eq!(first.id, "abc123");
    assert_eq!(first.views, "1,234 views");
    assert_eq!(first.duration, "4:13");
    assert_eq!(first.likes, "");
    assert_eq!(first.dislikes, "");
    assert_eq!(first.description, "");

    let second = &videos[1];
    assert_eq!(second.title, "Live now");
    assert_eq!(second.id, "live42&t");
    assert_eq!(second.views, "hidden");
    assert_eq!(second.duration, "LIVE");
}

#[test]
fn trending_feed_without_tiles_is_empty() {
    let videos = get_trending_videos("<html><body><p>nothing</p></body></html>").unwrap();
    assert!(videos.is_empty());
}

#[test]
fn trending_tile_without_link_is_refused() {
    let page = r#"<div class="yt-uix-tile"><div class="yt-lockup-content"><div class="yt-lockup-byline"><a class="yt-uix-sessionlink">A</a></div></div></div>"#;
    assert!(get_trending_videos(page).is_none());
}

#[test]
fn trending_link_without_equals_is_refused() {
    let page = r#"<div class="yt-uix-tile"><div class="yt-lockup-content"><a class="yt-uix-tile-link" href="/watch">T</a><div class="yt-lockup-byline"><a class="yt-uix-sessionlink">A</a></div></div></div>"#;
    assert!(get_trending_videos(page).is_none());
}

#[test]
fn trending_tile_without_author_is_refused() {
    let page = r#"<div class="yt-uix-tile"><div class="yt-lockup-content"><a class="yt-uix-tile-link" href="/watch?v=x">T</a></div></div>"#;
    assert!(get_trending_videos(page).is_none());
}

#[test]
fn watch_page_gives_video_and_related() {
    let (video, related) = video_info("vid9".to_string(), WATCH).expect("the page parses");
    assert_eq!(video.id, "vid9");
    assert_eq!(video.title, "  My <Title>");
    assert_eq!(video.author, "Uploader");
    assert_eq!(video.views, "12345");
    assert_eq!(video.likes, "1000");
    assert_eq!(video.dislikes, "20");
    assert_eq!(video.duration, "");
    assert_eq!(video.description, "Line one\nLine two");

    assert_eq!(related.len(), 2);
    assert_eq!(related[0].title, "Related one");
    assert_eq!(related[0].author, "Someone");
    assert_eq!(related[0].views, "999");
    assert_eq!(related[0].duration, "3:21");
    assert_eq!(related[0].id, "rel1");
    assert_eq!(related[0].likes, "");
    assert_eq!(related[0].description, "");
    assert_eq!(related[1].id, "rel2");
    assert_eq!(related[1].views, "");
    assert_eq!(related[1].duration, "10:00");
}

#[test]
fn watch_page_without_view_count_is_refused() {
    let page = WATCH.replace("watch-view-count", "something-else");
    assert!(video_info("vid9".to_string(), &page).is_none());
}

#[test]
fn watch_page_without_title_attribute_is_refused() {
    let page = WATCH.replace(r#"title="  My &lt;Title&gt;""#, "");
    assert!(video_info("vid9".to_string(), &page).is_none());
}

#[test]
fn watch_page_with_broken_related_entry_is_refused() {
    let page = WATCH.replace(r#"<span class="video-time">10:00</span>"#, "");
    assert!(video_info("vid9".to_string(), &page).is_none());
}

#[test]
fn page_addresses() {
    assert_eq!(watch_url("abc"), "https://www.youtube.com/watch?v=abc");
    assert_eq!(trending_url(), "https://www.youtube.com/feed/trending");
}
