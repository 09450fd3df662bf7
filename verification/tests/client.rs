use sentinel_api::downloader::{chunk_size, download_plan, filled_part};
use sentinel_api::paths::{
    cache_dir_in, config_dir_in, config_file_in, image_cache_dir_in, thumbnail_job, NAME_NOCAPS,
};
use sentinel_api::preferences::{default_config, on_settings_loaded, toggled, with_dark_mode, LoadedSettings};
use sentinel_api::storage::{cache_label, dir_size_total, EntrySize};
use sentinel_api::views::{after_load, is_spinner, on_watch, trending_view, video_ids, OnWatch, TrendingView};
use sentinel_api::youtube::get_trending_videos;

#[test]
fn config_locations() {
    assert_eq!(NAME_NOCAPS, "sentinel");
    let dir = config_dir_in("/home/ann");
    assert_eq!(dir, "/home/ann/.config/sentinel");
    assert_eq!(config_file_in(&dir), "/home/ann/.config/sentinel/config.toml");
    assert_eq!(cache_dir_in(&dir), "/home/ann/.config/sentinel/cache");
    assert_eq!(image_cache_dir_in(&dir), "/home/ann/.config/sentinel/cache/images");
}

#[test]
fn thumbnail_locations() {
    let job = thumbnail_job("/c/images", "abc");
    assert_eq!(job.file, "abc.jpg");
    assert_eq!(job.path, "/c/images/abc.jpg");
    assert_eq!(job.url, "https://i.ytimg.com/vi/abc/mqdefault.jpg");
}

#[test]
fn chunk_sizes() {
    assert_eq!(chunk_size(None), 128);
    assert_eq!(chunk_size(Some(0)), 0);
    assert_eq!(chunk_size(Some(198)), 2);
    assert_eq!(chunk_size(Some(255)), 2);
    assert_eq!(chunk_size(Some(256)), 0);
    assert_eq!(chunk_size(Some(1000)), 2);
}

#[test]
fn download_plans() {
    let plan = download_plan("/tmp/d", "x.jpg", Some(300));
    assert_eq!(plan.part_path, "/tmp/d/x.jpg.part");
    assert_eq!(plan.target_path, "/tmp/d/x.jpg");
    assert_eq!(plan.buffer, vec![0u8, 0]);
    assert_eq!(download_plan("d", "f", None).buffer, vec![0u8, 128]);
}

#[test]
fn reads_to_write() {
    assert_eq!(filled_part(vec![7, 8], 1), Some(vec![7]));
    assert_eq!(filled_part(vec![7, 8], 2), Some(vec![7, 8]));
    assert_eq!(filled_part(vec![7, 8], 0), None);
    assert_eq!(filled_part(vec![], 3), None);
}

#[test]
fn directory_sizes() {
    assert_eq!(dir_size_total(&vec![]), Some(0));
    assert_eq!(dir_size_total(&vec![EntrySize::File(10), EntrySize::Dir(5)]), Some(4111));
    assert_eq!(
        dir_size_total(&vec![EntrySize::Dir(5), EntrySize::File(10)]),
        dir_size_total(&vec![EntrySize::File(10), EntrySize::Dir(5)])
    );
    assert_eq!(dir_size_total(&vec![EntrySize::File(u64::MAX), EntrySize::File(1)]), None);
    assert_eq!(dir_size_total(&vec![EntrySize::Dir(u64::MAX - 4096)]), Some(u64::MAX));
    assert_eq!(dir_size_total(&vec![EntrySize::Dir(u64::MAX - 4095)]), None);
}

#[test]
fn cache_labels() {
    let empty = cache_label(4096, "4.1 kB");
    assert_eq!(empty.text, "Cache (0 B):");
    assert!(!empty.clearable);
    let full = cache_label(4097, "4.1 kB");
    assert_eq!(full.text, "Cache (4.1 kB):");
    assert!(full.clearable);
}

#[test]
fn settings() {
    let config = default_config();
    assert!(!config.general.dark_mode);
    assert_eq!(config.video.preferred_resolution, "720p");
    let dark = with_dark_mode(config, true);
    assert!(dark.general.dark_mode);
    assert_eq!(dark.video.preferred_resolution, "720p");
    assert!(toggled(false));
    assert!(!toggled(true));
    assert!(!toggled(toggled(false)));
    match on_settings_loaded(Some(&dark)) {
        LoadedSettings::Apply { prefer_dark, switch_on } => assert!(prefer_dark && switch_on),
        LoadedSettings::Reset => panic!("a parsed file is applied"),
    }
    assert!(matches!(on_settings_loaded(None), LoadedSettings::Reset));
}

#[test]
fn trending_view_lists_ids() {
    let page = r#"<div class="yt-uix-tile"><div class="yt-lockup-content"><a class="yt-uix-tile-link" href="/watch?v=one">T</a><div class="yt-lockup-byline"><a class="yt-uix-sessionlink">A</a></div></div></div>
<div class="yt-uix-tile"><div class="yt-lockup-content"><a class="yt-uix-tile-link" href="/watch?v=two">U</a><div class="yt-lockup-byline"><a class="yt-uix-sessionlink">B</a></div></div></div>"#;
    let videos = get_trending_videos(page).unwrap();
    assert_eq!(video_ids(&videos), vec!["one".to_string(), "two".to_string()]);
    match trending_view(Some(&videos)) {
        TrendingView::List { ids } => assert_eq!(ids, vec!["one".to_string(), "two".to_string()]),
        TrendingView::Failed => panic!("a fetched feed is listed"),
    }
    assert!(matches!(trending_view(None), TrendingView::Failed));
}

#[test]
fn player_overlay_decisions() {
    assert!(is_spinner(Some("GtkSpinner")));
    assert!(!is_spinner(Some("GtkGrid")));
    assert!(!is_spinner(None));
    assert!(matches!(on_watch(Some("GtkSpinner")), OnWatch::StartSpinner));
    assert!(matches!(on_watch(Some("GtkGrid")), OnWatch::Remove));
    let names = vec![Some("GtkSpinner".to_string()), Some("GtkGrid".to_string()), None];
    let ok = after_load(&names, true);
    assert_eq!(ok.stop_spinner, vec![true, false, false]);
    assert!(ok.show_player);
    assert_eq!(ok.error_views, 0);
    let failed = after_load(&names, false);
    assert!(!failed.show_player);
    assert_eq!(failed.error_views, 3);
}
