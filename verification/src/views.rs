//! The decisions of the trending view and of the player overlay.

use vstd::prelude::*;

use crate::text::same_text;
use crate::youtube::Video;

verus! {

/// The ids of `videos`, in order: the thumbnails to load for a list.
pub fn video_ids(videos: &Vec<Video>) -> (res: Vec<String>)
    ensures
        res@.len() == videos@.len(),
        forall|k: int| 0 <= k < videos@.len() ==> (#[trigger] res@[k])@ == videos@[k].id@,
{
    let mut ids: Vec<String> = Vec::new();
    let mut k: usize = 0;
    while k < videos.len()
        invariant
            0 <= k <= videos@.len(),
            ids@.len() == k,
            forall|j: int| 0 <= j < k ==> (#[trigger] ids@[j])@ == videos@[j].id@,
        decreases videos.len() - k,
    {
        let id = String::from_str(videos[k].id.as_str());
        ids.push(id);
        k = k + 1;
    }
    ids
}

/// What the trending view shows once the feed has been fetched.
pub enum TrendingView {
    /// A list of the videos, whose thumbnails are then loaded by id.
    List { ids: Vec<String> },
    /// The message that the feed could not be fetched.
    Failed,
}

/// The trending view for a fetched feed (`None` when fetching failed).
pub fn trending_view(fetched: Option<&Vec<Video>>) -> (res: TrendingView)
    ensures
        fetched is None <==> res is Failed,
        fetched matches Some(vs) ==> res matches TrendingView::List { ids } && ids@.len() == vs@.len()
            && forall|k: int| 0 <= k < vs@.len() ==> (#[trigger] ids@[k])@ == vs@[k].id@,
{
    match fetched {
        Some(vs) => TrendingView::List { ids: video_ids(vs) },
        None => TrendingView::Failed,
    }
}

/// The child of the player overlay is its loading spinner.
pub fn is_spinner(name: Option<&str>) -> (res: bool)
    ensures
        res == (name matches Some(n) && n@ == "GtkSpinner"@),
{
    match name {
        Some(n) => same_text(n, "GtkSpinner"),
        None => false,
    }
}

/// What happens to a child of the player overlay when a video is chosen.
pub enum OnWatch {
    /// The spinner is started and shown.
    StartSpinner,
    /// Anything else, the previous video among it, is removed.
    Remove,
}

/// The fate of the overlay child named `name` when a video is chosen.
pub fn on_watch(name: Option<&str>) -> (res: OnWatch)
    ensures
        res is StartSpinner <==> (name matches Some(n) && n@ == "GtkSpinner"@),
{
    if is_spinner(name) {
        OnWatch::StartSpinner
    } else {
        OnWatch::Remove
    }
}

/// What the player overlay does once the watch page has been read.
pub struct AfterLoad {
    /// For each child in turn, whether it is a spinner to stop and hide.
    pub stop_spinner: Vec<bool>,
    /// Whether the player view is added.
    pub show_player: bool,
    /// How many error views are added: one per child walked when the page
    /// could not be read.
    pub error_views: usize,
}

/// The overlay's work for children named `names`, after the page was read
/// (`loaded`) or not.
pub fn after_load(names: &Vec<Option<String>>, loaded: bool) -> (res: AfterLoad)
    ensures
        res.stop_spinner@.len() == names@.len(),
        forall|k: int| 0 <= k < names@.len() ==> #[trigger] res.stop_spinner@[k] == (names@[k] matches Some(n) && n@ == "GtkSpinner"@),
        res.show_player == loaded,
        res.error_views == if loaded { 0 } else { names@.len() },
{
    let mut stop: Vec<bool> = Vec::new();
    let mut k: usize = 0;
    while k < names.len()
        invariant
            0 <= k <= names@.len(),
            stop@.len() == k,
            forall|j: int| 0 <= j < k ==> #[trigger] stop@[j] == (names@[j] matches Some(n) && n@ == "GtkSpinner"@),
        decreases names.len() - k,
    {
        let s = match &names[k] {
            Some(n) => is_spinner(Some(n.as_str())),
            None => false,
        };
        stop.push(s);
        k = k + 1;
    }
    AfterLoad {
        stop_spinner: stop,
        show_player: loaded,
        error_views: if loaded { 0 } else { names.len() },
    }
}

} // verus!
