//! Where the client keeps its files, and the addresses it fetches.

use vstd::prelude::*;
use vstd::string::*;

verus! {

/// The directory name of the client under `~/.config`.
pub const NAME_NOCAPS: &'static str = "sentinel";

/// `a` followed by `b`.
fn joined(a: &str, b: &str) -> (res: String)
    ensures
        res@ == a@ + b@,
{
    let mut out = String::from_str(a);
    out.append(b);
    out
}

/// The configuration directory for the home directory `home`:
/// `$HOME/.config/sentinel`.
pub fn config_dir_in(home: &str) -> (res: String)
    ensures
        res@ == home@ + "/.config/"@ + NAME_NOCAPS@,
{
    let mut out = joined(home, "/.config/");
    out.append(NAME_NOCAPS);
    out
}

/// The configuration file: `<config dir>/config.toml`.
pub fn config_file_in(config_dir: &str) -> (res: String)
    ensures
        res@ == config_dir@ + "/config.toml"@,
{
    joined(config_dir, "/config.toml")
}

/// The cache directory: `<config dir>/cache`.
pub fn cache_dir_in(config_dir: &str) -> (res: String)
    ensures
        res@ == config_dir@ + "/cache"@,
{
    joined(config_dir, "/cache")
}

/// The thumbnail cache: `<config dir>/cache/images`.
pub fn image_cache_dir_in(config_dir: &str) -> (res: String)
    ensures
        res@ == config_dir@ + "/cache/images"@,
{
    joined(config_dir, "/cache/images")
}

/// Where a thumbnail is fetched from and kept.
pub struct ThumbnailJob {
    /// The file name: `<id>.jpg`.
    pub file: String,
    /// The cached file: `<cache dir>/<id>.jpg`.
    pub path: String,
    /// The address of the medium-size thumbnail.
    pub url: String,
}

/// The thumbnail of video `id`, cached in `cache_dir`.
pub fn thumbnail_job(cache_dir: &str, id: &str) -> (res: ThumbnailJob)
    ensures
        res.file@ == id@ + ".jpg"@,
        res.path@ == cache_dir@ + "/"@ + id@ + ".jpg"@,
        res.url@ == "https://i.ytimg.com/vi/"@ + id@ + "/mqdefault.jpg"@,
{
    let file = joined(id, ".jpg");
    let mut path = joined(cache_dir, "/");
    path.append(file.as_str());
    let mut url = joined("https://i.ytimg.com/vi/", id);
    url.append("/mqdefault.jpg");
    proof {
        assert(path@ =~= cache_dir@ + "/"@ + id@ + ".jpg"@);
    }
    ThumbnailJob { file, path, url }
}

} // verus!
