//! The decisions of a file download: where the partial file goes, how large
//! a read buffer is, and what of a read is written.

use vstd::prelude::*;
use vstd::string::*;

verus! {

/// The read chunk size for a response: the low byte of the announced
/// length divided by 99 where a length is announced, 128 otherwise.
pub open spec fn chunk_size_for(content_length: Option<u64>) -> u8 {
    match content_length {
        Some(x) => ((x % 256) / 99) as u8,
        None => 128,
    }
}

pub fn chunk_size(content_length: Option<u64>) -> (res: u8)
    ensures
        res == chunk_size_for(content_length),
{
    match content_length {
        Some(x) => {
            let low = (x % 256) as u8;
            low / 99
        },
        None => 128,
    }
}

/// The paths and buffer of one download of `file` into `dir`.
pub struct DownloadPlan {
    /// Where the bytes go while they arrive: `<dir>/<file>.part`.
    pub part_path: String,
    /// Where the finished file is moved: `<dir>/<file>`.
    pub target_path: String,
    /// The buffer each read fills: the two bytes `0` and the chunk size.
    pub buffer: Vec<u8>,
}

/// The plan for downloading `file` into `dir`, for a response announcing
/// `content_length` bytes (or none).
pub fn download_plan(dir: &str, file: &str, content_length: Option<u64>) -> (res: DownloadPlan)
    ensures
        res.part_path@ == dir@ + "/"@ + file@ + ".part"@,
        res.target_path@ == dir@ + "/"@ + file@,
        res.buffer@ == seq![0u8, chunk_size_for(content_length)],
{
    let mut target_path = String::from_str(dir);
    target_path.append("/");
    target_path.append(file);
    let mut part_path = String::from_str(target_path.as_str());
    part_path.append(".part");
    let chunk = chunk_size(content_length);
    let buffer = vec![0u8, chunk];
    proof {
        assert(part_path@ =~= dir@ + "/"@ + file@ + ".part"@);
    }
    DownloadPlan { part_path, target_path, buffer }
}

/// What a read of `count` bytes into `buffer` leaves to write: the first
/// `count` bytes, or nothing once a read comes back empty, which ends the
/// download.
pub fn filled_part(buffer: Vec<u8>, count: usize) -> (res: Option<Vec<u8>>)
    ensures
        res is None <==> count == 0 || buffer@.len() == 0,
        res matches Some(part) ==> part@ == buffer@.take(if count < buffer@.len() { count as int } else { buffer@.len() as int }),
{
    let mut buffer = buffer;
    buffer.truncate(count);
    if buffer.len() == 0 {
        None
    } else {
        Some(buffer)
    }
}

/// Where the length is announced, a read never asks for more than two
/// bytes: the low byte of the length divided by 99 is at most 2.
pub proof fn law_known_length_chunk_is_small(length: u64)
    ensures
        chunk_size_for(Some(length)) <= 2,
{
}

/// With an announced length, the chunk size is the quotient of the low
/// byte of the length by 99; without one, it is 128.
pub proof fn law_chunk_size_is_low_byte_quotient(length: u64)
    ensures
        chunk_size_for(Some(length)) * 99 <= length % 256 < chunk_size_for(Some(length)) * 99 + 99,
        chunk_size_for(None) == 128,
{
}

} // verus!
