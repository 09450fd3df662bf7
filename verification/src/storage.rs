//! Disk usage of the cache, as the preferences window reports it.

use vstd::prelude::*;
use vstd::string::*;

verus! {

/// One entry of a directory listing, with its size: a file with its own
/// size, or a directory with the total of its contents.
#[derive(Debug, Clone, Copy, PartialEq, Eq)]
pub enum EntrySize {
    File(u64),
    Dir(u64),
}

/// What an entry counts for: a file its size, a directory one 4096-byte
/// block plus its contents.
pub open spec fn entry_weight(e: EntrySize) -> int {
    match e {
        EntrySize::File(size) => size as int,
        EntrySize::Dir(total) => 4096 + total,
    }
}

/// The size of a directory whose entries are `es`.
pub open spec fn dir_total(es: Seq<EntrySize>) -> int
    decreases es.len(),
{
    if es.len() == 0 {
        0
    } else {
        dir_total(es.drop_last()) + entry_weight(es.last())
    }
}

pub proof fn lemma_dir_total_nonneg(es: Seq<EntrySize>)
    ensures
        dir_total(es) >= 0,
    decreases es.len(),
{
    if es.len() > 0 {
        lemma_dir_total_nonneg(es.drop_last());
    }
}

/// A total never falls below the total of a prefix.
pub proof fn lemma_dir_total_prefix(es: Seq<EntrySize>, k: int)
    requires
        0 <= k <= es.len(),
    ensures
        dir_total(es.take(k)) <= dir_total(es),
    decreases es.len() - k,
{
    if k < es.len() {
        assert(es.take(k + 1).drop_last() =~= es.take(k));
        lemma_dir_total_prefix(es, k + 1);
    } else {
        assert(es.take(k) =~= es);
    }
}

/// The size of a directory whose entries are `entries`, or `None` where it
/// does not fit in 64 bits.
pub fn dir_size_total(entries: &Vec<EntrySize>) -> (res: Option<u64>)
    ensures
        res is Some <==> dir_total(entries@) <= u64::MAX,
        res matches Some(t) ==> t == dir_total(entries@),
{
    let mut size: u64 = 0;
    let mut k: usize = 0;
    while k < entries.len()
        invariant
            0 <= k <= entries@.len(),
            size == dir_total(entries@.take(k as int)),
        decreases entries.len() - k,
    {
        proof {
            assert(entries@.take(k + 1).drop_last() =~= entries@.take(k as int));
            lemma_dir_total_prefix(entries@, k + 1);
            lemma_dir_total_nonneg(entries@.take(k + 1));
        }
        let step: Option<u64> = match entries[k] {
            EntrySize::File(s) => size.checked_add(s),
            EntrySize::Dir(t) => match size.checked_add(4096) {
                Some(with_block) => with_block.checked_add(t),
                None => None,
            },
        };
        match step {
            Some(next) => {
                size = next;
            },
            None => {
                proof {
                    lemma_dir_total_prefix(entries@, k + 1);
                }
                return None;
            },
        }
        k = k + 1;
    }
    proof {
        assert(entries@.take(k as int) =~= entries@);
    }
    Some(size)
}

/// The cache line of the preferences window.
pub struct CacheLabel {
    pub text: String,
    /// Whether the clear button can be pressed.
    pub clearable: bool,
}

/// The cache line for a cache directory of `dir_size` bytes, whose size
/// reads `pretty` once formatted: an (almost) empty cache, at most the
/// directory block itself, reads "Cache (0 B):" and cannot be cleared.
pub fn cache_label(dir_size: u64, pretty: &str) -> (res: CacheLabel)
    ensures
        dir_size < 4097 ==> res.text@ == "Cache (0 B):"@ && !res.clearable,
        dir_size >= 4097 ==> res.text@ == "Cache ("@ + pretty@ + "):"@ && res.clearable,
{
    if dir_size < 4097 {
        CacheLabel { text: "Cache (0 B):".to_owned(), clearable: false }
    } else {
        let mut text = "Cache (".to_owned();
        text.append(pretty);
        text.append("):");
        CacheLabel { text, clearable: true }
    }
}

/// The size of a listing split in two is the sum of the sizes of the
/// parts.
pub proof fn law_dir_total_concat(a: Seq<EntrySize>, b: Seq<EntrySize>)
    ensures
        dir_total(a + b) == dir_total(a) + dir_total(b),
    decreases b.len(),
{
    if b.len() == 0 {
        assert(a + b =~= a);
    } else {
        law_dir_total_concat(a, b.drop_last());
        assert((a + b).drop_last() =~= a + b.drop_last());
        assert((a + b).last() == b.last());
    }
}

/// The size of a directory does not depend on the order in which the
/// listing comes: swapping two parts of it changes nothing.
pub proof fn law_dir_total_order(a: Seq<EntrySize>, b: Seq<EntrySize>)
    ensures
        dir_total(a + b) == dir_total(b + a),
{
    law_dir_total_concat(a, b);
    law_dir_total_concat(b, a);
}

/// A file counts for its size, a subdirectory for one 4096-byte block plus
/// its contents; with `law_dir_total_concat` this fixes the size of every
/// listing.
pub proof fn law_single_entry_sizes(size: u64, total: u64)
    ensures
        dir_total(seq![EntrySize::File(size)]) == size,
        dir_total(seq![EntrySize::Dir(total)]) == 4096 + total,
        dir_total(Seq::<EntrySize>::empty()) == 0,
{
    let f = seq![EntrySize::File(size)];
    let d = seq![EntrySize::Dir(total)];
    assert(dir_total(Seq::<EntrySize>::empty()) == 0);
    assert(f.drop_last() =~= Seq::<EntrySize>::empty());
    assert(d.drop_last() =~= Seq::<EntrySize>::empty());
    assert(f.last() == EntrySize::File(size));
    assert(d.last() == EntrySize::Dir(total));
    assert(dir_total(f) == dir_total(f.drop_last()) + entry_weight(f.last()));
    assert(dir_total(d) == dir_total(d.drop_last()) + entry_weight(d.last()));
}

} // verus!
