//! Pool inventory: turns the raw text of the kernel's huge-page pool
//! directory (one subdirectory per page size, with total- and free-page
//! count files) into typed records. Reading the files is the caller's
//! business; this module only parses what was read, and a single malformed
//! source fails the whole inventory, so no partial list is ever returned.

use vstd::prelude::*;
use crate::num::all_dec_digits;
use crate::num::dec_value;
use crate::num::parse_u64_dec;
use crate::text::find_char;
use crate::text::first_idx;
use crate::text::lemma_first_idx_bounds;
use crate::text::trim;
use crate::text::trimmed;

verus! {

/// One discovered huge-page pool size class.
#[derive(Clone, Copy, Debug, PartialEq, Eq, Structural)]
pub struct PoolEntry {
    /// Page size of this pool, in KiB.
    pub size_kb: u64,
    /// Pages currently unallocated.
    pub free: u64,
    /// Pages configured in the pool.
    pub total: u64,
}

/// The raw text of one pool subdirectory, as the caller read it: the
/// directory's name and the contents of its total- and free-pages files.
#[derive(Clone, Debug)]
pub struct PoolSource {
    pub dir_name: String,
    pub total_text: String,
    pub free_text: String,
}

/// Why the pool inventory could not be read.
#[derive(Clone, Copy, Debug, PartialEq, Eq, Structural)]
pub enum PoolError {
    /// A page-count file's trimmed contents were not a decimal numeral.
    BadCount,
    /// A subdirectory name did not embed a page-size numeral.
    BadDirName,
}

/// The value of a page-count file: its contents, trimmed, read as a
/// decimal numeral; nothing else is accepted.
pub open spec fn spec_count_value(s: Seq<char>) -> Option<u64> {
    let t = trimmed(s);
    if t.len() > 0 && all_dec_digits(t) && dec_value(t) <= u64::MAX {
        Some(dec_value(t) as u64)
    } else {
        None
    }
}

/// Parses a page-count file's contents.
pub fn parse_count(text: &str) -> (r: Option<u64>)
    ensures
        r == spec_count_value(text@),
{
    let t = trim(text);
    parse_u64_dec(t)
}

/// A size token without its `kB` suffix, when it carries one.
pub open spec fn strip_kb(t: Seq<char>) -> Seq<char> {
    if t.len() >= 2 && t[t.len() - 2] == 'k' && t[t.len() - 1] == 'B' {
        t.subrange(0, t.len() - 2)
    } else {
        t
    }
}

/// The value of a size token: a decimal numeral, optionally followed by
/// the unit suffix `kB`.
pub open spec fn spec_size_token_value(t: Seq<char>) -> Option<u64> {
    let d = strip_kb(t);
    if d.len() > 0 && all_dec_digits(d) && dec_value(d) <= u64::MAX {
        Some(dec_value(d) as u64)
    } else {
        None
    }
}

/// The page size embedded in a pool directory name: the segment between
/// the first separator and the next one (or the end of the name), read as
/// a size token.
pub open spec fn spec_dir_size(name: Seq<char>) -> Option<u64> {
    let p = first_idx(name, '-');
    if p >= name.len() {
        None
    } else {
        let rest = name.subrange(p as int + 1, name.len() as int);
        spec_size_token_value(rest.subrange(0, first_idx(rest, '-') as int))
    }
}

/// Decodes the page size from a pool subdirectory name such as one ending
/// in `-2048kB`.
pub fn size_from_dir_name(name: &str) -> (r: Option<u64>)
    ensures
        r == spec_dir_size(name@),
{
    let n = name.unicode_len();
    let p = find_char(name, '-');
    proof {
        lemma_first_idx_bounds(name@, '-');
    }
    if p >= n {
        return None;
    }
    let rest = name.substring_char(p + 1, n);
    let q = find_char(rest, '-');
    proof {
        lemma_first_idx_bounds(rest@, '-');
    }
    let seg = rest.substring_char(0, q);
    let m = seg.unicode_len();
    let base = if m >= 2 && seg.get_char(m - 2) == 'k' && seg.get_char(m - 1) == 'B' {
        seg.substring_char(0, m - 2)
    } else {
        seg
    };
    proof {
        assert(base@ == strip_kb(seg@));
    }
    parse_u64_dec(base)
}

/// The outcome of reading one pool subdirectory: the entry it describes,
/// or the first failure, the page-count files checked before the name.
pub open spec fn spec_pool_result(src: PoolSource) -> Result<PoolEntry, PoolError> {
    if spec_count_value(src.total_text@) is None || spec_count_value(src.free_text@) is None {
        Err(PoolError::BadCount)
    } else if spec_dir_size(src.dir_name@) is None {
        Err(PoolError::BadDirName)
    } else {
        Ok(
            PoolEntry {
                size_kb: spec_dir_size(src.dir_name@).unwrap(),
                free: spec_count_value(src.free_text@).unwrap(),
                total: spec_count_value(src.total_text@).unwrap(),
            },
        )
    }
}

/// Builds the pool entry one subdirectory describes.
pub fn pool_entry_from_source(src: &PoolSource) -> (r: Result<PoolEntry, PoolError>)
    ensures
        r == spec_pool_result(*src),
{
    let total = match parse_count(src.total_text.as_str()) {
        Some(v) => v,
        None => {
            return Err(PoolError::BadCount);
        },
    };
    let free = match parse_count(src.free_text.as_str()) {
        Some(v) => v,
        None => {
            return Err(PoolError::BadCount);
        },
    };
    let size_kb = match size_from_dir_name(src.dir_name.as_str()) {
        Some(v) => v,
        None => {
            return Err(PoolError::BadDirName);
        },
    };
    Ok(PoolEntry { size_kb, free, total })
}

/// Reads the whole pool inventory from per-directory sources, in the given
/// order. Every source yields exactly the entry it describes, or the first
/// malformed source fails the whole read: no partial list is observable.
pub fn pool_entries_from_sources(sources: &Vec<PoolSource>) -> (r: Result<
    Vec<PoolEntry>,
    PoolError,
>)
    ensures
        r is Ok <==> (forall|i: int|
            0 <= i < sources@.len() ==> (#[trigger] spec_pool_result(sources@[i])) is Ok),
        r matches Ok(out) ==> out@.len() == sources@.len() && (forall|i: int|
            0 <= i < sources@.len() ==> out@[i] == spec_pool_result(
                sources@[i],
            ).unwrap()),
        r matches Err(e) ==> exists|i: int|
            0 <= i < sources@.len() && spec_pool_result(#[trigger] sources@[i]) == Err::<
                PoolEntry,
                PoolError,
            >(e) && (forall|j: int| 0 <= j < i ==> spec_pool_result(#[trigger] sources@[j]) is Ok),
{
    let mut out: Vec<PoolEntry> = Vec::new();
    let mut i: usize = 0;
    let n = sources.len();
    while i < n
        invariant
            n == sources@.len(),
            0 <= i <= n,
            out@.len() == i,
            forall|j: int|
                0 <= j < i ==> (#[trigger] spec_pool_result(sources@[j])) is Ok && out@[j]
                    == spec_pool_result(sources@[j]).unwrap(),
        decreases n - i,
    {
        match pool_entry_from_source(&sources[i]) {
            Ok(e) => {
                out.push(e);
            },
            Err(err) => {
                proof {
                    assert(spec_pool_result(sources@[i as int]) == Err::<PoolEntry, PoolError>(
                        err,
                    ));
                }
                return Err(err);
            },
        }
        i = i + 1;
    }
    Ok(out)
}

} // verus!
