//! Huge-page filter and process aggregation: keeps the mappings that are
//! backed by huge pages and builds one report per process that has any,
//! attaching the identifier and display name the caller supplies.

use vstd::prelude::*;
use crate::num::all_dec_digits;
use crate::num::dec_value;
use crate::num::parse_u32_dec;
use crate::smaps::MappingEntry;
use crate::smaps::parse_smap_entries;
use crate::smaps::spec_parse_smaps;
use crate::text::find_char;
use crate::text::first_idx;
use crate::text::lemma_first_idx_bounds;
use crate::text::trim;
use crate::text::trimmed;

verus! {

/// The huge-page threshold in KiB: a mapping qualifies when its kernel
/// page size is at least this. The value sits just below 2048 KiB, the
/// smallest huge-page size in common use, rather than just above the base
/// page size; it is kept as a named constant so the choice stays visible
/// and in one place.
pub const HUGE_PAGE_THRESHOLD_KB: u64 = 2024;

/// A mapping backed by huge pages.
pub open spec fn qualifies(e: MappingEntry) -> bool {
    e.kernel_page_size_kb >= HUGE_PAGE_THRESHOLD_KB
}

/// The huge-page-backed mappings of `s`, in order.
pub open spec fn spec_filter_huge(s: Seq<MappingEntry>) -> Seq<MappingEntry> {
    s.filter(|e: MappingEntry| qualifies(e))
}

/// Keeps the mappings backed by huge pages, in their given order.
pub fn filter_huge_mappings(entries: Vec<MappingEntry>) -> (r: Vec<MappingEntry>)
    ensures
        r@ == spec_filter_huge(entries@),
{
    let n = entries.len();
    let mut r: Vec<MappingEntry> = Vec::new();
    let mut i: usize = 0;
    proof {
        reveal(Seq::filter);
        assert(entries@.subrange(0, 0) =~= Seq::<MappingEntry>::empty());
    }
    while i < n
        invariant
            n == entries@.len(),
            0 <= i <= n,
            r@ == spec_filter_huge(entries@.subrange(0, i as int)),
        decreases n - i,
    {
        let e = entries[i];
        proof {
            reveal(Seq::filter);
            let s1 = entries@.subrange(0, i as int + 1);
            assert(s1.drop_last() =~= entries@.subrange(0, i as int));
            assert(s1.last() == entries@[i as int]);
        }
        if e.kernel_page_size_kb >= HUGE_PAGE_THRESHOLD_KB {
            r.push(e);
            proof {
                assert(r@ =~= spec_filter_huge(entries@.subrange(0, i as int)).push(e));
            }
        }
        i = i + 1;
    }
    proof {
        assert(entries@.subrange(0, n as int) =~= entries@);
    }
    r
}

/// Every mapping the filter keeps is huge-page-backed.
pub proof fn lemma_filter_members(s: Seq<MappingEntry>)
    ensures
        forall|i: int|
            0 <= i < spec_filter_huge(s).len() ==> qualifies(#[trigger] spec_filter_huge(s)[i]),
    decreases s.len(),
{
    reveal(Seq::filter);
    if s.len() > 0 {
        lemma_filter_members(s.drop_last());
        let f = spec_filter_huge(s);
        let fd = spec_filter_huge(s.drop_last());
        assert forall|i: int| 0 <= i < f.len() implies qualifies(f[i]) by {
            if i < fd.len() {
                assert(f[i] == fd[i]);
            } else {
                assert(f[i] == s.last());
            }
        }
    }
}

/// Filtering a sequence of huge-page-backed mappings keeps all of them.
proof fn lemma_filter_all_huge(s: Seq<MappingEntry>)
    requires
        forall|i: int| 0 <= i < s.len() ==> qualifies(#[trigger] s[i]),
    ensures
        spec_filter_huge(s) == s,
    decreases s.len(),
{
    reveal(Seq::filter);
    if s.len() > 0 {
        lemma_filter_all_huge(s.drop_last());
        assert(s.last() == s[s.len() - 1]);
        assert(spec_filter_huge(s) =~= s.drop_last().push(s.last()));
        assert(s.drop_last().push(s.last()) =~= s);
    }
}

/// The huge-page filter is idempotent: filtering an already-filtered
/// sequence yields the same sequence as filtering once.
pub proof fn lemma_filter_huge_idempotent(s: Seq<MappingEntry>)
    ensures
        spec_filter_huge(spec_filter_huge(s)) == spec_filter_huge(s),
{
    lemma_filter_members(s);
    lemma_filter_all_huge(spec_filter_huge(s));
}

/// A sequence with no huge-page-backed mapping filters to nothing.
pub proof fn lemma_no_huge_no_report(s: Seq<MappingEntry>)
    requires
        forall|i: int| 0 <= i < s.len() ==> !qualifies(#[trigger] s[i]),
    ensures
        spec_filter_huge(s).len() == 0,
    decreases s.len(),
{
    reveal(Seq::filter);
    if s.len() > 0 {
        lemma_no_huge_no_report(s.drop_last());
        assert(s.last() == s[s.len() - 1]);
    }
}

/// One process's huge-page report: identifier, display name, and its
/// huge-page-backed mappings in discovery order.
#[derive(Clone, Debug)]
pub struct ProcessHugepageReport {
    pub pid: u32,
    pub name: String,
    pub entries: Vec<MappingEntry>,
}

/// A report is well-formed when it holds at least one mapping and every
/// one of them is huge-page-backed.
pub open spec fn report_wf(r: ProcessHugepageReport) -> bool {
    r.entries@.len() > 0 && forall|i: int|
        0 <= i < r.entries@.len() ==> qualifies(#[trigger] r.entries@[i])
}

/// Filters a process's mappings and builds its report. A process with no
/// huge-page-backed mapping yields no report at all.
pub fn aggregate_process(pid: u32, name: String, entries: Vec<MappingEntry>) -> (r: Option<
    ProcessHugepageReport,
>)
    ensures
        r is Some <==> spec_filter_huge(entries@).len() > 0,
        r matches Some(rep) ==> rep.pid == pid && rep.name@ == name@ && rep.entries@
            == spec_filter_huge(entries@) && report_wf(rep),
{
    let filtered = filter_huge_mappings(entries);
    if filtered.len() == 0 {
        None
    } else {
        proof {
            lemma_filter_members(entries@);
        }
        Some(ProcessHugepageReport { pid, name, entries: filtered })
    }
}

/// Reads a process identifier from a process-table entry name: decimal
/// digits that fit the identifier type, anything else is not a process
/// entry.
pub fn parse_pid(name: &str) -> (r: Option<u32>)
    ensures
        r is Some <==> (name@.len() > 0 && all_dec_digits(name@) && dec_value(name@) <= u32::MAX),
        r matches Some(v) ==> v == dec_value(name@),
{
    parse_u32_dec(name)
}

/// The display name in a process status descriptor: on its first line,
/// the text between the first separator and the next one (or the line's
/// end), trimmed; empty when the first line has no separator.
pub open spec fn spec_status_name(text: Seq<char>) -> Seq<char> {
    let line = text.subrange(0, first_idx(text, '\n') as int);
    let p = first_idx(line, ':');
    if p >= line.len() {
        Seq::empty()
    } else {
        let rest = line.subrange(p as int + 1, line.len() as int);
        trimmed(rest.subrange(0, first_idx(rest, ':') as int))
    }
}

/// Extracts the display name from a process status descriptor.
pub fn process_name_from_status(text: &str) -> (r: String)
    ensures
        r@ == spec_status_name(text@),
{
    let nl = find_char(text, '\n');
    proof {
        lemma_first_idx_bounds(text@, '\n');
    }
    let line = text.substring_char(0, nl);
    let p = find_char(line, ':');
    proof {
        lemma_first_idx_bounds(line@, ':');
    }
    let n = line.unicode_len();
    if p >= n {
        let r = String::new();
        proof {
            assert(r@ =~= spec_status_name(text@));
        }
        return r;
    }
    let rest = line.substring_char(p + 1, n);
    let q = find_char(rest, ':');
    proof {
        lemma_first_idx_bounds(rest@, ':');
    }
    let seg = rest.substring_char(0, q);
    trim(seg).to_owned()
}

/// The verified middle of a per-process read: from the raw status text
/// and descriptor text to the process's report, if it has any huge-page
/// mapping.
pub fn build_process_report(pid: u32, status_text: &str, smaps_text: &str) -> (r: Option<
    ProcessHugepageReport,
>)
    ensures
        r is Some <==> spec_filter_huge(spec_parse_smaps(smaps_text@)).len() > 0,
        r matches Some(rep) ==> rep.pid == pid && rep.name@ == spec_status_name(status_text@)
            && rep.entries@ == spec_filter_huge(spec_parse_smaps(smaps_text@)) && report_wf(rep),
{
    let name = process_name_from_status(status_text);
    let entries = parse_smap_entries(smaps_text);
    aggregate_process(pid, name, entries)
}

} // verus!
