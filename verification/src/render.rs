//! Report renderer: turns the pool inventory and the per-process reports
//! into the final two-section text. Rendering is a total formatting step
//! over already-validated data and never fails: an empty inventory renders
//! a banner with no size list, an empty process set renders only the
//! column header row.

use vstd::prelude::*;
use crate::num::dec_digits;
use crate::num::u64_to_dec;
use crate::pool::PoolEntry;
use crate::process::ProcessHugepageReport;
use crate::smaps::MappingEntry;

verus! {

/// `n` space characters.
pub open spec fn spaces(n: nat) -> Seq<char>
    decreases n,
{
    if n == 0 {
        Seq::empty()
    } else {
        spaces((n - 1) as nat).push(' ')
    }
}

/// `s`, space-padded on the right to width `w`; text wider than the
/// column is kept whole.
pub open spec fn padded(s: Seq<char>, w: nat) -> Seq<char> {
    if s.len() >= w {
        s
    } else {
        s + spaces((w - s.len()) as nat)
    }
}

/// Pads `s` on the right with spaces to width `w`.
pub fn pad_to(s: String, w: usize) -> (r: String)
    ensures
        r@ == padded(s@, w as nat),
{
    let ghost orig = s@;
    let mut r = s;
    let mut len = r.as_str().unicode_len();
    proof {
        assert(orig + spaces(0) =~= orig);
    }
    while len < w
        invariant
            len == r@.len(),
            orig.len() <= len,
            len == orig.len() || len <= w,
            r@ == orig + spaces((len - orig.len()) as nat),
        decreases w - len,
    {
        let ghost k = (len - orig.len()) as nat;
        r.append(" ");
        proof {
            reveal_strlit(" ");
            assert(spaces(k + 1) == spaces(k).push(' '));
            assert((orig + spaces(k)) + " "@ =~= orig + spaces(k).push(' '));
        }
        len = len + 1;
    }
    r
}

/// The human label of a pool page size: `2Mi` for 2048 KiB, `1Gi` for
/// 1048576 KiB, and for any other size the raw KiB value — a total
/// function, so an unfamiliar pool size is rendered, never an error.
pub open spec fn spec_size_label(size_kb: u64) -> Seq<char> {
    if size_kb == 2048 {
        "2Mi"@
    } else if size_kb == 1048576 {
        "1Gi"@
    } else {
        dec_digits(size_kb as nat)
    }
}

/// Renders the human label of a pool page size.
pub fn size_label(size_kb: u64) -> (r: String)
    ensures
        r@ == spec_size_label(size_kb),
{
    if size_kb == 2048 {
        "2Mi".to_owned()
    } else if size_kb == 1048576 {
        "1Gi".to_owned()
    } else {
        u64_to_dec(size_kb)
    }
}

/// One pool entry's summary: its size label, then `free/total`.
pub open spec fn spec_pool_summary(e: PoolEntry) -> Seq<char> {
    spec_size_label(e.size_kb) + " - "@ + dec_digits(e.free as nat) + "/"@ + dec_digits(
        e.total as nat,
    )
}

/// Renders one pool entry's summary.
pub fn pool_summary(e: &PoolEntry) -> (r: String)
    ensures
        r@ == spec_pool_summary(*e),
{
    let mut r = size_label(e.size_kb);
    r.append(" - ");
    r.append(u64_to_dec(e.free).as_str());
    r.append("/");
    r.append(u64_to_dec(e.total).as_str());
    proof {
        assert(r@ =~= spec_pool_summary(*e));
    }
    r
}

/// The comma-separated pool summary list, each entry preceded by the
/// `, ` separator that joins it to the summary line; empty when there is
/// no entry.
pub open spec fn spec_pool_list(s: Seq<PoolEntry>) -> Seq<char>
    decreases s.len(),
{
    if s.len() == 0 {
        Seq::empty()
    } else {
        ", "@ + spec_pool_summary(s[0]) + spec_pool_list(s.drop_first())
    }
}

/// The system section: one summary line holding the timestamp, uptime
/// phrase and user phrase the caller supplies, followed on the same line
/// by the comma-separated pool summaries; with no pool entry the line
/// carries no trailing size list.
pub open spec fn spec_system_str(
    time: Seq<char>,
    uptime: Seq<char>,
    user: Seq<char>,
    pools: Seq<PoolEntry>,
) -> Seq<char> {
    "top - "@ + time + " "@ + uptime + ", "@ + user + spec_pool_list(pools) + "\n"@
}

/// Renders the system section from the banner phrases and the pool
/// inventory.
pub fn construct_system_str(time: &str, uptime: &str, user: &str, sys: &Vec<PoolEntry>) -> (r:
    String)
    ensures
        r@ == spec_system_str(time@, uptime@, user@, sys@),
{
    let mut r = "top - ".to_owned();
    r.append(time);
    r.append(" ");
    r.append(uptime);
    r.append(", ");
    r.append(user);
    let n = sys.len();
    let mut i: usize = 0;
    proof {
        assert(sys@.subrange(0, n as int) =~= sys@);
        assert((r@ + spec_pool_list(sys@)) + "\n"@ =~= spec_system_str(
            time@,
            uptime@,
            user@,
            sys@,
        ));
    }
    while i < n
        invariant
            n == sys@.len(),
            0 <= i <= n,
            (r@ + spec_pool_list(sys@.subrange(i as int, n as int))) + "\n"@ == spec_system_str(
                time@,
                uptime@,
                user@,
                sys@,
            ),
        decreases n - i,
    {
        let item = pool_summary(&sys[i]);
        let ghost r0 = r@;
        let ghost sub = sys@.subrange(i as int, n as int);
        proof {
            assert(sub[0] == sys@[i as int]);
            assert(sub.drop_first() =~= sys@.subrange(i as int + 1, n as int));
        }
        r.append(", ");
        r.append(item.as_str());
        proof {
            assert(spec_pool_list(sub) == ", "@ + spec_pool_summary(sub[0]) + spec_pool_list(
                sub.drop_first(),
            ));
            assert((r@ + spec_pool_list(sys@.subrange(i as int + 1, n as int))) + "\n"@ =~= (r0
                + spec_pool_list(sub)) + "\n"@);
        }
        i = i + 1;
    }
    r.append("\n");
    proof {
        assert(spec_pool_list(sys@.subrange(n as int, n as int)) == Seq::<char>::empty());
        assert(r@ =~= spec_system_str(time@, uptime@, user@, sys@));
    }
    r
}

/// The fixed column header row.
pub open spec fn spec_header_row() -> Seq<char> {
    padded("PID"@, 8) + " "@ + padded("Private"@, 12) + " "@ + padded("Shared"@, 12) + " "@
        + padded("Process"@, 12) + "\n"@
}

/// One table row: the process identifier, the mapping's private and
/// shared huge-TLB counts, and the process name, each in its column.
pub open spec fn spec_row(pid: u32, name: Seq<char>, e: MappingEntry) -> Seq<char> {
    padded(dec_digits(pid as nat), 8) + " "@ + padded(dec_digits(e.private_hugetlb_kb as nat), 12)
        + " "@ + padded(dec_digits(e.shared_hugetlb_kb as nat), 12) + " "@ + padded(name, 12)
        + "\n"@
}

/// The rows of one process: one per mapping, each repeating the process
/// identifier and name, in mapping order.
pub open spec fn spec_rows(pid: u32, name: Seq<char>, entries: Seq<MappingEntry>) -> Seq<char>
    decreases entries.len(),
{
    if entries.len() == 0 {
        Seq::empty()
    } else {
        spec_row(pid, name, entries[0]) + spec_rows(pid, name, entries.drop_first())
    }
}

/// The rows of all processes, in the given order.
pub open spec fn spec_all_rows(procs: Seq<ProcessHugepageReport>) -> Seq<char>
    decreases procs.len(),
{
    if procs.len() == 0 {
        Seq::empty()
    } else {
        spec_rows(procs[0].pid, procs[0].name@, procs[0].entries@) + spec_all_rows(
            procs.drop_first(),
        )
    }
}

/// The process section: the header row, then every process's rows.
pub open spec fn spec_process_table(procs: Seq<ProcessHugepageReport>) -> Seq<char> {
    spec_header_row() + spec_all_rows(procs)
}

/// Renders the process section.
#[verifier::rlimit(60)]
pub fn format_process_str(processes: &Vec<ProcessHugepageReport>) -> (r: String)
    ensures
        r@ == spec_process_table(processes@),
{
    let mut r = pad_to("PID".to_owned(), 8);
    r.append(" ");
    r.append(pad_to("Private".to_owned(), 12).as_str());
    r.append(" ");
    r.append(pad_to("Shared".to_owned(), 12).as_str());
    r.append(" ");
    r.append(pad_to("Process".to_owned(), 12).as_str());
    r.append("\n");
    proof {
        assert(r@ =~= spec_header_row());
    }
    let n = processes.len();
    let mut i: usize = 0;
    proof {
        assert(processes@.subrange(0, n as int) =~= processes@);
        assert(r@ + spec_all_rows(processes@) =~= spec_process_table(processes@));
    }
    while i < n
        invariant
            n == processes@.len(),
            0 <= i <= n,
            r@ + spec_all_rows(processes@.subrange(i as int, n as int)) == spec_process_table(
                processes@,
            ),
        decreases n - i,
    {
        let ghost psub = processes@.subrange(i as int, n as int);
        proof {
            assert(psub[0] == processes@[i as int]);
            assert(psub.drop_first() =~= processes@.subrange(i as int + 1, n as int));
        }
        let m = processes[i].entries.len();
        let mut j: usize = 0;
        proof {
            let ghost p = processes@[i as int];
            assert(p.entries@.subrange(0, m as int) =~= p.entries@);
            assert(spec_all_rows(psub) == spec_rows(p.pid, p.name@, p.entries@) + spec_all_rows(
                psub.drop_first(),
            ));
            assert((r@ + spec_rows(p.pid, p.name@, p.entries@)) + spec_all_rows(
                processes@.subrange(i as int + 1, n as int),
            ) =~= r@ + spec_all_rows(psub));
        }
        while j < m
            invariant
                n == processes@.len(),
                0 <= i < n,
                m == processes@[i as int].entries@.len(),
                0 <= j <= m,
                (r@ + spec_rows(
                    processes@[i as int].pid,
                    processes@[i as int].name@,
                    processes@[i as int].entries@.subrange(j as int, m as int),
                )) + spec_all_rows(processes@.subrange(i as int + 1, n as int))
                    == spec_process_table(processes@),
            decreases m - j,
        {
            let ghost p = processes@[i as int];
            let ghost esub = p.entries@.subrange(j as int, m as int);
            proof {
                assert(esub[0] == p.entries@[j as int]);
                assert(esub.drop_first() =~= p.entries@.subrange(j as int + 1, m as int));
            }
            let ghost r0 = r@;
            let e = processes[i].entries[j];
            r.append(pad_to(u64_to_dec(processes[i].pid as u64), 8).as_str());
            r.append(" ");
            r.append(pad_to(u64_to_dec(e.private_hugetlb_kb), 12).as_str());
            r.append(" ");
            r.append(pad_to(u64_to_dec(e.shared_hugetlb_kb), 12).as_str());
            r.append(" ");
            r.append(pad_to(processes[i].name.clone(), 12).as_str());
            r.append("\n");
            proof {
                assert(r@ =~= r0 + spec_row(p.pid, p.name@, esub[0]));
                assert(spec_rows(p.pid, p.name@, esub) == spec_row(p.pid, p.name@, esub[0])
                    + spec_rows(p.pid, p.name@, esub.drop_first()));
                assert((r@ + spec_rows(
                    p.pid,
                    p.name@,
                    p.entries@.subrange(j as int + 1, m as int),
                )) + spec_all_rows(processes@.subrange(i as int + 1, n as int)) =~= (r0
                    + spec_rows(p.pid, p.name@, esub)) + spec_all_rows(
                    processes@.subrange(i as int + 1, n as int),
                ));
            }
            j = j + 1;
        }
        proof {
            let ghost p = processes@[i as int];
            assert(p.entries@.subrange(m as int, m as int)
                =~= Seq::<MappingEntry>::empty());
            assert(spec_rows(p.pid, p.name@, Seq::<MappingEntry>::empty())
                == Seq::<char>::empty());
            assert((r@ + Seq::<char>::empty()) + spec_all_rows(
                processes@.subrange(i as int + 1, n as int),
            ) =~= r@ + spec_all_rows(processes@.subrange(i as int + 1, n as int)));
        }
        i = i + 1;
    }
    proof {
        assert(processes@.subrange(n as int, n as int) =~= Seq::<ProcessHugepageReport>::empty());
        assert(spec_all_rows(Seq::<ProcessHugepageReport>::empty()) == Seq::<char>::empty());
        assert(r@ + Seq::<char>::empty() =~= r@);
    }
    r
}

/// The whole report's text.
pub open spec fn spec_report(
    time: Seq<char>,
    uptime: Seq<char>,
    user: Seq<char>,
    pools: Seq<PoolEntry>,
    procs: Seq<ProcessHugepageReport>,
) -> Seq<char> {
    spec_system_str(time, uptime, user, pools) + spec_process_table(procs)
}

/// Renders the whole report: the system section, then the process table.
pub fn construct_str(
    time: &str,
    uptime: &str,
    user: &str,
    sys: &Vec<PoolEntry>,
    processes: &Vec<ProcessHugepageReport>,
) -> (r: String)
    ensures
        r@ == spec_report(time@, uptime@, user@, sys@, processes@),
{
    let mut r = construct_system_str(time, uptime, user, sys);
    r.append(format_process_str(processes).as_str());
    r
}

} // verus!
