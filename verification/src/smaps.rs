//! Memory-map descriptor parser: turns the free-form per-mapping descriptor
//! text of a process into one typed record per region block.
//!
//! A descriptor is a sequence of region blocks. Each block opens with a
//! header line and is followed by field lines of the shape
//! `LABEL: value unit`. The two shapes are told apart structurally: a field
//! line always carries a trailing unit token (letters only, such as `kB`),
//! a header line does not. Unrecognized field lines are skipped, so kernel
//! versions that add fields parse unchanged; a field of interest that is
//! absent from its block, or whose numeral is malformed or too large for a
//! counter, is uniformly reported as zero rather than failing the parse.
//! Parsing is total: every text yields exactly one entry per header line,
//! in source order, and empty input yields no entries.

use vstd::prelude::*;
use crate::num::dec_value;
use crate::num::parse_u64_dec;
use crate::text::alpha_char;
use crate::text::digits_prefix;
use crate::text::digits_prefix_len;
use crate::text::is_alpha;
use crate::text::lemma_digits_prefix_len_bounds;
use crate::text::line_tokens;
use crate::text::spec_lines;
use crate::text::split_lines;
use crate::text::str_eq;
use crate::text::tokenize;

verus! {

/// One virtual memory mapping region of a process.
#[derive(Clone, Copy, Debug, PartialEq, Eq, Structural)]
pub struct MappingEntry {
    /// Page size backing this mapping, in KiB.
    pub kernel_page_size_kb: u64,
    /// Private huge-page-backed memory in this mapping, in KiB.
    pub private_hugetlb_kb: u64,
    /// Shared huge-page-backed memory in this mapping, in KiB.
    pub shared_hugetlb_kb: u64,
}

/// The entry a freshly opened region block starts from: every field of
/// interest is zero until its field line is seen.
pub open spec fn empty_entry() -> MappingEntry {
    MappingEntry { kernel_page_size_kb: 0, private_hugetlb_kb: 0, shared_hugetlb_kb: 0 }
}

/// A unit token: one or more letters, as in `kB`.
pub open spec fn is_unit_token(t: Seq<char>) -> bool {
    t.len() > 0 && forall|i: int| 0 <= i < t.len() ==> is_alpha(#[trigger] t[i])
}

/// A field line carries a label and a trailing unit token.
pub open spec fn is_field_line(l: Seq<char>) -> bool {
    line_tokens(l).len() >= 2 && is_unit_token(line_tokens(l).last())
}

/// A header line has tokens but no trailing unit token; it opens a new
/// region block. A line with no tokens is neither kind and is skipped.
pub open spec fn is_header_line(l: Seq<char>) -> bool {
    line_tokens(l).len() > 0 && !is_field_line(l)
}

/// The numeric value of a token: its leading digits, read as a decimal
/// numeral; zero when there are none or the numeral overflows a counter.
pub open spec fn token_value(t: Seq<char>) -> u64 {
    let d = t.subrange(0, digits_prefix_len(t) as int);
    if d.len() > 0 && dec_value(d) <= u64::MAX {
        dec_value(d) as u64
    } else {
        0
    }
}

/// The value a field line reports: the leading digits of its second token.
pub open spec fn spec_field_value(l: Seq<char>) -> u64 {
    token_value(line_tokens(l)[1])
}

/// Label of the kernel page size field.
pub open spec fn kernel_label() -> Seq<char> {
    "KernelPageSize:"@
}

/// Label of the private huge-TLB field.
pub open spec fn private_label() -> Seq<char> {
    "Private_Hugetlb:"@
}

/// Label of the shared huge-TLB field.
pub open spec fn shared_label() -> Seq<char> {
    "Shared_Hugetlb:"@
}

/// How one line changes the entry of the open block: a recognized field
/// line sets its field, any other line leaves the entry as it is.
pub open spec fn apply_field(e: MappingEntry, l: Seq<char>) -> MappingEntry {
    if !is_field_line(l) {
        e
    } else if line_tokens(l)[0] == kernel_label() {
        MappingEntry {
            kernel_page_size_kb: spec_field_value(l),
            private_hugetlb_kb: e.private_hugetlb_kb,
            shared_hugetlb_kb: e.shared_hugetlb_kb,
        }
    } else if line_tokens(l)[0] == private_label() {
        MappingEntry {
            kernel_page_size_kb: e.kernel_page_size_kb,
            private_hugetlb_kb: spec_field_value(l),
            shared_hugetlb_kb: e.shared_hugetlb_kb,
        }
    } else if line_tokens(l)[0] == shared_label() {
        MappingEntry {
            kernel_page_size_kb: e.kernel_page_size_kb,
            private_hugetlb_kb: e.private_hugetlb_kb,
            shared_hugetlb_kb: spec_field_value(l),
        }
    } else {
        e
    }
}

/// The entry of the open block, emitted when the block closes.
pub open spec fn flush(cur: Option<MappingEntry>) -> Seq<MappingEntry> {
    match cur {
        None => Seq::empty(),
        Some(e) => seq![e],
    }
}

/// One line applied to the open block, if one is open.
pub open spec fn apply_opt(cur: Option<MappingEntry>, l: Seq<char>) -> Option<MappingEntry> {
    match cur {
        None => None,
        Some(e) => Some(apply_field(e, l)),
    }
}

/// The two-state parse over a sequence of lines: outside any block until a
/// header line opens one, then field lines fill the open entry until the
/// next header line or the end of the text closes it.
pub open spec fn parse_lines(lines: Seq<Seq<char>>, cur: Option<MappingEntry>) -> Seq<MappingEntry>
    decreases lines.len(),
{
    if lines.len() == 0 {
        flush(cur)
    } else if is_header_line(lines[0]) {
        flush(cur) + parse_lines(lines.drop_first(), Some(empty_entry()))
    } else {
        parse_lines(lines.drop_first(), apply_opt(cur, lines[0]))
    }
}

/// The mapping entries a descriptor text encodes.
pub open spec fn spec_parse_smaps(text: Seq<char>) -> Seq<MappingEntry> {
    parse_lines(spec_lines(text), None)
}

/// Number of header lines in a sequence of lines.
pub open spec fn header_count(lines: Seq<Seq<char>>) -> nat
    decreases lines.len(),
{
    if lines.len() == 0 {
        0
    } else {
        (if is_header_line(lines[0]) {
            1nat
        } else {
            0nat
        }) + header_count(lines.drop_first())
    }
}

/// The parse yields exactly one entry per header line seen, plus the open
/// block, however many field lines stand between the headers.
pub proof fn lemma_parse_lines_len(lines: Seq<Seq<char>>, cur: Option<MappingEntry>)
    ensures
        parse_lines(lines, cur).len() == header_count(lines) + flush(cur).len(),
    decreases lines.len(),
{
    if lines.len() == 0 {
    } else if is_header_line(lines[0]) {
        lemma_parse_lines_len(lines.drop_first(), Some(empty_entry()));
    } else {
        lemma_parse_lines_len(lines.drop_first(), apply_opt(cur, lines[0]));
    }
}

/// Decides whether a token is a unit token.
fn is_unit_token_exec(t: &str) -> (b: bool)
    ensures
        b == is_unit_token(t@),
{
    let n = t.unicode_len();
    if n == 0 {
        return false;
    }
    let mut i: usize = 0;
    while i < n && alpha_char(t.get_char(i))
        invariant
            n == t@.len(),
            0 <= i <= n,
            forall|j: int| 0 <= j < i ==> is_alpha(#[trigger] t@[j]),
        decreases n - i,
    {
        i = i + 1;
    }
    i == n
}

/// Decides whether a line opens a new region block.
fn is_header_line_exec(line: &str) -> (b: bool)
    ensures
        b == is_header_line(line@),
{
    let tokens = tokenize(line);
    let ghost ts = line_tokens(line@);
    proof {
        assert(ts.len() == tokens@.len());
    }
    if tokens.len() == 0 {
        return false;
    }
    if tokens.len() >= 2 {
        let last = tokens[tokens.len() - 1].as_str();
        proof {
            assert(ts[ts.len() - 1] == tokens@.map_values(|t: String| t@)[tokens@.len() - 1]);
        }
        !is_unit_token_exec(last)
    } else {
        true
    }
}

/// The numeric value of a token.
fn token_value_exec(t: &str) -> (v: u64)
    ensures
        v == token_value(t@),
{
    let k = digits_prefix(t);
    proof {
        lemma_digits_prefix_len_bounds(t@);
    }
    let d = t.substring_char(0, k);
    match parse_u64_dec(d) {
        Some(v) => v,
        None => 0,
    }
}

/// Applies one line to the entry of the open block.
fn apply_field_exec(e: MappingEntry, line: &str) -> (r: MappingEntry)
    ensures
        r == apply_field(e, line@),
{
    let tokens = tokenize(line);
    let ghost ts = line_tokens(line@);
    proof {
        assert(ts.len() == tokens@.len());
    }
    if tokens.len() < 2 {
        return e;
    }
    proof {
        assert(ts[ts.len() - 1] == tokens@.map_values(|t: String| t@)[tokens@.len() - 1]);
        assert(ts[0] == tokens@.map_values(|t: String| t@)[0]);
        assert(ts[1] == tokens@.map_values(|t: String| t@)[1]);
    }
    if !is_unit_token_exec(tokens[tokens.len() - 1].as_str()) {
        return e;
    }
    let label = tokens[0].as_str();
    if str_eq(label, "KernelPageSize:") {
        let v = token_value_exec(tokens[1].as_str());
        MappingEntry {
            kernel_page_size_kb: v,
            private_hugetlb_kb: e.private_hugetlb_kb,
            shared_hugetlb_kb: e.shared_hugetlb_kb,
        }
    } else if str_eq(label, "Private_Hugetlb:") {
        let v = token_value_exec(tokens[1].as_str());
        MappingEntry {
            kernel_page_size_kb: e.kernel_page_size_kb,
            private_hugetlb_kb: v,
            shared_hugetlb_kb: e.shared_hugetlb_kb,
        }
    } else if str_eq(label, "Shared_Hugetlb:") {
        let v = token_value_exec(tokens[1].as_str());
        MappingEntry {
            kernel_page_size_kb: e.kernel_page_size_kb,
            private_hugetlb_kb: e.private_hugetlb_kb,
            shared_hugetlb_kb: v,
        }
    } else {
        e
    }
}

/// Parses a process's memory-map descriptor text into one entry per region
/// block, in source order.
pub fn parse_smap_entries(text: &str) -> (r: Vec<MappingEntry>)
    ensures
        r@ == spec_parse_smaps(text@),
        r@.len() == header_count(spec_lines(text@)),
{
    let lines = split_lines(text);
    let ghost lv = spec_lines(text@);
    let n = lines.len();
    let mut out: Vec<MappingEntry> = Vec::new();
    let mut cur: Option<MappingEntry> = None;
    let mut i: usize = 0;
    proof {
        assert(lv.subrange(0, n as int) =~= lv);
        assert(out@ + parse_lines(lv, None) =~= parse_lines(lv, None));
    }
    while i < n
        invariant
            lines@.map_values(|t: String| t@) == lv,
            n == lines@.len(),
            0 <= i <= n,
            parse_lines(lv, None) == out@ + parse_lines(lv.subrange(i as int, n as int), cur),
        decreases n - i,
    {
        let line = lines[i].as_str();
        proof {
            assert(lv[i as int] == lines@.map_values(|t: String| t@)[i as int]);
        }
        let ghost sub = lv.subrange(i as int, n as int);
        proof {
            assert(sub[0] == lv[i as int]);
            assert(sub.drop_first() =~= lv.subrange(i as int + 1, n as int));
        }
        if is_header_line_exec(line) {
            let ghost prev = out@;
            match cur {
                Some(e) => {
                    out.push(e);
                    proof {
                        assert(out@ =~= prev + flush(cur));
                    }
                },
                None => {
                    proof {
                        assert(out@ =~= prev + flush(cur));
                    }
                },
            }
            proof {
                assert(parse_lines(sub, cur) == flush(cur) + parse_lines(
                    sub.drop_first(),
                    Some(empty_entry()),
                ));
                assert(prev + (flush(cur) + parse_lines(sub.drop_first(), Some(empty_entry())))
                    =~= (prev + flush(cur)) + parse_lines(sub.drop_first(), Some(empty_entry())));
            }
            cur = Some(
                MappingEntry { kernel_page_size_kb: 0, private_hugetlb_kb: 0, shared_hugetlb_kb: 0 },
            );
        } else {
            match cur {
                Some(e) => {
                    let updated = apply_field_exec(e, line);
                    proof {
                        assert(parse_lines(sub, cur) == parse_lines(
                            sub.drop_first(),
                            apply_opt(cur, sub[0]),
                        ));
                    }
                    cur = Some(updated);
                },
                None => {
                    proof {
                        assert(parse_lines(sub, cur) == parse_lines(
                            sub.drop_first(),
                            apply_opt(cur, sub[0]),
                        ));
                    }
                },
            }
        }
        i = i + 1;
    }
    proof {
        assert(lv.subrange(n as int, n as int) =~= Seq::<Seq<char>>::empty());
    }
    let ghost prev = out@;
    match cur {
        Some(e) => {
            out.push(e);
            proof {
                assert(out@ =~= prev + flush(Some(e)));
            }
        },
        None => {
            proof {
                assert(out@ =~= prev + flush(None));
            }
        },
    }
    proof {
        lemma_parse_lines_len(lv, None);
    }
    out
}

/// A field line that reports the private huge-TLB field.
pub open spec fn sets_private(l: Seq<char>) -> bool {
    is_field_line(l) && line_tokens(l)[0] == private_label()
}

/// Field lines that never report the private huge-TLB field leave it as
/// the block opened: at zero.
proof fn lemma_fields_keep_private(fields: Seq<Seq<char>>, e: MappingEntry)
    requires
        forall|i: int| 0 <= i < fields.len() ==> !is_header_line(#[trigger] fields[i]),
        forall|i: int| 0 <= i < fields.len() ==> !sets_private(#[trigger] fields[i]),
    ensures
        parse_lines(fields, Some(e)).len() == 1,
        parse_lines(fields, Some(e))[0].private_hugetlb_kb == e.private_hugetlb_kb,
    decreases fields.len(),
{
    if fields.len() > 0 {
        lemma_fields_keep_private(fields.drop_first(), apply_field(e, fields[0]));
    }
}

/// Parsing distributes over a split of the line sequence at a block
/// boundary: what follows a header line parses independently of what came
/// before.
pub proof fn lemma_parse_append(l1: Seq<Seq<char>>, l2: Seq<Seq<char>>, cur: Option<MappingEntry>)
    requires
        l2.len() > 0 ==> is_header_line(l2[0]),
    ensures
        parse_lines(l1 + l2, cur) == parse_lines(l1, cur) + parse_lines(l2, None),
    decreases l1.len(),
{
    if l2.len() == 0 {
        assert(l1 + l2 =~= l1);
        assert(parse_lines(l2, None) =~= Seq::<MappingEntry>::empty());
        assert(parse_lines(l1, cur) + Seq::<MappingEntry>::empty() =~= parse_lines(l1, cur));
    } else if l1.len() == 0 {
        assert(l1 + l2 =~= l2);
        assert(parse_lines(l2, None) == flush(None) + parse_lines(
            l2.drop_first(),
            Some(empty_entry()),
        ));
        assert(flush(None) + parse_lines(l2.drop_first(), Some(empty_entry())) =~= parse_lines(
            l2.drop_first(),
            Some(empty_entry()),
        ));
        assert(parse_lines(l1, cur) == flush(cur));
        assert(parse_lines(l2, cur) == flush(cur) + parse_lines(
            l2.drop_first(),
            Some(empty_entry()),
        ));
    } else {
        assert((l1 + l2).drop_first() =~= l1.drop_first() + l2);
        assert((l1 + l2)[0] == l1[0]);
        if is_header_line(l1[0]) {
            lemma_parse_append(l1.drop_first(), l2, Some(empty_entry()));
            assert(flush(cur) + (parse_lines(l1.drop_first(), Some(empty_entry())) + parse_lines(
                l2,
                None,
            )) =~= (flush(cur) + parse_lines(l1.drop_first(), Some(empty_entry())))
                + parse_lines(l2, None));
        } else {
            lemma_parse_append(l1.drop_first(), l2, apply_opt(cur, l1[0]));
        }
    }
}

/// A region block that lacks the private huge-TLB field parses to exactly
/// one entry whose private huge-TLB count is zero, and the blocks that
/// follow parse unaffected.
pub proof fn lemma_missing_private_field(
    header: Seq<char>,
    fields: Seq<Seq<char>>,
    rest: Seq<Seq<char>>,
)
    requires
        is_header_line(header),
        forall|i: int| 0 <= i < fields.len() ==> !is_header_line(#[trigger] fields[i]),
        forall|i: int| 0 <= i < fields.len() ==> !sets_private(#[trigger] fields[i]),
        rest.len() > 0 ==> is_header_line(rest[0]),
    ensures
        parse_lines(seq![header] + fields + rest, None) == parse_lines(seq![header] + fields, None)
            + parse_lines(rest, None),
        parse_lines(seq![header] + fields, None).len() == 1,
        parse_lines(seq![header] + fields, None)[0].private_hugetlb_kb == 0,
{
    lemma_parse_append(seq![header] + fields, rest, None);
    let blk = seq![header] + fields;
    assert(blk[0] == header);
    assert(blk.drop_first() =~= fields);
    assert(parse_lines(blk, None) == flush(None) + parse_lines(fields, Some(empty_entry())));
    lemma_fields_keep_private(fields, empty_entry());
    assert(flush(None) + parse_lines(fields, Some(empty_entry())) =~= parse_lines(
        fields,
        Some(empty_entry()),
    ));
}

} // verus!
