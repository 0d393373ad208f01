//! Run summaries: what a freeze completed, skipped and errored, and
//! the plain-text progress and conclusion lines.  Colouring and
//! printing belong to the binary; everything here returns text.

use vstd::prelude::*;
use vstd::string::*;
use crate::chunks::BlockRange;
use crate::dims::Dim;
use crate::error::CollectError;
use crate::partitions::Partition;
use crate::schemas::{ColumnType, Table, U256Type};
use crate::textfmt::{commafy, hex_string, spec_decimal, spec_grouped, spec_hex, str_eq,
    u64_to_string};

verus! {

/// The result of a freeze: every partition lands in exactly one of
/// the three lists.
#[derive(Debug)]
pub struct FreezeSummary {
    /// Partitions whose output was written.
    pub completed: Vec<Partition>,
    /// Partitions whose output already existed.
    pub skipped: Vec<Partition>,
    /// Partitions that failed, with their error; a failure before any
    /// partition dispatched carries no partition.
    pub errored: Vec<(Option<Partition>, CollectError)>,
}

impl Default for FreezeSummary {
    /// An empty summary.
    fn default() -> (r: FreezeSummary)
        ensures
            r.completed@.len() == 0,
            r.skipped@.len() == 0,
            r.errored@.len() == 0,
    {
        FreezeSummary { completed: Vec::new(), skipped: Vec::new(), errored: Vec::new() }
    }
}

/// A value of a partitioned dimension, rendered for display.
pub trait ValueToString {
    /// The display text of the value.
    spec fn spec_value_string(&self) -> Seq<char>;

    /// The display text of the value.
    fn value_to_string(&self) -> (r: String)
        ensures
            r@ == self.spec_value_string(),
    ;
}

impl ValueToString for u64 {
    open spec fn spec_value_string(&self) -> Seq<char> {
        spec_decimal(*self as nat)
    }

    fn value_to_string(&self) -> (r: String) {
        u64_to_string(*self)
    }
}

impl ValueToString for Vec<u8> {
    open spec fn spec_value_string(&self) -> Seq<char> {
        spec_hex(self@)
    }

    fn value_to_string(&self) -> (r: String) {
        hex_string(self)
    }
}

/// What one dimension spans across a list of partitions.
#[derive(Debug, Clone)]
pub struct ChunkStats<T> {
    /// How many values the dimension holds in all.
    pub total_values: u64,
    /// The least value.
    pub min_value: Option<T>,
    /// The greatest value.
    pub max_value: Option<T>,
    /// How many values one partition holds.
    pub chunk_size: u64,
    /// How many partitions populate the dimension.
    pub n_chunks: u64,
}

impl<T: ValueToString> ChunkStats<T> {
    /// The least value, rendered.
    pub fn min_value_to_string(&self) -> (r: Option<String>)
        ensures
            match r {
                Some(s) => self.min_value matches Some(v) && s@ == v.spec_value_string(),
                None => self.min_value is None,
            },
    {
        match &self.min_value {
            Some(v) => Some(v.value_to_string()),
            None => None,
        }
    }

    /// The greatest value, rendered.
    pub fn max_value_to_string(&self) -> (r: Option<String>)
        ensures
            match r {
                Some(s) => self.max_value matches Some(v) && s@ == v.spec_value_string(),
                None => self.max_value is None,
            },
    {
        match &self.max_value {
            Some(v) => Some(v.value_to_string()),
            None => None,
        }
    }
}

/// A plain bullet line: `- <key>: <value>`.
pub open spec fn spec_bullet(key: Seq<char>, value: Seq<char>) -> Seq<char> {
    "- "@ + key + ": "@ + value
}

/// A plain bullet line.
pub fn bullet_line(key: &str, value: &str) -> (r: String)
    ensures
        r@ == spec_bullet(key@, value@),
{
    let mut s = String::from_str("- ");
    s.append(key);
    s.append(": ");
    s.append(value);
    s
}

/// An indented bullet line: `<indent spaces>- <key>: <value>`.
pub open spec fn spec_bullet_indent(key: Seq<char>, value: Seq<char>, indent: nat) -> Seq<char> {
    Seq::new(indent, |i: int| ' ') + spec_bullet(key, value)
}

/// An indented bullet line.
pub fn bullet_indent_line(key: &str, value: &str, indent: usize) -> (r: String)
    ensures
        r@ == spec_bullet_indent(key@, value@, indent as nat),
{
    let mut s = String::new();
    let mut i: usize = 0;
    proof {
        assert(s@ =~= Seq::new(0, |k: int| ' '));
    }
    while i < indent
        invariant
            i <= indent,
            s@ == Seq::new(i as nat, |k: int| ' '),
        decreases indent - i,
    {
        s.append(" ");
        proof {
            reveal_strlit(" ");
            assert(s@ =~= Seq::new((i + 1) as nat, |k: int| ' '));
        }
        i = i + 1;
    }
    s.append(bullet_line(key, value).as_str());
    s
}

/// A header with its underline: the header text, then one `─` per
/// character of it.
pub open spec fn spec_underline(n: nat) -> Seq<char> {
    Seq::new(n, |i: int| '─')
}

/// The two lines of a section header.
pub fn header_lines(header: &str) -> (r: Vec<String>)
    ensures
        r@.len() == 2,
        r@[0]@ == header@,
        r@[1]@ == spec_underline(header@.len()),
{
    let mut underline = String::new();
    let n = header.unicode_len();
    let mut i: usize = 0;
    proof {
        assert(underline@ =~= Seq::new(0, |k: int| '─'));
    }
    while i < n
        invariant
            i <= n,
            underline@ == Seq::new(i as nat, |k: int| '─'),
        decreases n - i,
    {
        underline.append("─");
        proof {
            reveal_strlit("─");
            assert(underline@ =~= Seq::new((i + 1) as nat, |k: int| '─'));
        }
        i = i + 1;
    }
    let mut r: Vec<String> = Vec::new();
    r.push(header.to_owned());
    r.push(underline);
    r
}

/// `s` padded on the left with spaces to `width` characters; `s`
/// itself when it is already that wide.
pub open spec fn spec_pad_left(s: Seq<char>, width: nat) -> Seq<char> {
    if s.len() >= width {
        s
    } else {
        Seq::new((width - s.len()) as nat, |i: int| ' ') + s
    }
}

/// Pads a string on the left with spaces to the given width.
pub fn pad_left(s: &str, width: usize) -> (r: String)
    ensures
        r@ == spec_pad_left(s@, width as nat),
{
    let n = s.unicode_len();
    if n >= width {
        return s.to_owned();
    }
    let mut r = String::new();
    let mut i: usize = 0;
    proof {
        assert(r@ =~= Seq::new(0, |k: int| ' '));
    }
    while i < width - n
        invariant
            n == s@.len(),
            n < width,
            i <= width - n,
            r@ == Seq::new(i as nat, |k: int| ' '),
        decreases width - n - i,
    {
        r.append(" ");
        proof {
            reveal_strlit(" ");
            assert(r@ =~= Seq::new((i + 1) as nat, |k: int| ' '));
        }
        i = i + 1;
    }
    r.append(s);
    r
}

/// The whole percentage `100 * part / total`, rendered as `<n>.0` as
/// the conclusion prints it.
pub open spec fn spec_percent(part: nat, total: nat) -> Seq<char>
    recommends
        total > 0,
{
    spec_grouped(spec_decimal(100 * part / total)) + ".0"@
}

/// Renders the whole percentage `100 * part / total` as `<n>.0`.
pub fn percent_str(part: u64, total: u64) -> (r: String)
    requires
        total > 0,
        part <= total,
    ensures
        r@ == spec_percent(part as nat, total as nat),
{
    let p128: u128 = 100u128 * part as u128 / total as u128;
    proof {
        assert(100 * part as int / total as int <= 100) by (nonlinear_arith)
            requires
                0 < total as int,
                0 <= part as int <= total as int,
        ;
        assert(p128 as int == 100 * (part as nat) / (total as nat));
    }
    let p: u64 = p128 as u64;
    let mut s = commafy(p);
    s.append(".0");
    s
}


/// How many blocks a range list holds.
pub open spec fn spec_ranges_total(rs: Seq<BlockRange>) -> int
    decreases rs.len(),
{
    if rs.len() == 0 {
        0
    } else {
        spec_ranges_total(rs.drop_last()) + rs.last().n_blocks()
    }
}

/// The least start of a range list.
pub open spec fn spec_ranges_min(rs: Seq<BlockRange>) -> Option<u64>
    decreases rs.len(),
{
    if rs.len() == 0 {
        Option::None
    } else {
        match spec_ranges_min(rs.drop_last()) {
            Option::None => Option::Some(rs.last().start),
            Option::Some(m) => Option::Some(if m <= rs.last().start { m } else { rs.last().start }),
        }
    }
}

/// The greatest end of a range list.
pub open spec fn spec_ranges_max(rs: Seq<BlockRange>) -> Option<u64>
    decreases rs.len(),
{
    if rs.len() == 0 {
        Option::None
    } else {
        match spec_ranges_max(rs.drop_last()) {
            Option::None => Option::Some(rs.last().end),
            Option::Some(m) => Option::Some(if m >= rs.last().end { m } else { rs.last().end }),
        }
    }
}

/// The block ranges of a partition, or none.
pub open spec fn spec_part_ranges(p: Partition) -> Seq<BlockRange> {
    match p.block_numbers {
        Option::None => Seq::empty(),
        Option::Some(rs) => rs@,
    }
}

/// All block ranges of a partition list, in order.
pub open spec fn spec_all_ranges(ps: Seq<Partition>) -> Seq<BlockRange>
    decreases ps.len(),
{
    if ps.len() == 0 {
        Seq::empty()
    } else {
        spec_all_ranges(ps.drop_last()) + spec_part_ranges(ps.last())
    }
}

/// How many partitions populate the block dimension.
pub open spec fn spec_block_chunk_count(ps: Seq<Partition>) -> int
    decreases ps.len(),
{
    if ps.len() == 0 {
        0
    } else {
        spec_block_chunk_count(ps.drop_last()) + (
        if ps.last().block_numbers is Some {
            1int
        } else {
            0int
        })
    }
}

proof fn lemma_ranges_total_concat(a: Seq<BlockRange>, b: Seq<BlockRange>)
    ensures
        spec_ranges_total(a + b) == spec_ranges_total(a) + spec_ranges_total(b),
    decreases b.len(),
{
    if b.len() == 0 {
        assert(a + b =~= a);
    } else {
        lemma_ranges_total_concat(a, b.drop_last());
        assert((a + b).drop_last() =~= a + b.drop_last());
        assert((a + b).last() == b.last());
    }
}

proof fn lemma_ranges_min_concat(a: Seq<BlockRange>, b: Seq<BlockRange>)
    ensures
        spec_ranges_min(a + b) == (match (spec_ranges_min(a), spec_ranges_min(b)) {
            (Option::None, m) => m,
            (m, Option::None) => m,
            (Option::Some(x), Option::Some(y)) => Option::Some(if x <= y { x } else { y }),
        }),
    decreases b.len(),
{
    if b.len() == 0 {
        assert(a + b =~= a);
    } else {
        lemma_ranges_min_concat(a, b.drop_last());
        assert((a + b).drop_last() =~= a + b.drop_last());
        assert((a + b).last() == b.last());
    }
}

proof fn lemma_ranges_max_concat(a: Seq<BlockRange>, b: Seq<BlockRange>)
    ensures
        spec_ranges_max(a + b) == (match (spec_ranges_max(a), spec_ranges_max(b)) {
            (Option::None, m) => m,
            (m, Option::None) => m,
            (Option::Some(x), Option::Some(y)) => Option::Some(if x >= y { x } else { y }),
        }),
    decreases b.len(),
{
    if b.len() == 0 {
        assert(a + b =~= a);
    } else {
        lemma_ranges_max_concat(a, b.drop_last());
        assert((a + b).drop_last() =~= a + b.drop_last());
        assert((a + b).last() == b.last());
    }
}

proof fn lemma_all_ranges_nonneg(rs: Seq<BlockRange>)
    requires
        forall|i: int| 0 <= i < rs.len() ==> (#[trigger] rs[i]).wf(),
    ensures
        spec_ranges_total(rs) >= 0,
    decreases rs.len(),
{
    if rs.len() > 0 {
        assert(forall|i: int|
            0 <= i < rs.drop_last().len() ==> (#[trigger] rs.drop_last()[i]).wf());
        lemma_all_ranges_nonneg(rs.drop_last());
        assert(rs.last().wf());
    }
}

proof fn lemma_all_ranges_wf(ps: Seq<Partition>)
    requires
        forall|i: int| 0 <= i < ps.len() ==> (#[trigger] ps[i]).wf(),
    ensures
        forall|i: int|
            0 <= i < spec_all_ranges(ps).len() ==> (#[trigger] spec_all_ranges(ps)[i]).wf(),
    decreases ps.len(),
{
    if ps.len() > 0 {
        assert(forall|i: int|
            0 <= i < ps.drop_last().len() ==> (#[trigger] ps.drop_last()[i]).wf());
        lemma_all_ranges_wf(ps.drop_last());
        assert(ps.last().wf());
        assert forall|i: int| 0 <= i < spec_all_ranges(ps).len() implies (
        #[trigger] spec_all_ranges(ps)[i]).wf() by {
            if i < spec_all_ranges(ps.drop_last()).len() {
                assert(spec_all_ranges(ps)[i] == spec_all_ranges(ps.drop_last())[i]);
            } else {
                let k = i - spec_all_ranges(ps.drop_last()).len();
                assert(spec_all_ranges(ps)[i] == spec_part_ranges(ps.last())[k]);
                match ps.last().block_numbers {
                    Option::None => {},
                    Option::Some(rv) => {
                        assert(rv@[k].wf());
                    },
                }
            }
        }
    }
}

proof fn lemma_count_nonneg(ps: Seq<Partition>)
    ensures
        spec_block_chunk_count(ps) >= 0,
    decreases ps.len(),
{
    if ps.len() > 0 {
        lemma_count_nonneg(ps.drop_last());
    }
}

proof fn lemma_stats_prefix(ps: Seq<Partition>, i: int)
    requires
        0 <= i <= ps.len(),
        forall|k: int| 0 <= k < ps.len() ==> (#[trigger] ps[k]).wf(),
    ensures
        spec_ranges_total(spec_all_ranges(ps.take(i))) <= spec_ranges_total(spec_all_ranges(ps)),
        spec_block_chunk_count(ps.take(i)) <= spec_block_chunk_count(ps),
    decreases ps.len() - i,
{
    if i == ps.len() {
        assert(ps.take(i) =~= ps);
    } else {
        lemma_stats_prefix(ps, i + 1);
        assert(ps.take(i + 1).drop_last() =~= ps.take(i));
        assert(ps.take(i + 1).last() == ps[i]);
        lemma_ranges_total_concat(spec_all_ranges(ps.take(i)), spec_part_ranges(ps[i]));
        assert(ps[i].wf());
        assert(forall|k: int|
            0 <= k < spec_part_ranges(ps[i]).len() ==> (#[trigger] spec_part_ranges(ps[i])[k]).wf());
        lemma_all_ranges_nonneg(spec_part_ranges(ps[i]));
        assert(spec_all_ranges(ps.take(i + 1)) =~= spec_all_ranges(ps.take(i)) + spec_part_ranges(
            ps[i],
        ));
    }
}

proof fn lemma_ranges_suffix_bound(rs: Seq<BlockRange>, j: int)
    requires
        0 <= j < rs.len(),
        forall|i: int| 0 <= i < rs.len() ==> (#[trigger] rs[i]).wf(),
    ensures
        spec_ranges_total(rs.take(j)) + rs[j].n_blocks() <= spec_ranges_total(rs),
    decreases rs.len() - j,
{
    if j == rs.len() - 1 {
        assert(rs.take(rs.len() - 1) =~= rs.drop_last());
        assert(rs.take(rs.len() as int) =~= rs);
    } else {
        lemma_ranges_suffix_bound(rs, j + 1);
        assert(rs.take(j + 1).drop_last() =~= rs.take(j));
        assert(rs.take(j + 1).last() == rs[j]);
        assert(rs[j + 1].wf());
    }
}


/// How many blocks the first partition that populates the block
/// dimension holds.
pub open spec fn spec_first_block_size(ps: Seq<Partition>) -> int
    decreases ps.len(),
{
    if ps.len() == 0 {
        0
    } else {
        match ps[0].block_numbers {
            Option::Some(rs) => spec_ranges_total(rs@),
            Option::None => spec_first_block_size(ps.drop_first()),
        }
    }
}

proof fn lemma_block_count_zero_none(ps: Seq<Partition>, i: int)
    requires
        0 <= i <= ps.len(),
        spec_block_chunk_count(ps.take(i)) == 0,
    ensures
        forall|m: int| 0 <= m < i ==> (#[trigger] ps[m]).block_numbers is None,
    decreases i,
{
    if i > 0 {
        assert(ps.take(i).drop_last() =~= ps.take(i - 1));
        assert(ps.take(i).last() == ps[i - 1]);
        lemma_count_nonneg(ps.take(i - 1));
        lemma_block_count_zero_none(ps, i - 1);
    }
}

proof fn lemma_first_block_size_skip(ps: Seq<Partition>, i: int)
    requires
        0 <= i <= ps.len(),
        forall|m: int| 0 <= m < i ==> (#[trigger] ps[m]).block_numbers is None,
    ensures
        spec_first_block_size(ps) == spec_first_block_size(ps.skip(i)),
    decreases i,
{
    if i > 0 {
        lemma_first_block_size_skip(ps, i - 1);
        let t = ps.skip(i - 1);
        assert(t[0] == ps[i - 1]);
        assert(t.drop_first() =~= ps.skip(i));
    } else {
        assert(ps.skip(0) =~= ps);
    }
}

/// The block-dimension summary of a partition list, when some
/// partition populates blocks.  The chunk size is the block count of
/// the first such partition.
pub fn block_stats(chunks: &Vec<Partition>) -> (r: Option<ChunkStats<u64>>)
    requires
        forall|i: int| 0 <= i < chunks@.len() ==> (#[trigger] chunks@[i]).wf(),
        spec_ranges_total(spec_all_ranges(chunks@)) <= u64::MAX,
        spec_block_chunk_count(chunks@) <= u64::MAX,
    ensures
        match r {
            Some(st) => {
                &&& spec_block_chunk_count(chunks@) > 0
                &&& st.total_values as int == spec_ranges_total(spec_all_ranges(chunks@))
                &&& st.min_value == spec_ranges_min(spec_all_ranges(chunks@))
                &&& st.max_value == spec_ranges_max(spec_all_ranges(chunks@))
                &&& st.chunk_size as int == spec_first_block_size(chunks@)
                &&& st.n_chunks as int == spec_block_chunk_count(chunks@)
            },
            None => spec_block_chunk_count(chunks@) == 0,
        },
{
    let mut total: u64 = 0;
    let mut mn: Option<u64> = None;
    let mut mx: Option<u64> = None;
    let mut n_chunks: u64 = 0;
    let mut chunk_size: u64 = 0;
    let mut i: usize = 0;
    proof {
        assert(spec_all_ranges(chunks@.take(0)) =~= Seq::<BlockRange>::empty());
        assert(chunks@.take(0) =~= Seq::<Partition>::empty());
    }
    while i < chunks.len()
        invariant
            i <= chunks@.len(),
            forall|k: int| 0 <= k < chunks@.len() ==> (#[trigger] chunks@[k]).wf(),
            spec_ranges_total(spec_all_ranges(chunks@)) <= u64::MAX,
            spec_block_chunk_count(chunks@) <= u64::MAX,
            total as int == spec_ranges_total(spec_all_ranges(chunks@.take(i as int))),
            mn == spec_ranges_min(spec_all_ranges(chunks@.take(i as int))),
            mx == spec_ranges_max(spec_all_ranges(chunks@.take(i as int))),
            n_chunks as int == spec_block_chunk_count(chunks@.take(i as int)),
            n_chunks > 0 ==> chunk_size as int == spec_first_block_size(chunks@),
        decreases chunks@.len() - i,
    {
        let ghost pre = spec_all_ranges(chunks@.take(i as int));
        match &chunks[i].block_numbers {
            Option::None => {
                proof {
                    assert(chunks@.take(i as int + 1).drop_last() =~= chunks@.take(i as int));
                    assert(chunks@.take(i as int + 1).last() == chunks@[i as int]);
                    assert(spec_part_ranges(chunks@[i as int]) =~= Seq::<BlockRange>::empty());
                    assert(pre + spec_part_ranges(chunks@[i as int]) =~= pre);
                    assert(spec_all_ranges(chunks@.take(i as int + 1)) =~= pre);
                }
            },
            Option::Some(ranges) => {
                let mut j: usize = 0;
                let mut part_total: u64 = 0;
                proof {
                    assert(pre + ranges@.take(0) =~= pre);
                    assert(spec_ranges_total(ranges@.take(0)) == 0);
                }
                while j < ranges.len()
                    invariant
                        j <= ranges@.len(),
                        chunks@[i as int].block_numbers matches Some(rv) && rv@ == ranges@,
                        i < chunks@.len(),
                        forall|k: int| 0 <= k < chunks@.len() ==> (#[trigger] chunks@[k]).wf(),
                        forall|k: int| 0 <= k < ranges@.len() ==> (#[trigger] ranges@[k]).wf(),
                        spec_ranges_total(spec_all_ranges(chunks@)) <= u64::MAX,
                        pre == spec_all_ranges(chunks@.take(i as int)),
                        total as int == spec_ranges_total(pre + ranges@.take(j as int)),
                        part_total as int == spec_ranges_total(ranges@.take(j as int)),
                        mn == spec_ranges_min(pre + ranges@.take(j as int)),
                        mx == spec_ranges_max(pre + ranges@.take(j as int)),
                    decreases ranges@.len() - j,
                {
                    let range = ranges[j];
                    proof {
                        assert(range.wf());
                        assert(chunks@.take(i as int).len() <= chunks@.len());
                        assert(forall|k: int|
                            0 <= k < chunks@.take(i as int).len() ==> (#[trigger] chunks@.take(
                                i as int,
                            )[k]).wf());
                        lemma_all_ranges_wf(chunks@.take(i as int));
                        lemma_ranges_suffix_bound(ranges@, j as int);
                        lemma_ranges_total_concat(pre, ranges@.take(j as int));
                        lemma_ranges_total_concat(pre, ranges@);
                        lemma_all_ranges_nonneg(pre);
                        lemma_all_ranges_nonneg(ranges@.take(j as int));
                        assert(chunks@.take(i as int + 1).drop_last() =~= chunks@.take(i as int));
                        assert(chunks@.take(i as int + 1).last() == chunks@[i as int]);
                        assert(spec_all_ranges(chunks@.take(i as int + 1)) =~= pre + ranges@);
                        lemma_stats_prefix(chunks@, i as int + 1);
                        assert(spec_ranges_total(pre + ranges@) <= u64::MAX);
                    }
                    let width: u128 = (range.end - range.start) as u128 + 1;
                    proof {
                        assert(total + width <= u64::MAX);
                    }
                    total = total + width as u64;
                    part_total = part_total + width as u64;
                    mn = match mn {
                        None => Some(range.start),
                        Some(m) => Some(if m <= range.start { m } else { range.start }),
                    };
                    mx = match mx {
                        None => Some(range.end),
                        Some(m) => Some(if m >= range.end { m } else { range.end }),
                    };
                    proof {
                        assert(ranges@.take(j as int + 1).drop_last() =~= ranges@.take(j as int));
                        assert(ranges@.take(j as int + 1).last() == ranges@[j as int]);
                        lemma_ranges_total_concat(pre, ranges@.take(j as int + 1));
                        lemma_ranges_min_concat(pre, ranges@.take(j as int + 1));
                        lemma_ranges_min_concat(pre, ranges@.take(j as int));
                        lemma_ranges_max_concat(pre, ranges@.take(j as int + 1));
                        lemma_ranges_max_concat(pre, ranges@.take(j as int));
                    }
                    j = j + 1;
                }
                if n_chunks == 0 {
                    chunk_size = part_total;
                    proof {
                        lemma_block_count_zero_none(chunks@, i as int);
                        lemma_first_block_size_skip(chunks@, i as int);
                        assert(chunks@ =~= chunks@.take(i as int) + chunks@.skip(i as int));
                        assert(chunks@.skip(i as int)[0] == chunks@[i as int]);
                        assert(ranges@.take(ranges@.len() as int) =~= ranges@);
                        assert(spec_first_block_size(chunks@.skip(i as int)) == spec_ranges_total(
                            ranges@,
                        ));
                    }
                }
                proof {
                    assert(chunks@.take(i as int).push(chunks@[i as int]) =~= chunks@.take(
                        i as int + 1,
                    ));
                    assert(chunks@.take(i as int + 1).drop_last() =~= chunks@.take(i as int));
                    lemma_count_nonneg(chunks@.take(i as int));
                    lemma_stats_prefix(chunks@, i as int + 1);
                    assert(spec_block_chunk_count(chunks@.take(i as int + 1)) <= u64::MAX);
                    assert(ranges@.take(ranges@.len() as int) =~= ranges@);
                    assert(spec_all_ranges(chunks@.take(i as int + 1)) =~= pre + ranges@);
                }
                n_chunks = n_chunks + 1;
            },
        }
        i = i + 1;
    }
    proof {
        assert(chunks@.take(chunks@.len() as int) =~= chunks@);
    }
    if n_chunks == 0 {
        None
    } else {
        Some(ChunkStats { total_values: total, min_value: mn, max_value: mx, chunk_size, n_chunks })
    }
}


/// Lexicographic order on byte strings: a prefix precedes its
/// extensions.
pub open spec fn lex_le(a: Seq<u8>, b: Seq<u8>) -> bool
    decreases a.len(),
{
    if a.len() == 0 {
        true
    } else if b.len() == 0 {
        false
    } else if a[0] < b[0] {
        true
    } else if a[0] > b[0] {
        false
    } else {
        lex_le(a.drop_first(), b.drop_first())
    }
}

proof fn lemma_lex_le_skip(a: Seq<u8>, b: Seq<u8>, i: int)
    requires
        0 <= i <= a.len(),
        i <= b.len(),
        forall|k: int| 0 <= k < i ==> a[k] == b[k],
    ensures
        lex_le(a, b) == lex_le(a.skip(i), b.skip(i)),
    decreases i,
{
    if i > 0 {
        lemma_lex_le_skip(a, b, i - 1);
        let sa = a.skip(i - 1);
        let sb = b.skip(i - 1);
        assert(sa[0] == a[i - 1] && sb[0] == b[i - 1]);
        if sa.len() > 0 && sb.len() > 0 && sa[0] == sb[0] {
            assert(sa.drop_first() =~= a.skip(i));
            assert(sb.drop_first() =~= b.skip(i));
        } else {
            assert(sa.len() > 0);
        }
    } else {
        assert(a.skip(0) =~= a);
        assert(b.skip(0) =~= b);
    }
}

/// Compares two byte strings lexicographically.
pub fn bytes_le(a: &Vec<u8>, b: &Vec<u8>) -> (r: bool)
    ensures
        r == lex_le(a@, b@),
{
    let n: usize = if a.len() <= b.len() {
        a.len()
    } else {
        b.len()
    };
    let mut i: usize = 0;
    while i < n
        invariant
            i <= n,
            n == if a@.len() <= b@.len() {
                a@.len() as int
            } else {
                b@.len() as int
            },
            forall|k: int| 0 <= k < i ==> a@[k] == b@[k],
        decreases n - i,
    {
        if a[i] < b[i] {
            proof {
                lemma_lex_le_skip(a@, b@, i as int);
                assert(a@.skip(i as int)[0] < b@.skip(i as int)[0]);
            }
            return true;
        }
        if a[i] > b[i] {
            proof {
                lemma_lex_le_skip(a@, b@, i as int);
            }
            return false;
        }
        i = i + 1;
    }
    proof {
        lemma_lex_le_skip(a@, b@, n as int);
    }
    a.len() <= b.len()
}

/// The least byte string, lexicographically.
pub open spec fn spec_vals_min(vs: Seq<Seq<u8>>) -> Option<Seq<u8>>
    decreases vs.len(),
{
    if vs.len() == 0 {
        Option::None
    } else {
        match spec_vals_min(vs.drop_last()) {
            Option::None => Option::Some(vs.last()),
            Option::Some(m) => Option::Some(
                if lex_le(m, vs.last()) {
                    m
                } else {
                    vs.last()
                },
            ),
        }
    }
}

/// The greatest byte string, lexicographically.
pub open spec fn spec_vals_max(vs: Seq<Seq<u8>>) -> Option<Seq<u8>>
    decreases vs.len(),
{
    if vs.len() == 0 {
        Option::None
    } else {
        match spec_vals_max(vs.drop_last()) {
            Option::None => Option::Some(vs.last()),
            Option::Some(m) => Option::Some(
                if lex_le(vs.last(), m) {
                    m
                } else {
                    vs.last()
                },
            ),
        }
    }
}

/// The values a partition holds for one value dimension.
pub open spec fn spec_dim_values(p: Partition, d: Dim) -> Option<Vec<Vec<u8>>> {
    match d {
        Dim::BlockNumber => Option::None,
        Dim::TransactionHash => p.transactions,
        Dim::CallData => p.call_datas,
        Dim::Address => p.addresses,
        Dim::Contract => p.contracts,
        Dim::ToAddress => p.to_addresses,
        Dim::Slot => p.slots,
        Dim::Topic0 => p.topic0s,
        Dim::Topic1 => p.topic1s,
        Dim::Topic2 => p.topic2s,
        Dim::Topic3 => p.topic3s,
    }
}

/// The views of every value a partition list holds for one value
/// dimension, in order.
pub open spec fn spec_all_values(ps: Seq<Partition>, d: Dim) -> Seq<Seq<u8>>
    decreases ps.len(),
{
    if ps.len() == 0 {
        Seq::empty()
    } else {
        spec_all_values(ps.drop_last(), d) + (match spec_dim_values(ps.last(), d) {
            Option::None => Seq::<Seq<u8>>::empty(),
            Option::Some(vs) => crate::datasets::balance_diffs::bytes_views(vs@),
        })
    }
}

/// How many partitions populate one value dimension.
pub open spec fn spec_value_chunk_count(ps: Seq<Partition>, d: Dim) -> int
    decreases ps.len(),
{
    if ps.len() == 0 {
        0
    } else {
        spec_value_chunk_count(ps.drop_last(), d) + (
        if spec_dim_values(ps.last(), d) is Some {
            1int
        } else {
            0int
        })
    }
}


proof fn lemma_lex_total(a: Seq<u8>, b: Seq<u8>)
    ensures
        lex_le(a, b) || lex_le(b, a),
    decreases a.len(),
{
    if a.len() > 0 && b.len() > 0 && a[0] == b[0] {
        lemma_lex_total(a.drop_first(), b.drop_first());
    }
}

proof fn lemma_lex_trans(a: Seq<u8>, b: Seq<u8>, c: Seq<u8>)
    requires
        lex_le(a, b),
        lex_le(b, c),
    ensures
        lex_le(a, c),
    decreases a.len(),
{
    if a.len() > 0 {
        if a[0] == b[0] && b[0] == c[0] {
            lemma_lex_trans(a.drop_first(), b.drop_first(), c.drop_first());
        }
    }
}

proof fn lemma_lex_facts(x: Seq<u8>, y: Seq<u8>, z: Seq<u8>)
    ensures
        lex_le(x, y) || lex_le(y, x),
        lex_le(x, z) || lex_le(z, x),
        lex_le(y, z) || lex_le(z, y),
        lex_le(x, y) && lex_le(y, z) ==> lex_le(x, z),
        lex_le(x, z) && lex_le(z, y) ==> lex_le(x, y),
        lex_le(y, x) && lex_le(x, z) ==> lex_le(y, z),
        lex_le(y, z) && lex_le(z, x) ==> lex_le(y, x),
        lex_le(z, x) && lex_le(x, y) ==> lex_le(z, y),
        lex_le(z, y) && lex_le(y, x) ==> lex_le(z, x),
{
    lemma_lex_total(x, y);
    lemma_lex_total(x, z);
    lemma_lex_total(y, z);
    if lex_le(x, y) && lex_le(y, z) {
        lemma_lex_trans(x, y, z);
    }
    if lex_le(x, z) && lex_le(z, y) {
        lemma_lex_trans(x, z, y);
    }
    if lex_le(y, x) && lex_le(x, z) {
        lemma_lex_trans(y, x, z);
    }
    if lex_le(y, z) && lex_le(z, x) {
        lemma_lex_trans(y, z, x);
    }
    if lex_le(z, x) && lex_le(x, y) {
        lemma_lex_trans(z, x, y);
    }
    if lex_le(z, y) && lex_le(y, x) {
        lemma_lex_trans(z, y, x);
    }
}

proof fn lemma_vals_min_concat(a: Seq<Seq<u8>>, b: Seq<Seq<u8>>)
    ensures
        spec_vals_min(a + b) == (match (spec_vals_min(a), spec_vals_min(b)) {
            (Option::None, m) => m,
            (m, Option::None) => m,
            (Option::Some(x), Option::Some(y)) => Option::Some(if lex_le(x, y) { x } else { y }),
        }),
        spec_vals_max(a + b) == (match (spec_vals_max(a), spec_vals_max(b)) {
            (Option::None, m) => m,
            (m, Option::None) => m,
            (Option::Some(x), Option::Some(y)) => Option::Some(if lex_le(y, x) { x } else { y }),
        }),
    decreases b.len(),
{
    if b.len() == 0 {
        assert(a + b =~= a);
    } else {
        lemma_vals_min_concat(a, b.drop_last());
        assert((a + b).drop_last() =~= a + b.drop_last());
        assert((a + b).last() == b.last());
        let ma = spec_vals_min(a);
        let mb = spec_vals_min(b.drop_last());
        let xa = spec_vals_max(a);
        let xb = spec_vals_max(b.drop_last());
        let z = b.last();
        if ma is Some && mb is Some {
            lemma_lex_facts(ma->0, mb->0, z);
        } else if ma is Some {
            lemma_lex_facts(ma->0, ma->0, z);
        } else if mb is Some {
            lemma_lex_facts(mb->0, mb->0, z);
        }
        if xa is Some && xb is Some {
            lemma_lex_facts(xa->0, xb->0, z);
        } else if xa is Some {
            lemma_lex_facts(xa->0, xa->0, z);
        } else if xb is Some {
            lemma_lex_facts(xb->0, xb->0, z);
        }
    }
}


/// How many values the first partition that populates the dimension
/// holds.
pub open spec fn spec_first_value_size(ps: Seq<Partition>, d: Dim) -> int
    decreases ps.len(),
{
    if ps.len() == 0 {
        0
    } else {
        match spec_dim_values(ps[0], d) {
            Option::Some(vs) => vs@.len() as int,
            Option::None => spec_first_value_size(ps.drop_first(), d),
        }
    }
}

proof fn lemma_value_count_zero_none(ps: Seq<Partition>, d: Dim, i: int)
    requires
        0 <= i <= ps.len(),
        spec_value_chunk_count(ps.take(i), d) == 0,
    ensures
        forall|m: int| 0 <= m < i ==> spec_dim_values(#[trigger] ps[m], d) is None,
    decreases i,
{
    if i > 0 {
        assert(ps.take(i).drop_last() =~= ps.take(i - 1));
        assert(ps.take(i).last() == ps[i - 1]);
        lemma_value_count_nonneg(ps.take(i - 1), d);
        lemma_value_count_zero_none(ps, d, i - 1);
    }
}

proof fn lemma_first_value_size_skip(ps: Seq<Partition>, d: Dim, i: int)
    requires
        0 <= i <= ps.len(),
        forall|m: int| 0 <= m < i ==> spec_dim_values(#[trigger] ps[m], d) is None,
    ensures
        spec_first_value_size(ps, d) == spec_first_value_size(ps.skip(i), d),
    decreases i,
{
    if i > 0 {
        lemma_first_value_size_skip(ps, d, i - 1);
        let t = ps.skip(i - 1);
        assert(t[0] == ps[i - 1]);
        assert(t.drop_first() =~= ps.skip(i));
    } else {
        assert(ps.skip(0) =~= ps);
    }
}

/// The summary of one value dimension across a partition list, when
/// some partition populates it.
pub fn value_stats(chunks: &Vec<Partition>, d: Dim) -> (r: Option<ChunkStats<Vec<u8>>>)
    requires
        spec_all_values(chunks@, d).len() <= u64::MAX,
        spec_value_chunk_count(chunks@, d) <= u64::MAX,
    ensures
        match r {
            Some(st) => {
                &&& spec_value_chunk_count(chunks@, d) > 0
                &&& st.total_values as int == spec_all_values(chunks@, d).len()
                &&& (match st.min_value {
                    Option::None => spec_vals_min(spec_all_values(chunks@, d)) is None,
                    Option::Some(v) => spec_vals_min(spec_all_values(chunks@, d))
                        == Option::Some(v@),
                })
                &&& (match st.max_value {
                    Option::None => spec_vals_max(spec_all_values(chunks@, d)) is None,
                    Option::Some(v) => spec_vals_max(spec_all_values(chunks@, d))
                        == Option::Some(v@),
                })
                &&& st.chunk_size as int == spec_first_value_size(chunks@, d)
                &&& st.n_chunks as int == spec_value_chunk_count(chunks@, d)
            },
            None => spec_value_chunk_count(chunks@, d) == 0,
        },
{
    let mut total: u64 = 0;
    let mut mn: Option<Vec<u8>> = None;
    let mut mx: Option<Vec<u8>> = None;
    let mut n_chunks: u64 = 0;
    let mut chunk_size: u64 = 0;
    let mut i: usize = 0;
    proof {
        assert(spec_all_values(chunks@.take(0), d) =~= Seq::<Seq<u8>>::empty());
        assert(chunks@.take(0) =~= Seq::<Partition>::empty());
    }
    while i < chunks.len()
        invariant
            i <= chunks@.len(),
            spec_all_values(chunks@, d).len() <= u64::MAX,
            spec_value_chunk_count(chunks@, d) <= u64::MAX,
            total as int == spec_all_values(chunks@.take(i as int), d).len(),
            (match mn {
                Option::None => spec_vals_min(spec_all_values(chunks@.take(i as int), d)) is None,
                Option::Some(v) => spec_vals_min(spec_all_values(chunks@.take(i as int), d))
                    == Option::Some(v@),
            }),
            (match mx {
                Option::None => spec_vals_max(spec_all_values(chunks@.take(i as int), d)) is None,
                Option::Some(v) => spec_vals_max(spec_all_values(chunks@.take(i as int), d))
                    == Option::Some(v@),
            }),
            n_chunks as int == spec_value_chunk_count(chunks@.take(i as int), d),
            n_chunks > 0 ==> chunk_size as int == spec_first_value_size(chunks@, d),
        decreases chunks@.len() - i,
    {
        proof {
            lemma_values_prefix(chunks@, d, i as int + 1);
            assert(chunks@.take(i as int + 1).drop_last() =~= chunks@.take(i as int));
            assert(chunks@.take(i as int + 1).last() == chunks@[i as int]);
        }
        let ghost pre = spec_all_values(chunks@.take(i as int), d);
        let dv: &Option<Vec<u8>> = &None;
        let values: Option<&Vec<Vec<u8>>> = match d {
            Dim::BlockNumber => None,
            Dim::TransactionHash => chunks[i].transactions.as_ref(),
            Dim::CallData => chunks[i].call_datas.as_ref(),
            Dim::Address => chunks[i].addresses.as_ref(),
            Dim::Contract => chunks[i].contracts.as_ref(),
            Dim::ToAddress => chunks[i].to_addresses.as_ref(),
            Dim::Slot => chunks[i].slots.as_ref(),
            Dim::Topic0 => chunks[i].topic0s.as_ref(),
            Dim::Topic1 => chunks[i].topic1s.as_ref(),
            Dim::Topic2 => chunks[i].topic2s.as_ref(),
            Dim::Topic3 => chunks[i].topic3s.as_ref(),
        };
        match values {
            None => {
                proof {
                    assert(spec_dim_values(chunks@[i as int], d) is None || d is BlockNumber);
                    if d is BlockNumber {
                        assert(spec_dim_values(chunks@[i as int], d) is None);
                    }
                    assert(pre + Seq::<Seq<u8>>::empty() =~= pre);
                    assert(spec_all_values(chunks@.take(i as int + 1), d) =~= pre);
                }
            },
            Some(vs) => {
                let ghost vviews = crate::datasets::balance_diffs::bytes_views(vs@);
                let mut j: usize = 0;
                proof {
                    assert(pre + vviews.take(0) =~= pre);
                }
                while j < vs.len()
                    invariant
                        j <= vs@.len(),
                        vviews == crate::datasets::balance_diffs::bytes_views(vs@),
                        spec_dim_values(chunks@[i as int], d) matches Some(w) && w@ == vs@,
                        i < chunks@.len(),
                        spec_all_values(chunks@, d).len() <= u64::MAX,
                        pre == spec_all_values(chunks@.take(i as int), d),
                        total as int == pre.len() + j,
                        (match mn {
                            Option::None => spec_vals_min(pre + vviews.take(j as int)) is None,
                            Option::Some(v) => spec_vals_min(pre + vviews.take(j as int))
                                == Option::Some(v@),
                        }),
                        (match mx {
                            Option::None => spec_vals_max(pre + vviews.take(j as int)) is None,
                            Option::Some(v) => spec_vals_max(pre + vviews.take(j as int))
                                == Option::Some(v@),
                        }),
                        n_chunks as int == spec_value_chunk_count(chunks@.take(i as int), d),
                    decreases vs@.len() - j,
                {
                    proof {
                        lemma_values_prefix(chunks@, d, i as int + 1);
                        assert(chunks@.take(i as int + 1).drop_last() =~= chunks@.take(i as int));
                        assert(chunks@.take(i as int + 1).last() == chunks@[i as int]);
                        assert(spec_all_values(chunks@.take(i as int + 1), d) =~= pre + vviews);
                        assert(pre.len() + vviews.len() <= u64::MAX);
                    }
                    let v = &vs[j];
                    mn = match mn {
                        None => {
                            let c = v.clone();
                            proof {
                                assert(c@ =~= v@);
                            }
                            Some(c)
                        },
                        Some(m) => {
                            if bytes_le(&m, v) {
                                Some(m)
                            } else {
                                let c = v.clone();
                                proof {
                                    assert(c@ =~= v@);
                                }
                                Some(c)
                            }
                        },
                    };
                    mx = match mx {
                        None => {
                            let c = v.clone();
                            proof {
                                assert(c@ =~= v@);
                            }
                            Some(c)
                        },
                        Some(m) => {
                            if bytes_le(v, &m) {
                                Some(m)
                            } else {
                                let c = v.clone();
                                proof {
                                    assert(c@ =~= v@);
                                }
                                Some(c)
                            }
                        },
                    };
                    total = total + 1;
                    proof {
                        assert(vviews.take(j as int + 1).drop_last() =~= vviews.take(j as int));
                        assert(vviews.take(j as int + 1).last() == vviews[j as int]);
                        assert(vviews[j as int] == vs@[j as int]@);
                        lemma_vals_min_concat(pre, vviews.take(j as int + 1));
                        lemma_vals_min_concat(pre, vviews.take(j as int));
                        let mp = spec_vals_min(pre);
                        let mt = spec_vals_min(vviews.take(j as int));
                        let xp = spec_vals_max(pre);
                        let xt = spec_vals_max(vviews.take(j as int));
                        let z = vviews[j as int];
                        if mp is Some && mt is Some {
                            lemma_lex_facts(mp->0, mt->0, z);
                        } else if mp is Some {
                            lemma_lex_facts(mp->0, mp->0, z);
                        } else if mt is Some {
                            lemma_lex_facts(mt->0, mt->0, z);
                        }
                        if xp is Some && xt is Some {
                            lemma_lex_facts(xp->0, xt->0, z);
                        } else if xp is Some {
                            lemma_lex_facts(xp->0, xp->0, z);
                        } else if xt is Some {
                            lemma_lex_facts(xt->0, xt->0, z);
                        }
                    }
                    j = j + 1;
                }
                if n_chunks == 0 {
                    chunk_size = vs.len() as u64;
                    proof {
                        lemma_value_count_zero_none(chunks@, d, i as int);
                        lemma_first_value_size_skip(chunks@, d, i as int);
                        assert(chunks@ =~= chunks@.take(i as int) + chunks@.skip(i as int));
                        assert(chunks@.skip(i as int)[0] == chunks@[i as int]);
                        assert(spec_first_value_size(chunks@.skip(i as int), d) == vs@.len());
                    }
                }
                proof {
                    lemma_values_prefix(chunks@, d, i as int + 1);
                    assert(vviews.take(vviews.len() as int) =~= vviews);
                    assert(chunks@.take(i as int + 1).drop_last() =~= chunks@.take(i as int));
                    assert(chunks@.take(i as int + 1).last() == chunks@[i as int]);
                    assert(spec_all_values(chunks@.take(i as int + 1), d) =~= pre + vviews);
                }
                n_chunks = n_chunks + 1;
            },
        }
        i = i + 1;
    }
    proof {
        assert(chunks@.take(chunks@.len() as int) =~= chunks@);
    }
    if n_chunks == 0 {
        None
    } else {
        Some(ChunkStats { total_values: total, min_value: mn, max_value: mx, chunk_size, n_chunks })
    }
}

proof fn lemma_values_prefix(ps: Seq<Partition>, d: Dim, i: int)
    requires
        0 <= i <= ps.len(),
    ensures
        spec_all_values(ps.take(i), d).len() <= spec_all_values(ps, d).len(),
        spec_value_chunk_count(ps.take(i), d) <= spec_value_chunk_count(ps, d),
        spec_value_chunk_count(ps.take(i), d) >= 0,
    decreases ps.len() - i,
{
    if i == ps.len() {
        assert(ps.take(i) =~= ps);
        lemma_value_count_nonneg(ps, d);
    } else {
        lemma_values_prefix(ps, d, i + 1);
        assert(ps.take(i + 1).drop_last() =~= ps.take(i));
        assert(ps.take(i + 1).last() == ps[i]);
        lemma_value_count_nonneg(ps.take(i), d);
    }
}

proof fn lemma_value_count_nonneg(ps: Seq<Partition>, d: Dim)
    ensures
        spec_value_chunk_count(ps, d) >= 0,
    decreases ps.len(),
{
    if ps.len() > 0 {
        lemma_value_count_nonneg(ps.drop_last(), d);
    }
}


/// One progress line for a dimension: the single value when the
/// dimension holds one, else the count with the least and greatest
/// values.
pub open spec fn spec_stats_line(
    name: Seq<char>,
    plural: Seq<char>,
    total: nat,
    mn: Option<Seq<char>>,
    mx: Option<Seq<char>>,
) -> Seq<char> {
    if total == 1 {
        spec_bullet_indent(
            name,
            match mn {
                Option::Some(v) => v,
                Option::None => "none"@,
            },
            4,
        )
    } else {
        match (mn, mx) {
            (Option::Some(a), Option::Some(b)) => spec_bullet_indent(
                plural,
                "n="@ + spec_grouped(spec_decimal(total)) + " min="@ + a + " max="@ + b,
                4,
            ),
            _ => spec_bullet_indent(plural, "n="@ + spec_grouped(spec_decimal(total)), 4),
        }
    }
}

/// The rendered least and greatest values of a dimension's stats.
pub open spec fn spec_stat_strings<T: ValueToString>(o: Option<T>) -> Option<Seq<char>> {
    match o {
        Option::None => Option::None,
        Option::Some(v) => Option::Some(v.spec_value_string()),
    }
}

/// The progress line of one dimension's span.
pub fn print_chunk<T: ValueToString>(dim: &Dim, dim_stats: &ChunkStats<T>) -> (r: String)
    ensures
        r@ == spec_stats_line(
            dim.spec_name(),
            dim.spec_plural_name(),
            dim_stats.total_values as nat,
            spec_stat_strings(dim_stats.min_value),
            spec_stat_strings(dim_stats.max_value),
        ),
{
    if dim_stats.total_values == 1 {
        let v = match dim_stats.min_value_to_string() {
            Some(s) => s,
            None => "none".to_owned(),
        };
        bullet_indent_line(dim.name(), v.as_str(), 4)
    } else {
        let mn = dim_stats.min_value_to_string();
        let mx = dim_stats.max_value_to_string();
        match (mn, mx) {
            (Some(a), Some(b)) => {
                let mut v = String::from_str("n=");
                v.append(commafy(dim_stats.total_values).as_str());
                v.append(" min=");
                v.append(a.as_str());
                v.append(" max=");
                v.append(b.as_str());
                bullet_indent_line(dim.plural_name(), v.as_str(), 4)
            },
            _ => {
                let mut v = String::from_str("n=");
                v.append(commafy(dim_stats.total_values).as_str());
                bullet_indent_line(dim.plural_name(), v.as_str(), 4)
            },
        }
    }
}

/// The progress line of the block dimension, when populated.
pub open spec fn spec_block_lines(ps: Seq<Partition>) -> Seq<Seq<char>> {
    if spec_block_chunk_count(ps) == 0 {
        Seq::empty()
    } else {
        seq![
            spec_stats_line(
                Dim::BlockNumber.spec_name(),
                Dim::BlockNumber.spec_plural_name(),
                spec_ranges_total(spec_all_ranges(ps)) as nat,
                match spec_ranges_min(spec_all_ranges(ps)) {
                    Option::None => Option::None,
                    Option::Some(v) => Option::Some(spec_decimal(v as nat)),
                },
                match spec_ranges_max(spec_all_ranges(ps)) {
                    Option::None => Option::None,
                    Option::Some(v) => Option::Some(spec_decimal(v as nat)),
                },
            ),
        ]
    }
}

/// The progress line of one value dimension, when populated.
pub open spec fn spec_value_dim_lines(ps: Seq<Partition>, d: Dim) -> Seq<Seq<char>> {
    if spec_value_chunk_count(ps, d) == 0 {
        Seq::empty()
    } else {
        seq![
            spec_stats_line(
                d.spec_name(),
                d.spec_plural_name(),
                spec_all_values(ps, d).len(),
                match spec_vals_min(spec_all_values(ps, d)) {
                    Option::None => Option::None,
                    Option::Some(v) => Option::Some(spec_hex(v)),
                },
                match spec_vals_max(spec_all_values(ps, d)) {
                    Option::None => Option::None,
                    Option::Some(v) => Option::Some(spec_hex(v)),
                },
            ),
        ]
    }
}

/// The progress lines of a list of value dimensions, in order.
pub open spec fn spec_dims_lines(ps: Seq<Partition>, ds: Seq<Dim>) -> Seq<Seq<char>>
    decreases ds.len(),
{
    if ds.len() == 0 {
        Seq::empty()
    } else {
        spec_dims_lines(ps, ds.drop_last()) + spec_value_dim_lines(ps, ds.last())
    }
}

/// The value dimensions in display order.
pub open spec fn spec_display_dims() -> Seq<Dim> {
    seq![
        Dim::TransactionHash,
        Dim::CallData,
        Dim::Address,
        Dim::Contract,
        Dim::ToAddress,
        Dim::Slot,
        Dim::Topic0,
        Dim::Topic1,
        Dim::Topic2,
        Dim::Topic3,
    ]
}

/// One progress line per populated dimension of the partition list:
/// blocks first, then the value dimensions in display order.
pub fn print_chunks(chunks: &Vec<Partition>) -> (r: Vec<String>)
    requires
        forall|i: int| 0 <= i < chunks@.len() ==> (#[trigger] chunks@[i]).wf(),
        spec_ranges_total(spec_all_ranges(chunks@)) <= u64::MAX,
        chunks@.len() <= u64::MAX,
        forall|d: Dim| #[trigger] spec_all_values(chunks@, d).len() <= u64::MAX,
    ensures
        r.deep_view() == spec_block_lines(chunks@) + spec_dims_lines(chunks@, spec_display_dims()),
{
    proof {
        lemma_block_count_le_len(chunks@);
    }
    let mut r: Vec<String> = Vec::new();
    match block_stats(chunks) {
        Some(st) => {
            let line = print_chunk(&Dim::BlockNumber, &st);
            r.push(line);
        },
        None => {},
    }
    proof {
        assert(r.deep_view() =~= spec_block_lines(chunks@));
    }
    let dims: Vec<Dim> = vec![
        Dim::TransactionHash,
        Dim::CallData,
        Dim::Address,
        Dim::Contract,
        Dim::ToAddress,
        Dim::Slot,
        Dim::Topic0,
        Dim::Topic1,
        Dim::Topic2,
        Dim::Topic3,
    ];
    proof {
        assert(dims@ =~= spec_display_dims());
        assert(dims@.take(0) =~= Seq::<Dim>::empty());
        assert(r.deep_view() =~= spec_block_lines(chunks@) + spec_dims_lines(
            chunks@,
            dims@.take(0),
        ));
    }
    let mut i: usize = 0;
    while i < dims.len()
        invariant
            i <= dims@.len(),
            dims@ == spec_display_dims(),
            forall|k: int| 0 <= k < chunks@.len() ==> (#[trigger] chunks@[k]).wf(),
            chunks@.len() <= u64::MAX,
            forall|d: Dim| #[trigger] spec_all_values(chunks@, d).len() <= u64::MAX,
            r.deep_view() == spec_block_lines(chunks@) + spec_dims_lines(
                chunks@,
                dims@.take(i as int),
            ),
        decreases dims@.len() - i,
    {
        let d = dims[i];
        proof {
            lemma_value_count_le_len(chunks@, d);
            assert(spec_all_values(chunks@, d).len() <= u64::MAX);
        }
        let ghost pre = r.deep_view();
        match value_stats(chunks, d) {
            Some(st) => {
                let line = print_chunk(&d, &st);
                r.push(line);
                proof {
                    assert(r.deep_view() =~= pre + spec_value_dim_lines(chunks@, d));
                }
            },
            None => {
                proof {
                    assert(pre + spec_value_dim_lines(chunks@, d) =~= pre);
                }
            },
        }
        proof {
            assert(dims@.take(i as int + 1).drop_last() =~= dims@.take(i as int));
            assert(dims@.take(i as int + 1).last() == dims@[i as int]);
            assert(r.deep_view() =~= spec_block_lines(chunks@) + spec_dims_lines(
                chunks@,
                dims@.take(i as int + 1),
            ));
        }
        i = i + 1;
    }
    proof {
        assert(dims@.take(dims@.len() as int) =~= dims@);
    }
    r
}

proof fn lemma_block_count_le_len(ps: Seq<Partition>)
    ensures
        spec_block_chunk_count(ps) <= ps.len(),
    decreases ps.len(),
{
    if ps.len() > 0 {
        lemma_block_count_le_len(ps.drop_last());
    }
}

proof fn lemma_value_count_le_len(ps: Seq<Partition>, d: Dim)
    ensures
        spec_value_chunk_count(ps, d) <= ps.len(),
    decreases ps.len(),
{
    if ps.len() > 0 {
        lemma_value_count_le_len(ps.drop_last(), d);
    }
}


/// The description of each error of the errored list, in order.
pub open spec fn spec_error_keys(es: Seq<(Option<Partition>, CollectError)>) -> Seq<Seq<char>> {
    Seq::new(es.len(), |i: int| es[i].1.spec_describe())
}

/// How many times `k` occurs in `keys`.
pub open spec fn spec_count_occurrences(keys: Seq<Seq<char>>, k: Seq<char>) -> int
    decreases keys.len(),
{
    if keys.len() == 0 {
        0
    } else {
        spec_count_occurrences(keys.drop_last(), k) + (
        if keys.last() == k {
            1int
        } else {
            0int
        })
    }
}

/// The distinct keys of `keys`, in first-occurrence order.
pub open spec fn spec_first_occurrences(keys: Seq<Seq<char>>) -> Seq<Seq<char>>
    decreases keys.len(),
{
    if keys.len() == 0 {
        Seq::empty()
    } else if keys.drop_last().contains(keys.last()) {
        spec_first_occurrences(keys.drop_last())
    } else {
        spec_first_occurrences(keys.drop_last()).push(keys.last())
    }
}

proof fn lemma_fo_membership(keys: Seq<Seq<char>>, k: Seq<char>)
    ensures
        spec_first_occurrences(keys).contains(k) <==> keys.contains(k),
    decreases keys.len(),
{
    if keys.len() > 0 {
        lemma_fo_membership(keys.drop_last(), k);
        let fo = spec_first_occurrences(keys);
        let fop = spec_first_occurrences(keys.drop_last());
        if keys.contains(k) {
            let w = choose|i: int| 0 <= i < keys.len() && keys[i] == k;
            if w < keys.len() - 1 {
                assert(keys.drop_last()[w] == k);
                assert(keys.drop_last().contains(k));
                if !keys.drop_last().contains(keys.last()) {
                    assert(fo == fop.push(keys.last()));
                    let wi = choose|i: int| 0 <= i < fop.len() && fop[i] == k;
                    assert(fo[wi] == k);
                    assert(fo.contains(k));
                }
            } else {
                assert(keys.last() == k);
                if keys.drop_last().contains(keys.last()) {
                    assert(fop.contains(k));
                } else {
                    assert(fo == fop.push(k));
                    assert(fo[fo.len() - 1] == k);
                    assert(fo.contains(k));
                }
            }
        }
        if fo.contains(k) {
            let w = choose|i: int| 0 <= i < fo.len() && fo[i] == k;
            if keys.drop_last().contains(keys.last()) {
                assert(fop.contains(k));
                let v = choose|i: int| 0 <= i < keys.drop_last().len() && keys.drop_last()[i] == k;
                assert(keys[v] == k);
                assert(keys.contains(k));
            } else {
                if w < fop.len() {
                    assert(fop[w] == k);
                    assert(fop.contains(k));
                    let v = choose|i: int|
                        0 <= i < keys.drop_last().len() && keys.drop_last()[i] == k;
                    assert(keys[v] == k);
                    assert(keys.contains(k));
                } else {
                    assert(k == keys.last());
                    assert(keys[keys.len() - 1] == k);
                    assert(keys.contains(k));
                }
            }
        }
    }
}

/// Tallies the errored list: each distinct error description, in
/// first-occurrence order, with how often it occurred.
pub fn count_errors(errored: &Vec<(Option<Partition>, CollectError)>) -> (r: Vec<(String, u64)>)
    ensures
        ({
            let keys = spec_error_keys(errored@);
            let fo = spec_first_occurrences(keys);
            &&& r@.len() == fo.len()
            &&& forall|i: int| 0 <= i < r@.len() ==> (#[trigger] r@[i]).0@ == fo[i]
            &&& forall|i: int|
                0 <= i < r@.len() ==> (#[trigger] r@[i]).1 as int == spec_count_occurrences(
                    keys,
                    fo[i],
                )
        }),
{
    let ghost keys = spec_error_keys(errored@);
    let mut r: Vec<(String, u64)> = Vec::new();
    let mut i: usize = 0;
    proof {
        assert(keys.take(0) =~= Seq::<Seq<char>>::empty());
    }
    while i < errored.len()
        invariant
            i <= errored@.len(),
            keys == spec_error_keys(errored@),
            r@.len() == spec_first_occurrences(keys.take(i as int)).len(),
            forall|k: int|
                0 <= k < r@.len() ==> (#[trigger] r@[k]).0@ == spec_first_occurrences(
                    keys.take(i as int),
                )[k],
            forall|k: int|
                0 <= k < r@.len() ==> (#[trigger] r@[k]).1 as int == spec_count_occurrences(
                    keys,
                    spec_first_occurrences(keys.take(i as int))[k],
                ),
        decreases errored@.len() - i,
    {
        let key = errored[i].1.describe();
        proof {
            assert(key@ == keys[i as int]);
        }
        let mut seen = false;
        let mut k: usize = 0;
        while k < r.len() && !seen
            invariant
                k <= r@.len(),
                !seen ==> forall|m: int| 0 <= m < k ==> (#[trigger] r@[m]).0@ != key@,
                seen ==> exists|m: int| 0 <= m < r@.len() && (#[trigger] r@[m]).0@ == key@,
            decreases r@.len() - k + (if seen { 0int } else { 1int }),
        {
            if str_eq(r[k].0.as_str(), key.as_str()) {
                proof {
                    assert(r@[k as int].0@ == key@);
                }
                seen = true;
            } else {
                k = k + 1;
            }
        }
        let ghost fo_pre = spec_first_occurrences(keys.take(i as int));
        proof {
            assert(keys.take(i as int + 1).drop_last() =~= keys.take(i as int));
            assert(keys.take(i as int + 1).last() == keys[i as int]);
            lemma_fo_membership(keys.take(i as int), key@);
            if seen {
                let m = choose|m: int| 0 <= m < r@.len() && r@[m].0@ == key@;
                assert(fo_pre[m] == key@);
                assert(fo_pre.contains(key@));
                assert(keys.take(i as int).contains(key@));
                assert(spec_first_occurrences(keys.take(i as int + 1)) == fo_pre);
            } else {
                if keys.take(i as int).contains(key@) {
                    assert(fo_pre.contains(key@));
                    let m = choose|m: int| 0 <= m < fo_pre.len() && fo_pre[m] == key@;
                    assert(r@[m].0@ == key@);
                    assert(false);
                }
                assert(spec_first_occurrences(keys.take(i as int + 1)) == fo_pre.push(key@));
            }
        }
        if !seen {
            let mut count: u64 = 0;
            let mut j: usize = 0;
            proof {
                assert(keys.take(0) =~= Seq::<Seq<char>>::empty());
            }
            while j < errored.len()
                invariant
                    j <= errored@.len(),
                    keys == spec_error_keys(errored@),
                    key@ == keys[i as int],
                    i < errored@.len(),
                    count as int == spec_count_occurrences(keys.take(j as int), key@),
                    count <= j,
                decreases errored@.len() - j,
            {
                proof {
                    assert(keys.take(j as int + 1).drop_last() =~= keys.take(j as int));
                    assert(keys.take(j as int + 1).last() == keys[j as int]);
                }
                if str_eq(errored[j].1.describe().as_str(), key.as_str()) {
                    proof {
                        assert(keys[j as int] == key@);
                    }
                    count = count + 1;
                } else {
                    proof {
                        assert(keys[j as int] != key@);
                    }
                }
                j = j + 1;
            }
            proof {
                assert(keys.take(keys.len() as int) =~= keys);
            }
            r.push((key, count));
        }
        i = i + 1;
    }
    proof {
        assert(keys.take(keys.len() as int) =~= keys);
    }
    r
}



/// The counts of a tally list, over plain values.
pub open spec fn tallies_view(s: Seq<(String, u64)>) -> Seq<(Seq<char>, int)> {
    Seq::new(s.len(), |i: int| (s[i].0@, s[i].1 as int))
}

/// `t` inserted after every tally with at least its count: ordering
/// by count, descending, stable for equal counts.
pub open spec fn spec_insert_tally(
    acc: Seq<(Seq<char>, int)>,
    t: (Seq<char>, int),
) -> Seq<(Seq<char>, int)>
    decreases acc.len(),
{
    if acc.len() == 0 {
        seq![t]
    } else if acc[0].1 >= t.1 {
        seq![acc[0]] + spec_insert_tally(acc.drop_first(), t)
    } else {
        seq![t] + acc
    }
}

/// The tallies ordered by count, descending; tallies of equal count
/// keep their order.
pub open spec fn spec_sort_tallies(ts: Seq<(Seq<char>, int)>) -> Seq<(Seq<char>, int)>
    decreases ts.len(),
{
    if ts.len() == 0 {
        Seq::empty()
    } else {
        spec_insert_tally(spec_sort_tallies(ts.drop_last()), ts.last())
    }
}

proof fn lemma_insert_tally_skip(acc: Seq<(Seq<char>, int)>, t: (Seq<char>, int), i: int)
    requires
        0 <= i <= acc.len(),
        forall|k: int| 0 <= k < i ==> (#[trigger] acc[k]).1 >= t.1,
    ensures
        spec_insert_tally(acc, t) == acc.take(i) + spec_insert_tally(acc.skip(i), t),
    decreases i,
{
    if i == 0 {
        assert(acc.skip(0) =~= acc);
        assert(acc.take(0) + spec_insert_tally(acc, t) =~= spec_insert_tally(acc, t));
    } else {
        assert(acc[0].1 >= t.1);
        lemma_insert_tally_skip(acc.drop_first(), t, i - 1);
        assert(acc.drop_first().take(i - 1) =~= acc.take(i).drop_first());
        assert(acc.drop_first().skip(i - 1) =~= acc.skip(i));
        assert(seq![acc[0]] + (acc.take(i).drop_first() + spec_insert_tally(acc.skip(i), t))
            =~= acc.take(i) + spec_insert_tally(acc.skip(i), t));
    }
}

/// Inserts one tally, keeping counts descending and equal counts in
/// their given order.
fn insert_tally(acc: Vec<(String, u64)>, t: (String, u64)) -> (r: Vec<(String, u64)>)
    ensures
        tallies_view(r@) == spec_insert_tally(tallies_view(acc@), (t.0@, t.1 as int)),
{
    let ghost av = tallies_view(acc@);
    let ghost tv = (t.0@, t.1 as int);
    let mut remaining = acc;
    let n_acc = remaining.len();
    let mut out: Vec<(String, u64)> = Vec::new();
    let mut i: usize = 0;
    while remaining.len() > 0 && remaining[0].1 >= t.1
        invariant
            tv == (t.0@, t.1 as int),
            av.len() == n_acc,
            i <= av.len(),
            tallies_view(remaining@) == av.skip(i as int),
            tallies_view(out@) == av.take(i as int),
            forall|k: int| 0 <= k < i ==> (#[trigger] av[k]).1 >= tv.1,
        decreases remaining@.len(),
    {
        let ghost rv = tallies_view(remaining@);
        let head = remaining.remove(0);
        proof {
            assert(av =~= av.take(i as int) + av.skip(i as int));
            assert(rv[0] == av.skip(i as int)[0]);
            assert(av.skip(i as int)[0] == av[i as int]);
            assert(tallies_view(remaining@) =~= rv.skip(1));
            assert(rv.skip(1) =~= av.skip(i as int + 1));
        }
        let ghost ov = tallies_view(out@);
        out.push(head);
        proof {
            assert(tallies_view(out@) =~= ov.push(av[i as int]));
            assert(tallies_view(out@) =~= av.take(i as int + 1));
        }
        i = i + 1;
    }
    proof {
        lemma_insert_tally_skip(av, tv, i as int);
        if remaining@.len() == 0 {
            assert(av.skip(i as int) =~= Seq::<(Seq<char>, int)>::empty());
            assert(spec_insert_tally(av.skip(i as int), tv) =~= seq![tv]);
        } else {
            assert(tallies_view(remaining@)[0] == av.skip(i as int)[0]);
            assert(av.skip(i as int)[0].1 < tv.1);
            assert(spec_insert_tally(av.skip(i as int), tv) =~= seq![tv] + av.skip(i as int));
        }
    }
    let ghost ov2 = tallies_view(out@);
    out.push(t);
    proof {
        assert(tallies_view(out@) =~= ov2.push(tv));
    }
    let mut j: usize = 0;
    let ghost rest = tallies_view(remaining@);
    let n_rest = remaining.len();
    while remaining.len() > 0
        invariant
            rest.len() == n_rest,
            tallies_view(out@) == av.take(i as int).push(tv) + rest.take(j as int),
            tallies_view(remaining@) == rest.skip(j as int),
            j <= rest.len(),
        decreases remaining@.len(),
    {
        let ghost rv = tallies_view(remaining@);
        let head = remaining.remove(0);
        proof {
            assert(rest =~= rest.take(j as int) + rest.skip(j as int));
            assert(rv[0] == rest.skip(j as int)[0]);
            assert(rest.skip(j as int)[0] == rest[j as int]);
            assert(tallies_view(remaining@) =~= rv.skip(1));
            assert(rv.skip(1) =~= rest.skip(j as int + 1));
        }
        let ghost ov = tallies_view(out@);
        out.push(head);
        proof {
            assert(tallies_view(out@) =~= ov.push(rest[j as int]));
            assert(tallies_view(out@) =~= av.take(i as int).push(tv) + rest.take(j as int + 1));
        }
        j = j + 1;
    }
    proof {
        assert(rest.take(rest.len() as int) =~= rest);
        assert(av.take(i as int).push(tv) + rest =~= av.take(i as int) + spec_insert_tally(
            av.skip(i as int),
            tv,
        ));
        assert(tallies_view(out@) =~= spec_insert_tally(av, tv));
    }
    out
}

/// Orders the tallies by occurrence count, descending; tallies of
/// equal count keep their first-occurrence order.
pub fn sort_tallies(ts: Vec<(String, u64)>) -> (r: Vec<(String, u64)>)
    ensures
        tallies_view(r@) == spec_sort_tallies(tallies_view(ts@)),
{
    let ghost all = tallies_view(ts@);
    let mut remaining = ts;
    let n_all = remaining.len();
    let mut acc: Vec<(String, u64)> = Vec::new();
    let mut i: usize = 0;
    proof {
        assert(all.take(0) =~= Seq::<(Seq<char>, int)>::empty());
        assert(tallies_view(acc@) =~= spec_sort_tallies(all.take(0)));
        assert(all.skip(0) =~= all);
    }
    while remaining.len() > 0
        invariant
            all.len() == n_all,
            i <= all.len(),
            tallies_view(remaining@) == all.skip(i as int),
            tallies_view(acc@) == spec_sort_tallies(all.take(i as int)),
        decreases remaining@.len(),
    {
        let ghost rv = tallies_view(remaining@);
        let head = remaining.remove(0);
        proof {
            assert(all =~= all.take(i as int) + all.skip(i as int));
            assert(rv[0] == all.skip(i as int)[0]);
            assert(all.skip(i as int)[0] == all[i as int]);
            assert(tallies_view(remaining@) =~= rv.skip(1));
            assert(rv.skip(1) =~= all.skip(i as int + 1));
            assert((head.0@, head.1 as int) == all[i as int]);
        }
        acc = insert_tally(acc, head);
        proof {
            assert(all.take(i as int + 1).drop_last() =~= all.take(i as int));
            assert(all.take(i as int + 1).last() == all[i as int]);
        }
        i = i + 1;
    }
    proof {
        assert(all.take(all.len() as int) =~= all);
    }
    acc
}

/// The error tallies of a run, in first-occurrence order.
pub open spec fn spec_tallies(es: Seq<(Option<Partition>, CollectError)>) -> Seq<
    (Seq<char>, int),
> {
    let keys = spec_error_keys(es);
    let fo = spec_first_occurrences(keys);
    Seq::new(fo.len(), |i: int| (fo[i], spec_count_occurrences(keys, fo[i])))
}

/// One tally line: `- <error> (<count>x)`.
pub open spec fn spec_tally_line(key: Seq<char>, count: int) -> Seq<char> {
    "- "@ + key + " ("@ + spec_decimal(count as nat) + "x)"@
}

/// The printed tally lines: the first ten of the given tallies, then
/// `...` when more exist.
pub open spec fn spec_tally_lines(ts: Seq<(Seq<char>, int)>) -> Seq<Seq<char>> {
    let shown = if ts.len() <= 10 { ts.len() as int } else { 10 };
    Seq::new(shown as nat, |i: int| spec_tally_line(ts[i].0, ts[i].1)) + (
    if ts.len() > 10 {
        seq!["..."@]
    } else {
        Seq::<Seq<char>>::empty()
    })
}

/// The error-summary section, present only when some partition
/// errored: the ten most frequent error descriptions with their
/// counts.
pub open spec fn spec_error_section(es: Seq<(Option<Partition>, CollectError)>) -> Seq<Seq<char>> {
    if es.len() == 0 {
        Seq::empty()
    } else {
        seq![
            "error summary"@,
            spec_underline("error summary"@.len()),
            "(errors in "@ + spec_decimal(es.len()) + " chunks)"@,
        ] + spec_tally_lines(spec_sort_tallies(spec_tallies(es))) + seq![""@, ""@]
    }
}

/// One chunk-count bullet of the collection summary.
pub open spec fn spec_count_bullet(
    key: Seq<char>,
    lead: Seq<char>,
    part: nat,
    total: nat,
    width: nat,
) -> Seq<char> {
    spec_bullet_indent(
        key,
        lead + spec_pad_left(spec_grouped(spec_decimal(part)), width) + " / "@ + spec_grouped(
            spec_decimal(total),
        ) + " ("@ + spec_percent(part, total) + "%)"@,
        4,
    )
}

/// The conclusion of a run, as plain lines: when it finished, the
/// most frequent errors when something failed, and the counts of
/// errored, skipped and collected chunks.
pub open spec fn spec_conclusion_lines(
    s: FreezeSummary,
    n_chunks: nat,
    done_at: Seq<char>,
    duration: Seq<char>,
) -> Seq<Seq<char>> {
    let width = spec_grouped(spec_decimal(n_chunks)).len();
    seq!["   done at "@ + done_at] + (
    if s.errored@.len() > 0 {
        seq!["...done (errors in "@ + spec_decimal(s.errored@.len()) + " chunks)"@]
    } else {
        Seq::<Seq<char>>::empty()
    }) + seq![""@, ""@] + spec_error_section(s.errored@) + seq![
        "collection summary"@,
        spec_underline("collection summary"@.len()),
        spec_bullet("total duration"@, duration),
        spec_bullet("total chunks"@, spec_grouped(spec_decimal(n_chunks))),
        spec_count_bullet("chunks errored"@, "  "@, s.errored@.len(), n_chunks, width),
        spec_count_bullet("chunks skipped"@, "  "@, s.skipped@.len(), n_chunks, width),
        spec_count_bullet("chunks collected"@, ""@, s.completed@.len(), n_chunks, width),
    ]
}

/// Builds the conclusion of a run: when it finished, the ten most
/// frequent errors when something failed, and the counts of errored,
/// skipped and collected chunks with their shares of the whole.
pub fn conclusion_lines(
    summary: &FreezeSummary,
    n_chunks: u64,
    done_at: &str,
    duration: &str,
) -> (r: Vec<String>)
    requires
        n_chunks > 0,
        summary.errored@.len() <= n_chunks,
        summary.skipped@.len() <= n_chunks,
        summary.completed@.len() <= n_chunks,
    ensures
        r.deep_view() == spec_conclusion_lines(
            *summary,
            n_chunks as nat,
            done_at@,
            duration@,
        ),
{
    let mut r: Vec<String> = Vec::new();
    let mut first = String::from_str("   done at ");
    first.append(done_at);
    r.push(first);
    if summary.errored.len() > 0 {
        let mut l = String::from_str("...done (errors in ");
        l.append(u64_to_string(summary.errored.len() as u64).as_str());
        l.append(" chunks)");
        r.push(l);
    }
    r.push(String::new());
    r.push(String::new());
    if summary.errored.len() > 0 {
        let hdr = header_lines("error summary");
        let h0 = hdr[0].clone();
        let h1 = hdr[1].clone();
        proof {
            assert(h0@ == "error summary"@);
            assert(h1@ == spec_underline("error summary"@.len()));
        }
        r.push(h0);
        r.push(h1);
        let mut l = String::from_str("(errors in ");
        l.append(u64_to_string(summary.errored.len() as u64).as_str());
        l.append(" chunks)");
        r.push(l);
        let counted = count_errors(&summary.errored);
        proof {
            assert(tallies_view(counted@) =~= spec_tallies(summary.errored@));
        }
        let tallies = sort_tallies(counted);
        let shown: usize = if tallies.len() <= 10 {
            tallies.len()
        } else {
            10
        };
        let ghost ts = spec_sort_tallies(spec_tallies(summary.errored@));
        proof {
            assert(tallies@.len() == ts.len());
            assert(forall|i: int|
                0 <= i < ts.len() ==> (#[trigger] tallies@[i]).0@ == ts[i].0 && tallies@[i].1 as int
                    == ts[i].1) by {
                assert(forall|i: int|
                    0 <= i < ts.len() ==> #[trigger] tallies_view(tallies@)[i] == ts[i]);
            }
        }
        let ghost base = r.deep_view();
        let mut t: usize = 0;
        proof {
            assert(base + Seq::new(0, |i: int| spec_tally_line(ts[i].0, ts[i].1)) =~= base);
        }
        while t < shown
            invariant
                t <= shown,
                shown <= tallies@.len(),
                shown as int == if ts.len() <= 10 {
                    ts.len() as int
                } else {
                    10int
                },
                tallies@.len() == ts.len(),
                forall|i: int| 0 <= i < ts.len() ==> (#[trigger] tallies@[i]).0@ == ts[i].0,
                forall|i: int| 0 <= i < ts.len() ==> (#[trigger] tallies@[i]).1 as int == ts[i].1,
                r.deep_view() == base + Seq::new(
                    t as nat,
                    |i: int| spec_tally_line(ts[i].0, ts[i].1),
                ),
            decreases shown - t,
        {
            let mut l = String::from_str("- ");
            l.append(tallies[t].0.as_str());
            l.append(" (");
            l.append(u64_to_string(tallies[t].1).as_str());
            l.append("x)");
            let ghost pre = r.deep_view();
            r.push(l);
            proof {
                assert(r.deep_view() =~= pre.push(spec_tally_line(ts[t as int].0, ts[t as int].1)));
                assert(r.deep_view() =~= base + Seq::new(
                    (t + 1) as nat,
                    |i: int| spec_tally_line(ts[i].0, ts[i].1),
                ));
            }
            t = t + 1;
        }
        proof {
            assert(r.deep_view() =~= base + Seq::new(
                shown as nat,
                |i: int| spec_tally_line(ts[i].0, ts[i].1),
            ));
        }
        if tallies.len() > 10 {
            let ghost pre = r.deep_view();
            r.push("...".to_owned());
            proof {
                assert(r.deep_view() =~= pre.push("..."@));
            }
        }
        proof {
            assert(r.deep_view() =~= base + spec_tally_lines(ts));
        }
        let ghost pre2 = r.deep_view();
        r.push(String::new());
        r.push(String::new());
        proof {
            reveal_strlit("");
            assert(""@ =~= Seq::<char>::empty());
            assert(r.deep_view() =~= pre2 + seq![""@, ""@]);
            assert(base =~= seq![
                "   done at "@ + done_at@,
                "...done (errors in "@ + spec_decimal(summary.errored@.len()) + " chunks)"@,
                ""@,
                ""@,
                "error summary"@,
                spec_underline("error summary"@.len()),
                "(errors in "@ + spec_decimal(summary.errored@.len()) + " chunks)"@,
            ]);
            assert(r.deep_view() =~= seq!["   done at "@ + done_at@] + seq![
                "...done (errors in "@ + spec_decimal(summary.errored@.len()) + " chunks)"@,
            ] + seq![""@, ""@] + spec_error_section(summary.errored@));
        }
    } else {
        proof {
            reveal_strlit("");
            assert(""@ =~= Seq::<char>::empty());
            assert(spec_error_section(summary.errored@) =~= Seq::<Seq<char>>::empty());
            assert(r.deep_view() =~= seq!["   done at "@ + done_at@] + seq![""@, ""@]
                + spec_error_section(summary.errored@));
        }
    }
    let hdr = header_lines("collection summary");
    let ghost base2 = r.deep_view();
    let h0 = hdr[0].clone();
    let h1 = hdr[1].clone();
    proof {
        assert(h0@ == "collection summary"@);
        assert(h1@ == spec_underline("collection summary"@.len()));
    }
    r.push(h0);
    r.push(h1);
    r.push(bullet_line("total duration", duration));
    let n_str = commafy(n_chunks);
    r.push(bullet_line("total chunks", n_str.as_str()));
    let width = n_str.unicode_len();
    let e_count = summary.errored.len() as u64;
    let s_count = summary.skipped.len() as u64;
    let c_count = summary.completed.len() as u64;
    let mut v = String::from_str("  ");
    v.append(pad_left(commafy(e_count).as_str(), width).as_str());
    v.append(" / ");
    v.append(n_str.as_str());
    v.append(" (");
    v.append(percent_str(e_count, n_chunks).as_str());
    v.append("%)");
    r.push(bullet_indent_line("chunks errored", v.as_str(), 4));
    let mut v2 = String::from_str("  ");
    v2.append(pad_left(commafy(s_count).as_str(), width).as_str());
    v2.append(" / ");
    v2.append(n_str.as_str());
    v2.append(" (");
    v2.append(percent_str(s_count, n_chunks).as_str());
    v2.append("%)");
    r.push(bullet_indent_line("chunks skipped", v2.as_str(), 4));
    let mut v3 = pad_left(commafy(c_count).as_str(), width);
    v3.append(" / ");
    v3.append(n_str.as_str());
    v3.append(" (");
    v3.append(percent_str(c_count, n_chunks).as_str());
    v3.append("%)");
    r.push(bullet_indent_line("chunks collected", v3.as_str(), 4));
    proof {
        assert(r.deep_view() =~= spec_conclusion_lines(
            *summary,
            n_chunks as nat,
            done_at@,
            duration@,
        ));
    }
    r
}

proof fn lemma_no_block_chunks(ps: Seq<Partition>)
    requires
        spec_block_chunk_count(ps) == 0,
    ensures
        spec_all_ranges(ps).len() == 0,
    decreases ps.len(),
{
    if ps.len() > 0 {
        lemma_count_nonneg(ps.drop_last());
        lemma_no_block_chunks(ps.drop_last());
    }
}

proof fn lemma_no_value_chunks(ps: Seq<Partition>, d: Dim)
    requires
        spec_value_chunk_count(ps, d) == 0,
    ensures
        spec_all_values(ps, d).len() == 0,
    decreases ps.len(),
{
    if ps.len() > 0 {
        lemma_value_count_nonneg(ps.drop_last(), d);
        lemma_no_value_chunks(ps.drop_last(), d);
    }
}

/// How many values each partitioned dimension completed, for
/// throughput reporting: blocks for the block dimension, values for
/// the others.
pub fn completed_counts(chunks: &Vec<Partition>, partition_by: &Vec<Dim>) -> (r: Vec<(Dim, u64)>)
    requires
        forall|i: int| 0 <= i < chunks@.len() ==> (#[trigger] chunks@[i]).wf(),
        spec_ranges_total(spec_all_ranges(chunks@)) <= u64::MAX,
        chunks@.len() <= u64::MAX,
        forall|d: Dim| #[trigger] spec_all_values(chunks@, d).len() <= u64::MAX,
    ensures
        r@.len() == partition_by@.len(),
        forall|i: int| 0 <= i < r@.len() ==> (#[trigger] r@[i]).0 == partition_by@[i],
        forall|i: int|
            0 <= i < r@.len() ==> (#[trigger] r@[i]).1 as int == (
            if partition_by@[i] is BlockNumber {
                spec_ranges_total(spec_all_ranges(chunks@))
            } else {
                spec_all_values(chunks@, partition_by@[i]).len() as int
            }),
{
    let mut r: Vec<(Dim, u64)> = Vec::new();
    let mut i: usize = 0;
    while i < partition_by.len()
        invariant
            i <= partition_by@.len(),
            forall|k: int| 0 <= k < chunks@.len() ==> (#[trigger] chunks@[k]).wf(),
            spec_ranges_total(spec_all_ranges(chunks@)) <= u64::MAX,
            chunks@.len() <= u64::MAX,
            forall|d: Dim| #[trigger] spec_all_values(chunks@, d).len() <= u64::MAX,
            r@.len() == i,
            forall|k: int| 0 <= k < i ==> (#[trigger] r@[k]).0 == partition_by@[k],
            forall|k: int|
                0 <= k < i ==> (#[trigger] r@[k]).1 as int == (
                if partition_by@[k] is BlockNumber {
                    spec_ranges_total(spec_all_ranges(chunks@))
                } else {
                    spec_all_values(chunks@, partition_by@[k]).len() as int
                }),
        decreases partition_by@.len() - i,
    {
        let d = partition_by[i];
        let count: u64 = match d {
            Dim::BlockNumber => {
                proof {
                    lemma_block_count_le_len(chunks@);
                }
                match block_stats(chunks) {
                    Some(st) => st.total_values,
                    None => {
                        proof {
                            lemma_no_block_chunks(chunks@);
                        }
                        0
                    },
                }
            },
            _ => {
                proof {
                    lemma_value_count_le_len(chunks@, d);
                }
                match value_stats(chunks, d) {
                    Some(st) => st.total_values,
                    None => {
                        proof {
                            lemma_no_value_chunks(chunks@, d);
                        }
                        0
                    },
                }
            },
        };
        r.push((d, count));
        i = i + 1;
    }
    r
}


/// The parts joined by the separator.
pub open spec fn spec_join(parts: Seq<Seq<char>>, sep: Seq<char>) -> Seq<char>
    decreases parts.len(),
{
    if parts.len() == 0 {
        Seq::empty()
    } else if parts.len() == 1 {
        parts[0]
    } else {
        spec_join(parts.drop_last(), sep) + sep + parts.last()
    }
}

/// Joins strings with a separator.
pub fn join_strings(parts: &Vec<String>, sep: &str) -> (r: String)
    ensures
        r@ == spec_join(parts.deep_view(), sep@),
{
    let mut acc = String::new();
    let mut i: usize = 0;
    proof {
        assert(parts.deep_view().take(0) =~= Seq::<Seq<char>>::empty());
    }
    while i < parts.len()
        invariant
            i <= parts@.len(),
            acc@ == spec_join(parts.deep_view().take(i as int), sep@),
        decreases parts@.len() - i,
    {
        if i > 0 {
            acc.append(sep);
        }
        acc.append(parts[i].as_str());
        proof {
            let pv = parts.deep_view();
            assert(pv.take(i as int + 1).drop_last() =~= pv.take(i as int));
            assert(pv.take(i as int + 1).last() == pv[i as int]);
            if i == 0 {
                assert(pv.take(1).len() == 1);
                assert(pv.take(1)[0] == pv[0]);
                assert(acc@ =~= spec_join(pv.take(1), sep@));
            }
        }
        i = i + 1;
    }
    proof {
        assert(parts.deep_view().take(parts.deep_view().len() as int) =~= parts.deep_view());
    }
    acc
}

/// The description lines of one selected column: one `- <name>:
/// <type>` bullet, or one per representation for a 256-bit column.
pub open spec fn spec_expand_column_lines(
    name: Seq<char>,
    typ: ColumnType,
    uts: Seq<U256Type>,
) -> Seq<Seq<char>>
    decreases uts.len(),
{
    if typ is UInt256 {
        if uts.len() == 0 {
            Seq::empty()
        } else {
            spec_expand_column_lines(name, typ, uts.drop_last()) + seq![
                spec_bullet(
                    name + uts.last().spec_suffix(),
                    uts.last().spec_to_columntype().spec_as_str(),
                ),
            ]
        }
    } else {
        seq![spec_bullet(name, typ.spec_as_str())]
    }
}

/// The description lines of every selected column, in order.
pub open spec fn spec_column_type_lines(
    cols: Seq<(Seq<char>, ColumnType)>,
    uts: Seq<U256Type>,
) -> Seq<Seq<char>>
    decreases cols.len(),
{
    if cols.len() == 0 {
        Seq::empty()
    } else {
        spec_column_type_lines(cols.drop_last(), uts) + spec_expand_column_lines(
            cols.last().0,
            cols.last().1,
            uts,
        )
    }
}

/// The names of the datatype's columns the selection left out.
pub open spec fn spec_other_columns(
    full: Seq<(Seq<char>, ColumnType)>,
    t: Table,
) -> Seq<Seq<char>>
    decreases full.len(),
{
    if full.len() == 0 {
        Seq::empty()
    } else {
        spec_other_columns(full.drop_last(), t) + (
        if t.spec_has_column(full.last().0) {
            Seq::<Seq<char>>::empty()
        } else {
            seq![full.last().0]
        })
    }
}

/// The sorting note of a schema.
pub open spec fn spec_sort_line(t: Table) -> Seq<char> {
    match t.sort_columns {
        Option::Some(sc) => "sorting "@ + t.datatype.spec_name() + " by: "@ + spec_join(
            sc.deep_view(),
            ", "@,
        ),
        Option::None => "sorting disabled for "@ + t.datatype.spec_name(),
    }
}

/// The description of one resolved schema: a header, one bullet per
/// output column with its type, the sorting note, and the datatype's
/// columns the selection left out.
pub open spec fn spec_schema_lines(t: Table) -> Seq<Seq<char>> {
    let header = "schema for "@ + t.datatype.spec_name();
    let others = spec_other_columns(crate::schemas::spec_datatype_columns(t.datatype), t);
    seq![header, spec_underline(header.len())] + spec_column_type_lines(
        t.spec_columns(),
        t.u256_types@,
    ) + seq![
        ""@,
        spec_sort_line(t),
        ""@,
        "other available columns: "@ + (
        if others.len() == 0 {
            "[none]"@
        } else {
            spec_join(others, ", "@)
        }),
    ]
}

/// Describes one resolved schema as plain lines.
pub fn print_schema(schema: &Table) -> (r: Vec<String>)
    ensures
        r.deep_view() == spec_schema_lines(*schema),
{
    let mut header = String::from_str("schema for ");
    header.append(schema.datatype.name());
    let hdr = header_lines(header.as_str());
    let mut r: Vec<String> = Vec::new();
    let h0 = hdr[0].clone();
    let h1 = hdr[1].clone();
    r.push(h0);
    r.push(h1);
    let ghost t = *schema;
    let mut i: usize = 0;
    proof {
        assert(r.deep_view() =~= seq![
            "schema for "@ + t.datatype.spec_name(),
            spec_underline(("schema for "@ + t.datatype.spec_name()).len()),
        ] + spec_column_type_lines(t.spec_columns().take(0), t.u256_types@));
    }
    while i < schema.columns.len()
        invariant
            *schema == t,
            i <= schema.columns@.len(),
            r.deep_view() == seq![
                "schema for "@ + t.datatype.spec_name(),
                spec_underline(("schema for "@ + t.datatype.spec_name()).len()),
            ] + spec_column_type_lines(t.spec_columns().take(i as int), t.u256_types@),
        decreases schema.columns@.len() - i,
    {
        let name: &String = &schema.columns[i].0;
        let typ = schema.columns[i].1;
        let ghost colpair = t.spec_columns()[i as int];
        let ghost pre = r.deep_view();
        let is_u256 = match typ {
            crate::schemas::ColumnType::UInt256 => true,
            _ => false,
        };
        if is_u256 {
            let mut j: usize = 0;
            proof {
                assert(spec_expand_column_lines(colpair.0, colpair.1, t.u256_types@.take(0))
                    =~= Seq::<Seq<char>>::empty());
                assert(r.deep_view() =~= pre + spec_expand_column_lines(
                    colpair.0,
                    colpair.1,
                    t.u256_types@.take(0),
                ));
            }
            while j < schema.u256_types.len()
                invariant
                    *schema == t,
                    i < schema.columns@.len(),
                    name@ == colpair.0,
                    colpair == t.spec_columns()[i as int],
                    colpair.1 is UInt256,
                    j <= schema.u256_types@.len(),
                    pre == r.deep_view().take(pre.len() as int) && pre.len() <= r.deep_view().len(),
                    r.deep_view() == pre + spec_expand_column_lines(
                        colpair.0,
                        colpair.1,
                        t.u256_types@.take(j as int),
                    ),
                decreases schema.u256_types@.len() - j,
            {
                let rep = schema.u256_types[j];
                let out_name = name.clone().concat(rep.suffix());
                let line = bullet_line(out_name.as_str(), rep.to_columntype().as_str());
                let ghost pn = r.deep_view();
                r.push(line);
                proof {
                    assert(r.deep_view() =~= pn.push(
                        spec_bullet(
                            colpair.0 + t.u256_types@[j as int].spec_suffix(),
                            t.u256_types@[j as int].spec_to_columntype().spec_as_str(),
                        ),
                    ));
                    assert(t.u256_types@.take(j as int + 1).drop_last() =~= t.u256_types@.take(
                        j as int,
                    ));
                    assert(t.u256_types@.take(j as int + 1).last() == t.u256_types@[j as int]);
                    assert(r.deep_view() =~= pre + spec_expand_column_lines(
                        colpair.0,
                        colpair.1,
                        t.u256_types@.take(j as int + 1),
                    ));
                    assert(pre =~= r.deep_view().take(pre.len() as int));
                }
                j = j + 1;
            }
            proof {
                assert(t.u256_types@.take(t.u256_types@.len() as int) =~= t.u256_types@);
            }
        } else {
            let line = bullet_line(name.as_str(), typ.as_str());
            r.push(line);
            proof {
                assert(r.deep_view() =~= pre + spec_expand_column_lines(
                    colpair.0,
                    colpair.1,
                    t.u256_types@,
                ));
            }
        }
        proof {
            assert(t.spec_columns().take(i as int + 1).drop_last() =~= t.spec_columns().take(
                i as int,
            ));
            assert(t.spec_columns().take(i as int + 1).last() == t.spec_columns()[i as int]);
            assert(r.deep_view() =~= seq![
                "schema for "@ + t.datatype.spec_name(),
                spec_underline(("schema for "@ + t.datatype.spec_name()).len()),
            ] + spec_column_type_lines(t.spec_columns().take(i as int + 1), t.u256_types@));
        }
        i = i + 1;
    }
    proof {
        assert(t.spec_columns().take(t.spec_columns().len() as int) =~= t.spec_columns());
    }
    r.push(String::new());
    let sort_line = match &schema.sort_columns {
        Option::Some(sc) => {
            let mut l = String::from_str("sorting ");
            l.append(schema.datatype.name());
            l.append(" by: ");
            l.append(join_strings(sc, ", ").as_str());
            l
        },
        Option::None => {
            let mut l = String::from_str("sorting disabled for ");
            l.append(schema.datatype.name());
            l
        },
    };
    r.push(sort_line);
    r.push(String::new());
    let full = crate::schemas::datatype_columns(schema.datatype);
    let mut others: Vec<String> = Vec::new();
    let mut k: usize = 0;
    proof {
        assert(others.deep_view() =~= spec_other_columns(
            crate::schemas::spec_datatype_columns(t.datatype).take(0),
            t,
        ));
    }
    while k < full.len()
        invariant
            *schema == t,
            k <= full@.len(),
            crate::schemas::spec_columns_view(full@) == crate::schemas::spec_datatype_columns(
                t.datatype,
            ),
            others.deep_view() == spec_other_columns(
                crate::schemas::spec_datatype_columns(t.datatype).take(k as int),
                t,
            ),
        decreases full@.len() - k,
    {
        let ghost fullv = crate::schemas::spec_datatype_columns(t.datatype);
        let ghost pre_o = others.deep_view();
        if !schema.has_column(full[k].0.as_str()) {
            others.push(full[k].0.clone());
            proof {
                assert(others.deep_view() =~= pre_o.push(fullv[k as int].0));
            }
        }
        proof {
            assert(fullv.take(k as int + 1).drop_last() =~= fullv.take(k as int));
            assert(fullv.take(k as int + 1).last() == fullv[k as int]);
            assert(others.deep_view() =~= spec_other_columns(fullv.take(k as int + 1), t));
        }
        k = k + 1;
    }
    proof {
        let fullv = crate::schemas::spec_datatype_columns(t.datatype);
        assert(fullv.take(fullv.len() as int) =~= fullv);
    }
    let mut last = String::from_str("other available columns: ");
    if others.len() == 0 {
        last.append("[none]");
    } else {
        last.append(join_strings(&others, ", ").as_str());
    }
    r.push(last);
    proof {
        reveal_strlit("");
        assert(""@ =~= Seq::<char>::empty());
        assert(r.deep_view() =~= spec_schema_lines(t));
    }
    r
}

} // verus!
