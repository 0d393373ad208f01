//! Decomposition of block ranges into chunks.
//!
//! A chunk of blocks is a closed interval.  Chunking splits the
//! user-supplied range into consecutive chunks of a requested size (or
//! a requested count), and `lemma_chunks_partition` shows that the
//! chunks are a partition of the input: laid end to end they are
//! exactly the blocks of the range, in order, without gap or overlap.

use vstd::prelude::*;
use vstd::string::*;
use crate::error::CollectError;

verus! {

/// Every character of `s` is a decimal digit, and there is at least one.
pub open spec fn is_dec_digits(s: Seq<char>) -> bool {
    s.len() > 0 && forall|i: int| 0 <= i < s.len() ==> '0' <= #[trigger] s[i] <= '9'
}

/// The number the decimal digits of `s` denote.
pub open spec fn spec_dec_value(s: Seq<char>) -> int
    decreases s.len(),
{
    if s.len() == 0 {
        0
    } else {
        spec_dec_value(s.drop_last()) * 10 + (s.last() as u32 - 48)
    }
}

proof fn lemma_dec_value_nonneg(s: Seq<char>)
    requires
        forall|i: int| 0 <= i < s.len() ==> '0' <= #[trigger] s[i] <= '9',
    ensures
        spec_dec_value(s) >= 0,
    decreases s.len(),
{
    if s.len() > 0 {
        lemma_dec_value_nonneg(s.drop_last());
    }
}

proof fn lemma_dec_value_prefix_mono(s: Seq<char>, i: int, j: int)
    requires
        0 <= i <= j <= s.len(),
        forall|k: int| 0 <= k < j ==> '0' <= #[trigger] s[k] <= '9',
    ensures
        spec_dec_value(s.take(i)) <= spec_dec_value(s.take(j)),
    decreases j - i,
{
    if i < j {
        lemma_dec_value_prefix_mono(s, i, j - 1);
        assert(s.take(j).drop_last() =~= s.take(j - 1));
        assert(forall|k: int|
            0 <= k < j - 1 ==> '0' <= #[trigger] s.take(j - 1)[k] <= '9');
        lemma_dec_value_nonneg(s.take(j - 1));
    }
}

/// A closed interval of block numbers.
#[derive(Debug, Clone, Copy, PartialEq, Eq, Structural)]
pub struct BlockRange {
    /// First block of the interval.
    pub start: u64,
    /// Last block of the interval, inclusive.
    pub end: u64,
}

impl BlockRange {
    /// A range is well formed when it holds at least one block.
    pub open spec fn wf(self) -> bool {
        self.start <= self.end
    }

    /// How many blocks the range holds.
    pub open spec fn n_blocks(self) -> int {
        self.end - self.start + 1
    }

    /// The blocks of the range, in ascending order.
    pub open spec fn blocks(self) -> Seq<u64> {
        Seq::new(self.n_blocks() as nat, |i: int| (self.start + i) as u64)
    }
}

/// The chunks are consecutive, non-empty, and laid end to end they
/// span `range` exactly.
pub open spec fn chunks_partition(range: BlockRange, chunks: Seq<BlockRange>) -> bool {
    &&& chunks.len() > 0
    &&& chunks[0].start == range.start
    &&& chunks.last().end == range.end
    &&& forall|i: int| 0 <= i < chunks.len() ==> (#[trigger] chunks[i]).wf()
    &&& forall|i: int|
        0 <= i < chunks.len() - 1 ==> (#[trigger] chunks[i]).end + 1 == chunks[i + 1].start
}

/// Every chunk holds `chunk_size` blocks, except the last, which holds
/// at most that many.
pub open spec fn chunk_sizes_ok(chunks: Seq<BlockRange>, chunk_size: int) -> bool {
    &&& forall|i: int|
        0 <= i < chunks.len() - 1 ==> (#[trigger] chunks[i]).n_blocks() == chunk_size
    &&& chunks.len() > 0 ==> chunks.last().n_blocks() <= chunk_size
}

/// Splits `range` into consecutive chunks of `chunk_size` blocks each;
/// the last chunk keeps the remainder.  Rejects a chunk size of zero.
pub fn get_subchunks_by_size(range: BlockRange, chunk_size: u64) -> (r: Result<
    Vec<BlockRange>,
    CollectError,
>)
    requires
        range.wf(),
    ensures
        match r {
            Ok(chunks) => {
                &&& chunk_size >= 1
                &&& chunks_partition(range, chunks@)
                &&& chunk_sizes_ok(chunks@, chunk_size as int)
            },
            Err(e) => chunk_size == 0 && e is BadParams,
        },
{
    if chunk_size == 0 {
        return Err(CollectError::BadParams("chunk size must be at least 1".to_owned()));
    }
    let mut chunks: Vec<BlockRange> = Vec::new();
    let mut lo: u64 = range.start;
    while range.end - lo >= chunk_size
        invariant
            range.wf(),
            chunk_size >= 1,
            range.start <= lo <= range.end,
            chunks@.len() > 0 ==> chunks@[0].start == range.start,
            chunks@.len() == 0 ==> lo == range.start,
            chunks@.len() > 0 ==> chunks@.last().end + 1 == lo,
            forall|i: int| 0 <= i < chunks@.len() ==> (#[trigger] chunks@[i]).wf(),
            forall|i: int|
                0 <= i < chunks@.len() - 1 ==> (#[trigger] chunks@[i]).end + 1 == chunks@[i
                    + 1].start,
            forall|i: int|
                0 <= i < chunks@.len() ==> (#[trigger] chunks@[i]).n_blocks() == chunk_size,
        decreases range.end - lo,
    {
        let hi = lo + (chunk_size - 1);
        chunks.push(BlockRange { start: lo, end: hi });
        lo = hi + 1;
    }
    chunks.push(BlockRange { start: lo, end: range.end });
    Ok(chunks)
}

/// The chunk size that `get_subchunks_by_count` derives: the total
/// block count divided by the requested chunk count, rounded up, and
/// clamped to `u64`.
pub open spec fn spec_count_chunk_size(range: BlockRange, n_chunks: int) -> int {
    let ceil = (range.n_blocks() + n_chunks - 1) / n_chunks;
    if ceil > u64::MAX { u64::MAX as int } else { ceil }
}

/// Splits `range` into about `n_chunks` consecutive chunks.  Rejects a
/// chunk count of zero.
pub fn get_subchunks_by_count(range: BlockRange, n_chunks: u64) -> (r: Result<
    Vec<BlockRange>,
    CollectError,
>)
    requires
        range.wf(),
    ensures
        match r {
            Ok(chunks) => {
                &&& n_chunks >= 1
                &&& chunks_partition(range, chunks@)
                &&& chunk_sizes_ok(chunks@, spec_count_chunk_size(range, n_chunks as int))
            },
            Err(e) => n_chunks == 0 && e is BadParams,
        },
{
    if n_chunks == 0 {
        return Err(CollectError::BadParams("chunk count must be at least 1".to_owned()));
    }
    let total: u128 = (range.end - range.start) as u128 + 1;
    let ceil: u128 = (total + (n_chunks - 1) as u128) / n_chunks as u128;
    let chunk_size: u64 = if ceil > u64::MAX as u128 {
        u64::MAX
    } else {
        ceil as u64
    };
    proof {
        assert(total + (n_chunks - 1) as u128 >= n_chunks as u128);
        vstd::arithmetic::div_mod::lemma_div_is_ordered(
            n_chunks as int,
            total as int + (n_chunks - 1) as int,
            n_chunks as int,
        );
        vstd::arithmetic::div_mod::lemma_div_by_self(n_chunks as int);
        assert(chunk_size as int == spec_count_chunk_size(range, n_chunks as int));
        assert(chunk_size >= 1);
    }
    match get_subchunks_by_size(range, chunk_size) {
        Ok(chunks) => Ok(chunks),
        Err(e) => Err(e),
    }
}

/// The blocks of a chunk list, laid end to end in order.
pub open spec fn chunk_blocks(chunks: Seq<BlockRange>) -> Seq<u64>
    decreases chunks.len(),
{
    if chunks.len() == 0 {
        Seq::empty()
    } else {
        chunk_blocks(chunks.drop_last()) + chunks.last().blocks()
    }
}


/// Chunk lists concatenate pointwise: the blocks of `a + b` are the
/// blocks of `a` then the blocks of `b`.
pub proof fn lemma_chunk_blocks_concat(a: Seq<BlockRange>, b: Seq<BlockRange>)
    ensures
        chunk_blocks(a + b) == chunk_blocks(a) + chunk_blocks(b),
    decreases b.len(),
{
    if b.len() == 0 {
        assert(a + b =~= a);
        assert(chunk_blocks(a) + chunk_blocks(b) =~= chunk_blocks(a));
    } else {
        lemma_chunk_blocks_concat(a, b.drop_last());
        assert((a + b).drop_last() =~= a + b.drop_last());
        assert((a + b).last() == b.last());
        assert(chunk_blocks(a + b) =~= chunk_blocks(a) + chunk_blocks(b));
    }
}

/// In a chunk list that partitions a range, a later chunk lies wholly
/// above an earlier one.
pub proof fn lemma_chunks_disjoint(chunks: Seq<BlockRange>, i: int, j: int)
    requires
        forall|k: int| 0 <= k < chunks.len() ==> (#[trigger] chunks[k]).wf(),
        forall|k: int|
            0 <= k < chunks.len() - 1 ==> (#[trigger] chunks[k]).end + 1 == chunks[k + 1].start,
        0 <= i < j < chunks.len(),
    ensures
        chunks[i].end < chunks[j].start,
    decreases j - i,
{
    if j == i + 1 {
    } else {
        lemma_chunks_disjoint(chunks, i + 1, j);
    }
}

/// Chunking is a partition of the input: the chunks laid end to end
/// are exactly the blocks of the range, in ascending order — full
/// coverage, no overlap, no duplicate.
pub proof fn lemma_chunks_partition(range: BlockRange, chunks: Seq<BlockRange>)
    requires
        range.wf(),
        chunks_partition(range, chunks),
    ensures
        chunk_blocks(chunks) == range.blocks(),
        forall|i: int, j: int|
            0 <= i < j < chunks.len() ==> (#[trigger] chunks[i]).end < (#[trigger] chunks[j]).start,
    decreases chunks.len(),
{
    assert forall|i: int, j: int| 0 <= i < j < chunks.len() implies (#[trigger] chunks[i]).end < (
    #[trigger] chunks[j]).start by {
        lemma_chunks_disjoint(chunks, i, j);
    }
    if chunks.len() == 1 {
        assert(chunks.drop_last().len() == 0);
        assert(chunk_blocks(chunks.drop_last()) =~= Seq::<u64>::empty());
        assert(chunks.last() == chunks[0]);
        assert(chunk_blocks(chunks) =~= chunks[0].blocks());
        assert(chunks[0].blocks() =~= range.blocks());
    } else {
        let front = chunks.drop_last();
        let m = chunks[chunks.len() - 2];
        if range.start > m.end {
            lemma_chunks_disjoint(chunks, 0, chunks.len() - 2);
            assert(false);
        }
        let sub = BlockRange { start: range.start, end: m.end };
        assert(front.last() == m);
        assert(forall|i: int| 0 <= i < front.len() ==> front[i] == chunks[i]);
        lemma_chunks_partition(sub, front);
        assert(chunk_blocks(chunks) =~= range.blocks());
    }
}

/// Groups a list of dimension values into consecutive groups of
/// `group_size` values; the last group keeps the remainder.  Rejects a
/// group size of zero.  Laid end to end the groups are exactly the
/// input values, in order.
pub fn chunk_values(values: Vec<Vec<u8>>, group_size: u64) -> (r: Result<
    Vec<Vec<Vec<u8>>>,
    CollectError,
>)
    ensures
        match r {
            Ok(groups) => {
                &&& group_size >= 1
                &&& groups.deep_view().flatten() == values.deep_view()
                &&& forall|i: int|
                    0 <= i < groups@.len() ==> (#[trigger] groups@[i]).len() <= group_size
                &&& forall|i: int|
                    0 <= i < groups@.len() - 1 ==> (#[trigger] groups@[i]).len() == group_size
            },
            Err(e) => group_size == 0 && e is BadParams,
        },
{
    if group_size == 0 {
        return Err(CollectError::BadParams("group size must be at least 1".to_owned()));
    }
    let mut groups: Vec<Vec<Vec<u8>>> = Vec::new();
    let mut current: Vec<Vec<u8>> = Vec::new();
    let mut i: usize = 0;
    proof {
        assert(groups.deep_view().flatten() + current.deep_view() =~= values.deep_view().take(0));
    }
    while i < values.len()
        invariant
            group_size >= 1,
            i <= values@.len(),
            groups.deep_view().flatten() + current.deep_view() == values.deep_view().take(i as int),
            current@.len() < group_size,
            forall|k: int| 0 <= k < groups@.len() ==> (#[trigger] groups@[k]).len() == group_size,
        decreases values@.len() - i,
    {
        let v = values[i].clone();
        proof {
            assert(v.deep_view() =~= values.deep_view()[i as int]);
        }
        let ghost cd = current.deep_view();
        current.push(v);
        i = i + 1;
        proof {
            let vd = values.deep_view();
            let fl = groups.deep_view().flatten();
            assert(current.deep_view() =~= cd.push(vd[i - 1]));
            assert(vd.take(i as int) =~= vd.take(i - 1).push(vd[i - 1]));
            assert(fl + cd.push(vd[i - 1]) =~= (fl + cd).push(vd[i - 1]));
            assert(fl + current.deep_view() =~= vd.take(i as int));
        }
        if current.len() as u64 == group_size {
            let done = current;
            current = Vec::new();
            let ghost gd = groups.deep_view();
            groups.push(done);
            proof {
                assert(groups.deep_view() =~= gd.push(done.deep_view()));
                gd.lemma_flatten_push(done.deep_view());
            }
        }
    }
    if current.len() > 0 {
        let done = current;
        let ghost gd = groups.deep_view();
        groups.push(done);
        proof {
            assert(groups.deep_view() =~= gd.push(done.deep_view()));
            gd.lemma_flatten_push(done.deep_view());
        }
    }
    proof {
        assert(values.deep_view().take(values@.len() as int) =~= values.deep_view());
    }
    Ok(groups)
}

/// Parses the characters of `s` from `from` to `to` as a decimal number.
fn parse_u64_chars(s: &str, from: usize, to: usize) -> (r: Option<u64>)
    requires
        from <= to <= s@.len(),
    ensures
        match r {
            Some(v) => {
                &&& is_dec_digits(s@.subrange(from as int, to as int))
                &&& v as int == spec_dec_value(s@.subrange(from as int, to as int))
            },
            None => {
                ||| !is_dec_digits(s@.subrange(from as int, to as int))
                ||| spec_dec_value(s@.subrange(from as int, to as int)) > u64::MAX
            },
        },
{
    let ghost d = s@.subrange(from as int, to as int);
    if from == to {
        return None;
    }
    let mut acc: u64 = 0;
    let mut i: usize = from;
    while i < to
        invariant
            from <= i <= to <= s@.len(),
            d == s@.subrange(from as int, to as int),
            acc as int == spec_dec_value(d.take(i - from)),
            forall|k: int| 0 <= k < i - from ==> '0' <= #[trigger] d[k] <= '9',
        decreases to - i,
    {
        let c = s.get_char(i);
        assert(c == d[i - from]);
        if c < '0' || c > '9' {
            return None;
        }
        let dv: u32 = c as u32 - 48;
        let wide: u128 = acc as u128 * 10 + dv as u128;
        proof {
            assert(d.take(i - from + 1).drop_last() =~= d.take(i - from));
            assert(d.take(i - from + 1).last() == d[i - from]);
        }
        if wide > u64::MAX as u128 {
            proof {
                if is_dec_digits(d) {
                    lemma_dec_value_prefix_mono(d, i - from + 1, d.len() as int);
                    assert(d.take(d.len() as int) =~= d);
                }
            }
            return None;
        }
        acc = wide as u64;
        i = i + 1;
    }
    proof {
        assert(d.take(d.len() as int) =~= d);
    }
    Some(acc)
}

/// Whether `s` holds a colon.
pub open spec fn spec_has_colon(s: Seq<char>) -> bool {
    exists|i: int| 0 <= i < s.len() && s[i] == ':'
}

/// `i` is the position of the first colon of `s`.
pub open spec fn is_first_colon(s: Seq<char>, i: int) -> bool {
    0 <= i < s.len() && s[i] == ':' && (forall|k: int| 0 <= k < i ==> #[trigger] s[k] != ':')
}

/// The position of the first colon of `s`.
pub open spec fn spec_colon_at(s: Seq<char>) -> int {
    choose|i: int| is_first_colon(s, i)
}

/// Finds the first colon of `s`, if any.
fn find_colon(s: &str) -> (r: Option<usize>)
    ensures
        match r {
            Some(i) => {
                &&& i < s@.len()
                &&& s@[i as int] == ':'
                &&& forall|k: int| 0 <= k < i ==> #[trigger] s@[k] != ':'
            },
            None => forall|k: int| 0 <= k < s@.len() ==> #[trigger] s@[k] != ':',
        },
{
    let n = s.unicode_len();
    let mut i: usize = 0;
    while i < n
        invariant
            i <= n == s@.len(),
            forall|k: int| 0 <= k < i ==> #[trigger] s@[k] != ':',
        decreases n - i,
    {
        if s.get_char(i) == ':' {
            return Some(i);
        }
        i = i + 1;
    }
    None
}

/// The block range a textual block input denotes: either one block
/// number `n`, or a half-open range `start:end`.
pub open spec fn spec_block_input(s: Seq<char>) -> Option<BlockRange> {
    if spec_has_colon(s) {
        let i = spec_colon_at(s);
        let a = s.take(i);
        let b = s.skip(i + 1);
        if is_dec_digits(a) && is_dec_digits(b) && spec_dec_value(a) <= u64::MAX
            && spec_dec_value(b) <= u64::MAX && spec_dec_value(a) < spec_dec_value(b) {
            Some(
                BlockRange {
                    start: spec_dec_value(a) as u64,
                    end: (spec_dec_value(b) - 1) as u64,
                },
            )
        } else {
            None
        }
    } else {
        if is_dec_digits(s) && spec_dec_value(s) <= u64::MAX {
            Some(BlockRange { start: spec_dec_value(s) as u64, end: spec_dec_value(s) as u64 })
        } else {
            None
        }
    }
}

/// Parses one block input: a block number `n`, or a range `start:end`
/// with `end` exclusive, which denotes the closed interval
/// `[start, end - 1]`.  Rejects empty ranges and anything that is not
/// a number or a range of numbers.
pub fn parse_block_input(s: &str) -> (r: Result<BlockRange, CollectError>)
    ensures
        match r {
            Ok(c) => spec_block_input(s@) == Some(c) && c.wf(),
            Err(e) => spec_block_input(s@) is None && e is BadParams,
        },
{
    let n = s.unicode_len();
    match find_colon(s) {
        Some(i) => {
            proof {
                assert(is_first_colon(s@, i as int));
                assert(spec_has_colon(s@));
                let c = spec_colon_at(s@);
                assert(is_first_colon(s@, c));
                if c < i {
                    assert(s@[c] != ':');
                } else if c > i {
                    assert(s@[i as int] != ':');
                }
                assert(c == i as int);
            }
            let a = parse_u64_chars(s, 0, i);
            let b = parse_u64_chars(s, i + 1, n);
            proof {
                assert(s@.take(i as int) =~= s@.subrange(0, i as int));
                assert(s@.skip(i as int + 1) =~= s@.subrange(i as int + 1, s@.len() as int));
            }
            match (a, b) {
                (Some(av), Some(bv)) => {
                    if av < bv {
                        Ok(BlockRange { start: av, end: bv - 1 })
                    } else {
                        Err(CollectError::BadParams("empty block range".to_owned()))
                    }
                },
                _ => Err(CollectError::BadParams("invalid block range".to_owned())),
            }
        },
        None => {
            proof {
                assert(!spec_has_colon(s@));
                assert(s@.subrange(0, s@.len() as int) == s@);
            }
            match parse_u64_chars(s, 0, n) {
                Some(v) => Ok(BlockRange { start: v, end: v }),
                None => Err(CollectError::BadParams("invalid block number".to_owned())),
            }
        },
    }
}

/// Parses the user's block inputs, one range per entry.
pub fn parse_block_inputs(inputs: &Vec<String>) -> (r: Result<Vec<BlockRange>, CollectError>)
    ensures
        match r {
            Ok(ranges) => {
                &&& inputs@.len() > 0
                &&& ranges@.len() == inputs@.len()
                &&& forall|j: int|
                    0 <= j < inputs@.len() ==> spec_block_input(#[trigger] inputs@[j]@) == Some(
                        ranges@[j],
                    ) && ranges@[j].wf()
            },
            Err(e) => {
                &&& e is BadParams
                &&& inputs@.len() == 0 || exists|j: int|
                    0 <= j < inputs@.len() && spec_block_input(#[trigger] inputs@[j]@) is None
            },
        },
{
    if inputs.len() == 0 {
        return Err(CollectError::BadParams("no block inputs given".to_owned()));
    }
    let mut ranges: Vec<BlockRange> = Vec::new();
    let mut j: usize = 0;
    while j < inputs.len()
        invariant
            j <= inputs@.len(),
            ranges@.len() == j,
            forall|k: int|
                0 <= k < j ==> spec_block_input(#[trigger] inputs@[k]@) == Some(ranges@[k])
                    && ranges@[k].wf(),
        decreases inputs@.len() - j,
    {
        match parse_block_input(inputs[j].as_str()) {
            Ok(c) => ranges.push(c),
            Err(e) => {
                return Err(e);
            },
        }
        j = j + 1;
    }
    Ok(ranges)
}

} // verus!
