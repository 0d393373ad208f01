//! Resolution of user options into a frozen run configuration.
//!
//! Everything here is pure: the binary gathers arguments, environment
//! values and the probed chain id, and hands them over as plain
//! values.

use vstd::prelude::*;
use vstd::string::*;
use crate::chunks::{
    chunk_blocks, chunks_partition, chunk_sizes_ok, get_subchunks_by_count, get_subchunks_by_size,
    lemma_chunk_blocks_concat, lemma_chunks_partition, parse_block_inputs, spec_block_input,
    spec_count_chunk_size, BlockRange,
};
use crate::datatypes::Datatype;
use crate::error::CollectError;
use crate::schemas::{
    parse_sort, spec_datatype_columns, spec_default_u256_types, spec_name_list,
    spec_output_names_of, spec_select, spec_unique, ColumnEncoding, Schemas,
};
use crate::textfmt::{spec_decimal, str_eq, u64_to_string};

verus! {

/// The format of the output files.
#[derive(Debug, Clone, Copy, PartialEq, Eq, Structural)]
pub enum FileFormat {
    /// Parquet files.
    Parquet,
    /// Comma-separated text files.
    Csv,
    /// JSON files.
    Json,
}

impl FileFormat {
    /// The display name of the format.
    pub open spec fn spec_as_str(self) -> Seq<char> {
        match self {
            FileFormat::Parquet => "parquet"@,
            FileFormat::Csv => "csv"@,
            FileFormat::Json => "json"@,
        }
    }

    /// The display name of the format.
    pub fn as_str(&self) -> (r: &'static str)
        ensures
            r@ == self.spec_as_str(),
    {
        match self {
            FileFormat::Parquet => "parquet",
            FileFormat::Csv => "csv",
            FileFormat::Json => "json",
        }
    }
}

/// The datatype a command-line name denotes, if any.
pub open spec fn spec_parse_datatype(s: Seq<char>) -> Option<Datatype> {
    if s == "blocks"@ {
        Option::Some(Datatype::Blocks)
    } else if s == "logs"@ || s == "events"@ {
        Option::Some(Datatype::Logs)
    } else if s == "transactions"@ || s == "txs"@ {
        Option::Some(Datatype::Transactions)
    } else {
        Option::None
    }
}

/// Parses one datatype name.  Rejects a name the engine does not
/// know.
pub fn parse_datatype(datatype: &str) -> (r: Result<Datatype, CollectError>)
    ensures
        match r {
            Ok(d) => spec_parse_datatype(datatype@) == Option::Some(d),
            Err(e) => spec_parse_datatype(datatype@) is None && e is BadParams,
        },
{
    if str_eq(datatype, "blocks") {
        Ok(Datatype::Blocks)
    } else if str_eq(datatype, "logs") || str_eq(datatype, "events") {
        Ok(Datatype::Logs)
    } else if str_eq(datatype, "transactions") || str_eq(datatype, "txs") {
        Ok(Datatype::Transactions)
    } else {
        Err(CollectError::BadParams("invalid datatype".to_owned()))
    }
}

/// Whether a url begins with `http`.
pub open spec fn spec_starts_http(s: Seq<char>) -> bool {
    s.len() >= 4 && s.subrange(0, 4) == "http"@
}

/// The resolved rpc url: the command-line url when given, else the
/// environment's; either is prefixed with `http://` when it does not
/// begin with `http`.  Fails when neither is given.
pub open spec fn spec_rpc_url(cli: Option<Seq<char>>, env_url: Option<Seq<char>>) -> Option<
    Seq<char>,
> {
    let src = match cli {
        Option::Some(u) => Option::Some(u),
        Option::None => env_url,
    };
    match src {
        Option::None => Option::None,
        Option::Some(u) => Option::Some(
            if spec_starts_http(u) {
                u
            } else {
                "http://"@ + u
            },
        ),
    }
}

/// The view of an optional string.
pub open spec fn spec_opt_str(o: Option<String>) -> Option<Seq<char>> {
    match o {
        Option::None => Option::None,
        Option::Some(s) => Option::Some(s@),
    }
}

fn starts_with_http(s: &str) -> (r: bool)
    ensures
        r == spec_starts_http(s@),
{
    let n = s.unicode_len();
    if n < 4 {
        proof {
            assert(!spec_starts_http(s@));
        }
        return false;
    }
    let r = s.get_char(0) == 'h' && s.get_char(1) == 't' && s.get_char(2) == 't' && s.get_char(3)
        == 'p';
    proof {
        reveal_strlit("http");
        if r {
            assert(s@.subrange(0, 4) =~= "http"@);
        } else {
            assert(s@.subrange(0, 4)[0] == s@[0]);
            assert(s@.subrange(0, 4)[1] == s@[1]);
            assert(s@.subrange(0, 4)[2] == s@[2]);
            assert(s@.subrange(0, 4)[3] == s@[3]);
        }
    }
    r
}

/// Resolves the rpc url from the command line and the environment.
pub fn parse_rpc_url(cli_rpc: &Option<String>, env_url: &Option<String>) -> (r: Result<
    String,
    CollectError,
>)
    ensures
        match r {
            Ok(u) => spec_rpc_url(spec_opt_str(*cli_rpc), spec_opt_str(*env_url)) == Option::Some(
                u@,
            ),
            Err(e) => {
                &&& spec_rpc_url(spec_opt_str(*cli_rpc), spec_opt_str(*env_url)) is None
                &&& e is BadParams
            },
        },
{
    let src: &String = match cli_rpc {
        Option::Some(u) => u,
        Option::None => {
            match env_url {
                Option::Some(u) => u,
                Option::None => {
                    return Err(
                        CollectError::BadParams("must provide --rpc or set ETH_RPC_URL".to_owned()),
                    );
                },
            }
        },
    };
    if starts_with_http(src.as_str()) {
        Ok(src.clone())
    } else {
        let mut u = String::from_str("http://");
        u.append(src.as_str());
        Ok(u)
    }
}

/// The network name: the user's override when given; `ethereum` for
/// chain id one; else `network_<id>`.
pub open spec fn spec_network_name(override_name: Option<Seq<char>>, chain_id: u64) -> Seq<char> {
    match override_name {
        Option::Some(n) => n,
        Option::None => if chain_id == 1 {
            "ethereum"@
        } else {
            "network_"@ + spec_decimal(chain_id as nat)
        },
    }
}

/// Resolves the network name from the override and the probed chain
/// id.
pub fn network_name(override_name: &Option<String>, chain_id: u64) -> (r: String)
    ensures
        r@ == spec_network_name(spec_opt_str(*override_name), chain_id),
{
    match override_name {
        Option::Some(n) => n.clone(),
        Option::None => {
            if chain_id == 1 {
                "ethereum".to_owned()
            } else {
                let mut s = String::from_str("network_");
                s.append(u64_to_string(chain_id).as_str());
                s
            }
        },
    }
}

/// Resolves the output format.  The `csv` and `json` switches are
/// mutually exclusive, and both are rejected until binary columns can
/// be hex-encoded; only parquet output is accepted.
pub fn parse_output_format(csv: bool, json: bool) -> (r: Result<FileFormat, CollectError>)
    ensures
        match r {
            Ok(f) => f == FileFormat::Parquet && !csv && !json,
            Err(e) => (csv || json) && e is BadParams,
        },
{
    if csv && json {
        Err(CollectError::BadParams("choose one of parquet, csv, or json".to_owned()))
    } else if csv || json {
        Err(
            CollectError::BadParams(
                "non-parquet not supported until hex encoding implemented".to_owned(),
            ),
        )
    } else {
        Ok(FileFormat::Parquet)
    }
}

/// The concurrency calibration: from the optional caps on requests,
/// chunks and blocks, the `(chunks, blocks)` pair actually used.  The
/// table is total: every combination yields a pair or a rejection,
/// and a rejection comes only from a zero divisor or from all three
/// caps given without `requests == chunks * blocks`.
pub open spec fn spec_calibrate(mr: Option<u64>, mc: Option<u64>, mb: Option<u64>) -> Option<
    (u64, u64),
> {
    match (mr, mc, mb) {
        (Option::None, Option::None, Option::None) => Option::Some((32u64, 3u64)),
        (Option::Some(r), Option::None, Option::None) => Option::Some(
            ((if r / 3 >= 1 { r / 3 } else { 1u64 }), 3u64),
        ),
        (Option::None, Option::Some(c), Option::None) => Option::Some((c, 3u64)),
        (Option::None, Option::None, Option::Some(b)) => {
            if b == 0 {
                Option::None
            } else {
                Option::Some(((if 100u64 / b >= 1 { 100u64 / b } else { 1u64 }), b))
            }
        },
        (Option::Some(r), Option::Some(c), Option::None) => {
            if c == 0 {
                Option::None
            } else {
                Option::Some((c, (if r / c >= 1 { r / c } else { 1u64 })))
            }
        },
        (Option::None, Option::Some(c), Option::Some(b)) => Option::Some((c, b)),
        (Option::Some(r), Option::None, Option::Some(b)) => {
            if b == 0 {
                Option::None
            } else {
                Option::Some(((if r / b >= 1 { r / b } else { 1u64 }), b))
            }
        },
        (Option::Some(r), Option::Some(c), Option::Some(b)) => {
            if r == c * b {
                Option::Some((c, b))
            } else {
                Option::None
            }
        },
    }
}

/// Derives the chunk and block concurrency caps from the user's three
/// optional caps, following the calibration table.
pub fn parse_concurrency_args(
    max_concurrent_requests: Option<u64>,
    max_concurrent_chunks: Option<u64>,
    max_concurrent_blocks: Option<u64>,
) -> (r: Result<(u64, u64), CollectError>)
    ensures
        match r {
            Ok(p) => spec_calibrate(
                max_concurrent_requests,
                max_concurrent_chunks,
                max_concurrent_blocks,
            ) == Option::Some(p),
            Err(e) => spec_calibrate(
                max_concurrent_requests,
                max_concurrent_chunks,
                max_concurrent_blocks,
            ) is None && e is BadParams,
        },
{
    match (max_concurrent_requests, max_concurrent_chunks, max_concurrent_blocks) {
        (None, None, None) => Ok((32, 3)),
        (Some(r), None, None) => {
            let c = r / 3;
            Ok(((if c >= 1 { c } else { 1 }), 3))
        },
        (None, Some(c), None) => Ok((c, 3)),
        (None, None, Some(b)) => {
            if b == 0 {
                Err(CollectError::BadParams("max_concurrent_blocks must be at least 1".to_owned()))
            } else {
                let c = 100 / b;
                Ok(((if c >= 1 { c } else { 1 }), b))
            }
        },
        (Some(r), Some(c), None) => {
            if c == 0 {
                Err(CollectError::BadParams("max_concurrent_chunks must be at least 1".to_owned()))
            } else {
                let b = r / c;
                Ok((c, (if b >= 1 { b } else { 1 })))
            }
        },
        (None, Some(c), Some(b)) => Ok((c, b)),
        (Some(r), None, Some(b)) => {
            if b == 0 {
                Err(CollectError::BadParams("max_concurrent_blocks must be at least 1".to_owned()))
            } else {
                let c = r / b;
                Ok(((if c >= 1 { c } else { 1 }), b))
            }
        },
        (Some(r), Some(c), Some(b)) => {
            proof {
                assert((c as int) * (b as int) <= (0xffff_ffff_ffff_ffffu64 as int) * (
                0xffff_ffff_ffff_ffffu64 as int)) by (nonlinear_arith)
                    requires
                        c <= 0xffff_ffff_ffff_ffffu64,
                        b <= 0xffff_ffff_ffff_ffffu64,
                ;
            }
            let prod: u128 = c as u128 * b as u128;
            if r as u128 == prod {
                proof {
                    assert(r == c * b);
                }
                Ok((c, b))
            } else {
                proof {
                    assert(r != c * b);
                }
                Err(
                    CollectError::BadParams(
                        "max_concurrent_requests should equal max_concurrent_chunks * max_concurrent_blocks".to_owned(),
                    ),
                )
            }
        },
    }
}

/// The calibration is idempotent: feeding a derived pair back as the
/// chunk and block caps, with no request cap, yields the same pair.
pub proof fn lemma_calibration_idempotent(mr: Option<u64>, mc: Option<u64>, mb: Option<u64>)
    ensures
        match spec_calibrate(mr, mc, mb) {
            Option::Some(p) => spec_calibrate(Option::None, Option::Some(p.0), Option::Some(p.1))
                == Option::Some(p),
            Option::None => true,
        },
{
}



/// The output file of one partition and datatype:
/// `<network>__<datatype>__<partition-label>.<extension>`.
pub open spec fn spec_output_filename(
    network: Seq<char>,
    datatype: Datatype,
    partition: crate::partitions::Partition,
    format: FileFormat,
) -> Seq<char> {
    network + "__"@ + datatype.spec_name() + "__"@ + partition.spec_label() + "."@
        + format.spec_as_str()
}

/// Names the output file of one partition and datatype.
pub fn output_filename(
    network: &str,
    datatype: Datatype,
    partition: &crate::partitions::Partition,
    format: FileFormat,
) -> (r: String)
    ensures
        r@ == spec_output_filename(network@, datatype, *partition, format),
{
    let mut s = network.to_owned();
    s.append("__");
    s.append(datatype.name());
    s.append("__");
    s.append(partition.label().as_str());
    s.append(".");
    s.append(format.as_str());
    s
}

/// The run configuration, frozen before any partition dispatches.
#[derive(Debug)]
pub struct FreezeOpts {
    /// The datatypes to collect.
    pub datatypes: Vec<Datatype>,
    /// The block chunks, one partition each.
    pub block_chunks: Vec<BlockRange>,
    /// Where output files land.
    pub output_dir: String,
    /// The output file format.
    pub output_format: FileFormat,
    /// How binary columns are encoded.
    pub binary_column_format: ColumnEncoding,
    /// The network the files are named for.
    pub network_name: String,
    /// How many chunks run at once.
    pub max_concurrent_chunks: u64,
    /// How many blocks of one chunk run at once.
    pub max_concurrent_blocks: u64,
    /// How many blocks one log request spans.
    pub log_request_size: u64,
    /// Whether to collect nothing.
    pub dry_run: bool,
    /// The resolved table per datatype.
    pub schemas: Schemas,
    /// The sort columns per datatype.
    pub sort: Vec<(Datatype, Vec<String>)>,
    /// How many row groups each parquet file holds.
    pub row_groups: Option<u64>,
    /// How many rows each row group holds.
    pub row_group_size: Option<u64>,
    /// Whether parquet statistics are written.
    pub parquet_statistics: bool,
}

/// The blocks every textual block input denotes, laid end to end;
/// meaningful when every input parses.
pub open spec fn spec_inputs_blocks(inputs: Seq<String>) -> Seq<u64>
    decreases inputs.len(),
{
    if inputs.len() == 0 {
        Seq::empty()
    } else {
        spec_inputs_blocks(inputs.drop_last()) + (match spec_block_input(inputs.last()@) {
            Option::Some(c) => c.blocks(),
            Option::None => Seq::<u64>::empty(),
        })
    }
}


/// The chunk size each input range is split by: the given size, or
/// the size a chunk count derives for that range.
pub open spec fn spec_range_chunk_size(
    range: BlockRange,
    n_chunks: Option<u64>,
    chunk_size: u64,
) -> int {
    match n_chunks {
        Option::Some(n) => spec_count_chunk_size(range, n as int),
        Option::None => chunk_size as int,
    }
}

/// The chunk list decomposes per input range: one chunk list per
/// input, laid end to end, each a partition of its range with the
/// derived chunk size.
pub open spec fn spec_chunking_ok(
    blocks: Seq<String>,
    n_chunks: Option<u64>,
    chunk_size: u64,
    chunks_out: Seq<BlockRange>,
    splits: Seq<Seq<BlockRange>>,
) -> bool {
    &&& splits.len() == blocks.len()
    &&& chunks_out == splits.flatten()
    &&& forall|j: int|
        0 <= j < splits.len() ==> {
            let range = spec_block_input(blocks[j]@)->0;
            &&& chunks_partition(range, #[trigger] splits[j])
            &&& chunk_sizes_ok(splits[j], spec_range_chunk_size(range, n_chunks, chunk_size))
        }
}


/// The chunk list admits a per-range decomposition with the derived
/// chunk sizes.
pub open spec fn spec_chunked(
    blocks: Seq<String>,
    n_chunks: Option<u64>,
    chunk_size: u64,
    chunks_out: Seq<BlockRange>,
) -> bool {
    exists|splits: Seq<Seq<BlockRange>>| spec_chunking_ok(
        blocks,
        n_chunks,
        chunk_size,
        chunks_out,
        splits,
    )
}

/// Whether one datatype's resolved selection is collision-free: no
/// selected name twice, no output name twice after 256-bit expansion.
pub open spec fn spec_schema_ok(
    d: Datatype,
    inc_list: Option<Seq<Seq<char>>>,
    exc_list: Option<Seq<Seq<char>>>,
) -> bool {
    let sel = spec_select(spec_datatype_columns(d), inc_list, exc_list);
    &&& spec_unique(Seq::new(sel.len(), |i: int| sel[i].0))
    &&& spec_unique(spec_output_names_of(sel, spec_default_u256_types()))
}

/// Whether every argument of `build_opts` is well formed: every
/// datatype name known; at least one block input, every one a valid
/// number or range; a positive chunk size or count; parquet output; a
/// consistent concurrency triple; collision-free schemas; and a
/// custom sort only with exactly one datatype.
pub open spec fn spec_build_ok(
    datatype_names: Seq<String>,
    blocks: Seq<String>,
    inc_list: Option<Seq<Seq<char>>>,
    exc_list: Option<Seq<Seq<char>>>,
    csv: bool,
    json: bool,
    sort: Seq<String>,
    max_concurrent_requests: Option<u64>,
    max_concurrent_chunks: Option<u64>,
    max_concurrent_blocks: Option<u64>,
    n_chunks: Option<u64>,
    chunk_size: u64,
) -> bool {
    &&& forall|i: int|
        0 <= i < datatype_names.len() ==> spec_parse_datatype(
            #[trigger] datatype_names[i]@,
        ) is Some
    &&& blocks.len() > 0
    &&& forall|j: int| 0 <= j < blocks.len() ==> spec_block_input(#[trigger] blocks[j]@) is Some
    &&& (match n_chunks {
        Option::Some(n) => n >= 1,
        Option::None => chunk_size >= 1,
    })
    &&& !csv && !json
    &&& spec_calibrate(
        max_concurrent_requests,
        max_concurrent_chunks,
        max_concurrent_blocks,
    ) is Some
    &&& forall|i: int|
        0 <= i < datatype_names.len() ==> spec_schema_ok(
            spec_parse_datatype(#[trigger] datatype_names[i]@)->0,
            inc_list,
            exc_list,
        )
    &&& (sort.len() == 0 || datatype_names.len() == 1)
}

/// Resolves the whole run configuration from plain argument values
/// and the probed chain id: parses the datatypes and block inputs,
/// chunks the blocks, fixes the output format and encoding, derives
/// the concurrency caps, resolves one table per datatype and the sort
/// columns.  Fails on the first bad input, before any partition would
/// dispatch.
#[verifier::rlimit(100)]
#[verifier::spinoff_prover]
pub fn build_opts(
    datatype_names: &Vec<String>,
    blocks: &Vec<String>,
    include_columns: &Option<Vec<String>>,
    exclude_columns: &Option<Vec<String>>,
    network_name_arg: &Option<String>,
    chain_id: u64,
    output_dir: String,
    csv: bool,
    json: bool,
    hex: bool,
    sort: &Vec<String>,
    max_concurrent_requests: Option<u64>,
    max_concurrent_chunks: Option<u64>,
    max_concurrent_blocks: Option<u64>,
    n_chunks: Option<u64>,
    chunk_size: u64,
    log_request_size: u64,
    dry: bool,
    row_groups: Option<u64>,
    row_group_size: Option<u64>,
    no_stats: bool,
) -> (r: Result<FreezeOpts, CollectError>)
    ensures
        (r is Ok) == spec_build_ok(
            datatype_names@,
            blocks@,
            spec_name_list(*include_columns),
            spec_name_list(*exclude_columns),
            csv,
            json,
            sort@,
            max_concurrent_requests,
            max_concurrent_chunks,
            max_concurrent_blocks,
            n_chunks,
            chunk_size,
        ),
        match r {
            Ok(o) => {
                &&& o.datatypes@.len() == datatype_names@.len()
                &&& forall|i: int|
                    0 <= i < o.datatypes@.len() ==> spec_parse_datatype(
                        #[trigger] datatype_names@[i]@,
                    ) == Option::Some(o.datatypes@[i])
                &&& forall|i: int|
                    0 <= i < blocks@.len() ==> spec_block_input(#[trigger] blocks@[i]@) is Some
                &&& forall|i: int|
                    0 <= i < o.block_chunks@.len() ==> (#[trigger] o.block_chunks@[i]).wf()
                &&& chunk_blocks(o.block_chunks@) == spec_inputs_blocks(blocks@)
                &&& spec_chunked(blocks@, n_chunks, chunk_size, o.block_chunks@)
                &&& o.output_format == FileFormat::Parquet && !csv && !json
                &&& o.binary_column_format == (
                if hex {
                    ColumnEncoding::Hex
                } else {
                    ColumnEncoding::Binary
                })
                &&& o.network_name@ == spec_network_name(spec_opt_str(*network_name_arg), chain_id)
                &&& spec_calibrate(
                    max_concurrent_requests,
                    max_concurrent_chunks,
                    max_concurrent_blocks,
                ) == Option::Some((o.max_concurrent_chunks, o.max_concurrent_blocks))
                &&& o.schemas@.len() == o.datatypes@.len()
                &&& forall|i: int|
                    0 <= i < o.schemas@.len() ==> (#[trigger] o.schemas@[i]).0 == o.datatypes@[i]
                &&& forall|i: int|
                    0 <= i < o.schemas@.len() ==> {
                        let t = (#[trigger] o.schemas@[i]).1;
                        &&& t.datatype == o.datatypes@[i]
                        &&& t.spec_columns() == spec_select(
                            spec_datatype_columns(o.datatypes@[i]),
                            spec_name_list(*include_columns),
                            spec_name_list(*exclude_columns),
                        )
                        &&& t.wf()
                        &&& t.u256_types@ == spec_default_u256_types()
                        &&& t.binary_type == o.binary_column_format
                    }
                &&& o.sort@.len() == o.schemas@.len()
                &&& forall|i: int|
                    0 <= i < o.sort@.len() ==> (#[trigger] o.sort@[i]).0 == o.schemas@[i].0
                &&& (if sort@.len() == 0 {
                    forall|i: int|
                        0 <= i < o.sort@.len() ==> (#[trigger] o.sort@[i]).1.deep_view()
                            == o.schemas@[i].0.spec_default_sort()
                } else {
                    o.sort@.len() == 1 && o.sort@[0].1.deep_view() == sort.deep_view()
                })
                &&& o.log_request_size == log_request_size
                &&& o.dry_run == dry
                &&& o.row_groups == row_groups
                &&& o.row_group_size == row_group_size
                &&& o.parquet_statistics == !no_stats
                &&& o.output_dir@ == output_dir@
            },
            Err(e) => e is BadParams || e is BadSchema,
        },
{
    let mut datatypes: Vec<Datatype> = Vec::new();
    let mut i: usize = 0;
    while i < datatype_names.len()
        invariant
            i <= datatype_names@.len(),
            datatypes@.len() == i,
            forall|k: int|
                0 <= k < i ==> spec_parse_datatype(#[trigger] datatype_names@[k]@) == Option::Some(
                    datatypes@[k],
                ),
        decreases datatype_names@.len() - i,
    {
        match parse_datatype(datatype_names[i].as_str()) {
            Ok(d) => datatypes.push(d),
            Err(e) => {
                proof {
                    assert(spec_parse_datatype(datatype_names@[i as int]@) is None);
                }
                return Err(e);
            },
        }
        i = i + 1;
    }
    let ranges = match parse_block_inputs(blocks) {
        Ok(rs) => rs,
        Err(e) => {
            return Err(e);
        },
    };
    let mut block_chunks: Vec<BlockRange> = Vec::new();
    let ghost mut splits: Seq<Seq<BlockRange>> = Seq::empty();
    let mut j: usize = 0;
    proof {
        assert(chunk_blocks(block_chunks@) =~= spec_inputs_blocks(blocks@.take(0)));
        assert(blocks@.take(0) =~= Seq::<String>::empty());
        assert(block_chunks@ =~= splits.flatten());
    }
    while j < ranges.len()
        invariant
            j <= ranges@.len(),
            ranges@.len() == blocks@.len(),
            forall|k: int|
                0 <= k < blocks@.len() ==> spec_block_input(#[trigger] blocks@[k]@) == Option::Some(
                    ranges@[k],
                ) && ranges@[k].wf(),
            forall|k: int| 0 <= k < block_chunks@.len() ==> (#[trigger] block_chunks@[k]).wf(),
            chunk_blocks(block_chunks@) == spec_inputs_blocks(blocks@.take(j as int)),
            splits.len() == j,
            block_chunks@ == splits.flatten(),
            forall|m: int|
                0 <= m < j ==> {
                    &&& chunks_partition(ranges@[m], #[trigger] splits[m])
                    &&& chunk_sizes_ok(
                        splits[m],
                        spec_range_chunk_size(ranges@[m], n_chunks, chunk_size),
                    )
                },
            j > 0 ==> (match n_chunks {
                Option::Some(n) => n >= 1,
                Option::None => chunk_size >= 1,
            }),
        decreases ranges@.len() - j,
    {
        let range = ranges[j];
        proof {
            assert(spec_block_input(blocks@[j as int]@) == Option::Some(ranges@[j as int]));
            assert(range.wf());
        }
        let mut chunks = match n_chunks {
            Some(n) => {
                match get_subchunks_by_count(range, n) {
                    Ok(cs) => cs,
                    Err(e) => {
                        return Err(e);
                    },
                }
            },
            None => {
                match get_subchunks_by_size(range, chunk_size) {
                    Ok(cs) => cs,
                    Err(e) => {
                        return Err(e);
                    },
                }
            },
        };
        proof {
            lemma_chunks_partition(range, chunks@);
        }
        let ghost pre = block_chunks@;
        let ghost added = chunks@;
        block_chunks.append(&mut chunks);
        proof {
            lemma_chunk_blocks_concat(pre, added);
            assert(blocks@.take(j as int + 1).drop_last() =~= blocks@.take(j as int));
            assert(blocks@.take(j as int + 1).last() == blocks@[j as int]);
            assert(chunk_blocks(block_chunks@) =~= spec_inputs_blocks(blocks@.take(j as int + 1)));
            splits.lemma_flatten_push(added);
            splits = splits.push(added);
            assert(block_chunks@ =~= splits.flatten());
        }
        j = j + 1;
    }
    proof {
        assert(blocks@.take(blocks@.len() as int) =~= blocks@);
    }
    let output_format = match parse_output_format(csv, json) {
        Ok(f) => f,
        Err(e) => {
            return Err(e);
        },
    };
    let binary_column_format = if hex {
        ColumnEncoding::Hex
    } else {
        ColumnEncoding::Binary
    };
    let resolved_network = network_name(network_name_arg, chain_id);
    let caps = match parse_concurrency_args(
        max_concurrent_requests,
        max_concurrent_chunks,
        max_concurrent_blocks,
    ) {
        Ok(p) => p,
        Err(e) => {
            return Err(e);
        },
    };
    let mut schemas: Schemas = Vec::new();
    let mut k: usize = 0;
    while k < datatypes.len()
        invariant
            k <= datatypes@.len(),
            schemas@.len() == k,
            datatypes@.len() == datatype_names@.len(),
            forall|m: int|
                0 <= m < datatypes@.len() ==> spec_parse_datatype(
                    #[trigger] datatype_names@[m]@,
                ) == Option::Some(datatypes@[m]),
            forall|m: int| 0 <= m < k ==> (#[trigger] schemas@[m]).0 == datatypes@[m],
            forall|m: int|
                0 <= m < k ==> {
                    let t = (#[trigger] schemas@[m]).1;
                    &&& t.datatype == datatypes@[m]
                    &&& t.spec_columns() == spec_select(
                        spec_datatype_columns(datatypes@[m]),
                        spec_name_list(*include_columns),
                        spec_name_list(*exclude_columns),
                    )
                    &&& t.wf()
                    &&& t.u256_types@ == spec_default_u256_types()
                    &&& t.binary_type == binary_column_format
                },
        decreases datatypes@.len() - k,
    {
        let d = datatypes[k];
        let table = match d.get_schema(&binary_column_format, include_columns, exclude_columns) {
            Ok(t) => t,
            Err(e) => {
                proof {
                    assert(spec_parse_datatype(datatype_names@[k as int]@) == Option::Some(
                        datatypes@[k as int],
                    ));
                    assert(!spec_schema_ok(
                        spec_parse_datatype(datatype_names@[k as int]@)->0,
                        spec_name_list(*include_columns),
                        spec_name_list(*exclude_columns),
                    ));
                }
                return Err(e);
            },
        };
        schemas.push((d, table));
        k = k + 1;
    }
    let resolved_sort = match parse_sort(sort, &schemas) {
        Ok(m) => m,
        Err(e) => {
            return Err(e);
        },
    };
    proof {
        let inc_v2 = spec_name_list(*include_columns);
        let exc_v2 = spec_name_list(*exclude_columns);
        assert forall|m: int| 0 <= m < datatype_names@.len() implies spec_schema_ok(
            spec_parse_datatype(#[trigger] datatype_names@[m]@)->0,
            inc_v2,
            exc_v2,
        ) by {
            let t = schemas@[m].1;
            let sel = spec_select(spec_datatype_columns(datatypes@[m]), inc_v2, exc_v2);
            assert(t.spec_columns() == sel);
            assert(t.wf());
            let names_of_sel = Seq::new(sel.len(), |q: int| sel[q].0);
            assert forall|a: int, b: int| 0 <= a < b < names_of_sel.len() implies names_of_sel[a]
                != names_of_sel[b] by {
                assert((t.spec_columns()[a]).0 != (t.spec_columns()[b]).0);
            }
            assert(spec_unique(names_of_sel));
            assert(crate::schemas::spec_output_names(t) == spec_output_names_of(
                sel,
                spec_default_u256_types(),
            ));
            assert(spec_unique(spec_output_names_of(sel, spec_default_u256_types())));
            assert(spec_parse_datatype(datatype_names@[m]@)->0 == datatypes@[m]);
        }
        assert forall|m: int| 0 <= m < splits.len() implies {
            let range = spec_block_input(blocks@[m]@)->0;
            &&& chunks_partition(range, #[trigger] splits[m])
            &&& chunk_sizes_ok(splits[m], spec_range_chunk_size(range, n_chunks, chunk_size))
        } by {
            assert(spec_block_input(blocks@[m]@) == Option::Some(ranges@[m]));
        }
        assert(spec_chunking_ok(blocks@, n_chunks, chunk_size, block_chunks@, splits));
        assert(spec_chunked(blocks@, n_chunks, chunk_size, block_chunks@));
        assert(spec_build_ok(
            datatype_names@,
            blocks@,
            inc_v2,
            exc_v2,
            csv,
            json,
            sort@,
            max_concurrent_requests,
            max_concurrent_chunks,
            max_concurrent_blocks,
            n_chunks,
            chunk_size,
        ));
    }
    Ok(
        FreezeOpts {
            datatypes,
            block_chunks,
            output_dir,
            output_format,
            binary_column_format,
            network_name: resolved_network,
            max_concurrent_chunks: caps.0,
            max_concurrent_blocks: caps.1,
            log_request_size,
            dry_run: dry,
            schemas,
            sort: resolved_sort,
            row_groups,
            row_group_size,
            parquet_statistics: !no_stats,
        },
    )
}

} // verus!
