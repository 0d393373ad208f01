use cryo::chunks::{get_subchunks_by_count, get_subchunks_by_size, parse_block_input, BlockRange};
use cryo::collection::{transform_channel_balance_diffs, transform_channel_storages, ColumnData};
use cryo::datasets::balance_diffs::{
    process_balance_diffs, AccountDiff, BalanceDiffs, BlockTrace, Diff,
};
use cryo::datasets::storages::{process_nonce, storage_request, Storages};
use cryo::datatypes::{Datatype, MultiDatatype};
use cryo::error::CollectError;
use cryo::freeze::{record_error, should_dispatch, should_skip, ChunkOutcome};
use cryo::options::{
    build_opts, output_filename, parse_concurrency_args, parse_datatype, parse_output_format,
    parse_rpc_url, FileFormat,
};
use cryo::partitions::{Params, Partition};
use cryo::schemas::{output_columns, schemas_get, ColumnEncoding, Schemas};
use cryo::summaries::FreezeSummary;
use cryo::u256::U256;

fn balance_diffs_schemas() -> Schemas {
    let table = Datatype::BalanceDiffs
        .get_schema(&ColumnEncoding::Binary, &None, &None)
        .unwrap();
    vec![(Datatype::BalanceDiffs, table)]
}

fn storages_schemas() -> Schemas {
    let table = Datatype::Storages
        .get_schema(&ColumnEncoding::Binary, &None, &None)
        .unwrap();
    vec![(Datatype::Storages, table)]
}

#[test]
fn blocks_range_two_partitions() {
    // A half-open range of ten blocks in chunks of five: two chunks.
    let range = parse_block_input("17000000:17000010").unwrap();
    assert_eq!(range, BlockRange { start: 17000000, end: 17000009 });
    let chunks = get_subchunks_by_size(range, 5).unwrap();
    assert_eq!(chunks.len(), 2);
    assert_eq!(chunks[0], BlockRange { start: 17000000, end: 17000004 });
    assert_eq!(chunks[1], BlockRange { start: 17000005, end: 17000009 });

    let mut p0 = Partition::default();
    p0.block_numbers = Some(vec![chunks[0]]);
    let name = output_filename("ethereum", Datatype::Blocks, &p0, FileFormat::Parquet);
    assert_eq!(name, "ethereum__blocks__17000000_to_17000004.parquet");
    let mut p1 = Partition::default();
    p1.block_numbers = Some(vec![chunks[1]]);
    let name1 = output_filename("ethereum", Datatype::Blocks, &p1, FileFormat::Parquet);
    assert_eq!(name1, "ethereum__blocks__17000005_to_17000009.parquet");
}

#[test]
fn log_requests_one_per_block() {
    // Three blocks with one block per log request: three inner requests.
    let range = parse_block_input("17000000:17000003").unwrap();
    let requests = get_subchunks_by_size(range, 1).unwrap();
    assert_eq!(requests.len(), 3);
    for (i, r) in requests.iter().enumerate() {
        assert_eq!(r.start, 17000000 + i as u64);
        assert_eq!(r.end, r.start);
    }
    // The logs sort keeps rows ordered by block, then log index.
    let sort = Datatype::Logs.default_sort();
    assert_eq!(sort, vec!["block_number".to_string(), "log_index".to_string()]);
}

#[test]
fn subchunks_by_count() {
    let range = BlockRange { start: 0, end: 9 };
    let chunks = get_subchunks_by_count(range, 2).unwrap();
    assert_eq!(chunks.len(), 2);
    assert_eq!(chunks[0], BlockRange { start: 0, end: 4 });
    assert_eq!(chunks[1], BlockRange { start: 5, end: 9 });
    assert!(matches!(
        get_subchunks_by_count(range, 0),
        Err(CollectError::BadParams(_))
    ));
    assert!(matches!(
        get_subchunks_by_size(range, 0),
        Err(CollectError::BadParams(_))
    ));
}

#[test]
fn block_input_rejections() {
    assert!(matches!(
        parse_block_input("17000005:17000005"),
        Err(CollectError::BadParams(_))
    ));
    assert!(matches!(parse_block_input("abc"), Err(CollectError::BadParams(_))));
    assert!(matches!(parse_block_input(""), Err(CollectError::BadParams(_))));
    assert_eq!(
        parse_block_input("42").unwrap(),
        BlockRange { start: 42, end: 42 }
    );
}

#[test]
fn balance_diff_rows() {
    // One trace with three account diffs: Same emits nothing, Born(5)
    // emits (0, 5), Changed(3, 7) emits (3, 7).
    let schemas = balance_diffs_schemas();
    let trace = BlockTrace {
        state_diff: Some(vec![
            (vec![0x0a; 20], AccountDiff { balance: Diff::Same }),
            (vec![0x0b; 20], AccountDiff { balance: Diff::Born(U256::from_u64(5)) }),
            (
                vec![0x0c; 20],
                AccountDiff { balance: Diff::Changed(U256::from_u64(3), U256::from_u64(7)) },
            ),
        ]),
    };
    let response = (Some(17000000u32), vec![None], vec![trace]);
    let mut columns = BalanceDiffs::default();
    process_balance_diffs(&response, &mut columns, &schemas).unwrap();
    assert_eq!(columns.n_rows, 2);
    assert_eq!(columns.from_value, vec![U256::from_u64(0), U256::from_u64(3)]);
    assert_eq!(columns.to_value, vec![U256::from_u64(5), U256::from_u64(7)]);
    assert_eq!(columns.address, vec![vec![0x0b; 20], vec![0x0c; 20]]);
    assert_eq!(columns.block_number, vec![Some(17000000), Some(17000000)]);
}

#[test]
fn balance_diff_died_and_missing_schema() {
    let schemas = balance_diffs_schemas();
    let trace = BlockTrace {
        state_diff: Some(vec![(
            vec![0x0d; 20],
            AccountDiff { balance: Diff::Died(U256::from_u64(9)) },
        )]),
    };
    let response = (Some(1u32), vec![None], vec![trace]);
    let mut columns = BalanceDiffs::default();
    process_balance_diffs(&response, &mut columns, &schemas).unwrap();
    assert_eq!(columns.from_value, vec![U256::from_u64(9)]);
    assert_eq!(columns.to_value, vec![U256::from_u64(0)]);

    let empty: Schemas = Vec::new();
    let response2 = (Some(1u32), vec![], vec![]);
    let mut columns2 = BalanceDiffs::default();
    assert!(matches!(
        process_balance_diffs(&response2, &mut columns2, &empty),
        Err(CollectError::CollectError(_))
    ));
}

#[test]
fn transform_channel_stops_at_first_error() {
    let schemas = balance_diffs_schemas();
    let trace = BlockTrace { state_diff: None };
    let ok = (Some(1u32), vec![None], vec![trace]);
    let messages = vec![
        Ok(ok),
        Err(CollectError::RpcError("boom".to_string())),
        Err(CollectError::RpcError("later".to_string())),
    ];
    match transform_channel_balance_diffs(messages, &schemas) {
        Err(CollectError::RpcError(msg)) => assert_eq!(msg, "boom"),
        other => panic!("unexpected result: {:?}", other),
    }
}

#[test]
fn storage_point_queries() {
    // One partition, two addresses and two slots: four work items in
    // lexicographic order, each at the same block.
    let mut partition = Partition::default();
    partition.block_numbers = Some(vec![BlockRange { start: 17000000, end: 17000000 }]);
    partition.addresses = Some(vec![vec![0xaa; 20], vec![0xbb; 20]]);
    partition.slots = Some(vec![vec![0x01; 32], vec![0x02; 32]]);
    let items = partition.param_sets();
    assert_eq!(items.len(), 4);
    let expected = [
        (vec![0xaa; 20], vec![0x01; 32]),
        (vec![0xaa; 20], vec![0x02; 32]),
        (vec![0xbb; 20], vec![0x01; 32]),
        (vec![0xbb; 20], vec![0x02; 32]),
    ];
    for (item, (addr, slot)) in items.iter().zip(expected.iter()) {
        assert_eq!(item.block_number, Some(17000000));
        assert_eq!(item.address.as_ref().unwrap(), addr);
        assert_eq!(item.slot.as_ref().unwrap(), slot);
        assert!(item.transaction_hash.is_none());
    }

    // The request arguments come straight from the work item.
    let (block, addr, slot) = storage_request(&items[0]).unwrap();
    assert_eq!(block, 17000000);
    assert_eq!(addr, vec![0xaa; 20]);
    assert_eq!(slot, vec![0x01; 32]);

    // A work item without a slot is a caller error.
    let incomplete = Params {
        block_number: Some(1),
        transaction_hash: None,
        address: Some(vec![0xaa; 20]),
        slot: None,
    };
    assert!(matches!(storage_request(&incomplete), Err(CollectError::BadParams(_))));
}

#[test]
fn storages_transform_and_rows() {
    let schemas = storages_schemas();
    let messages = vec![
        Ok((17000000u32, None, vec![0xaa; 20], vec![0x01; 32], vec![0x11; 32])),
        Ok((17000000u32, None, vec![0xbb; 20], vec![0x02; 32], vec![0x22; 32])),
    ];
    let columns = transform_channel_storages(messages, &schemas).unwrap();
    assert_eq!(columns.n_rows, 2);
    assert_eq!(columns.block_number, vec![17000000, 17000000]);
    assert_eq!(columns.address, vec![vec![0xaa; 20], vec![0xbb; 20]]);

    let schema = schemas_get(&schemas, Datatype::Storages).unwrap();
    let mut more = columns;
    process_nonce(
        &mut more,
        (17000001, None, vec![0xcc; 20], vec![0x03; 32], vec![0x33; 32]),
        schema,
    )
    .unwrap();
    assert_eq!(more.n_rows, 3);
    assert_eq!(more.slot[2], vec![0x03; 32]);
}

#[test]
fn partial_failure_summary() {
    // Three partitions; the middle one fails. The run completes with
    // two completed and one errored.
    let mut summary = FreezeSummary::default();
    let mut parts = Vec::new();
    for i in 0..3u64 {
        let mut p = Partition::default();
        p.block_numbers = Some(vec![BlockRange { start: i * 5, end: i * 5 + 4 }]);
        parts.push(p);
    }
    summary.record(parts[0].clone(), ChunkOutcome::Completed);
    summary.record(
        parts[1].clone(),
        ChunkOutcome::Errored(CollectError::RpcError("http 500".to_string())),
    );
    summary.record(parts[2].clone(), ChunkOutcome::Completed);
    assert_eq!(summary.completed.len(), 2);
    assert_eq!(summary.errored.len(), 1);
    assert_eq!(summary.skipped.len(), 0);
    let (failed, err) = &summary.errored[0];
    assert_eq!(failed.as_ref().unwrap().label(), "5_to_9");
    assert!(matches!(err, CollectError::RpcError(_)));
}

#[test]
fn cancellation_decisions() {
    // After a cancel signal no new partition is dispatched, and a
    // cancellation never overrides an earlier error.
    assert!(should_dispatch(false));
    assert!(!should_dispatch(true));
    assert!(matches!(record_error(None, CollectError::Cancelled), CollectError::Cancelled));
    let first = CollectError::RpcError("first".to_string());
    assert!(matches!(
        record_error(Some(first), CollectError::Cancelled),
        CollectError::RpcError(_)
    ));
}

#[test]
fn resume_skips_finished_partitions() {
    assert!(should_skip(true, false));
    assert!(!should_skip(true, true));
    assert!(!should_skip(false, false));
}

#[test]
fn calibration_table() {
    assert_eq!(parse_concurrency_args(None, None, None).unwrap(), (32, 3));
    assert_eq!(parse_concurrency_args(Some(90), None, None).unwrap(), (30, 3));
    assert_eq!(parse_concurrency_args(Some(1), None, None).unwrap(), (1, 3));
    assert_eq!(parse_concurrency_args(None, Some(7), None).unwrap(), (7, 3));
    assert_eq!(parse_concurrency_args(None, None, Some(4)).unwrap(), (25, 4));
    assert_eq!(parse_concurrency_args(None, None, Some(1000)).unwrap(), (1, 1000));
    assert_eq!(parse_concurrency_args(Some(90), Some(9), None).unwrap(), (9, 10));
    assert_eq!(parse_concurrency_args(None, Some(5), Some(6)).unwrap(), (5, 6));
    assert_eq!(parse_concurrency_args(Some(90), None, Some(9)).unwrap(), (10, 9));
    assert_eq!(parse_concurrency_args(Some(42), Some(6), Some(7)).unwrap(), (6, 7));
    assert!(matches!(
        parse_concurrency_args(Some(43), Some(6), Some(7)),
        Err(CollectError::BadParams(_))
    ));
    assert!(matches!(
        parse_concurrency_args(None, None, Some(0)),
        Err(CollectError::BadParams(_))
    ));

    // Idempotence: feeding a derived pair back yields the same pair.
    for caps in [
        parse_concurrency_args(Some(90), None, None).unwrap(),
        parse_concurrency_args(None, None, Some(4)).unwrap(),
        parse_concurrency_args(Some(90), Some(9), None).unwrap(),
    ] {
        assert_eq!(
            parse_concurrency_args(None, Some(caps.0), Some(caps.1)).unwrap(),
            caps
        );
    }
}

#[test]
fn multi_datatypes() {
    assert_eq!(
        MultiDatatype::variants(),
        vec![
            MultiDatatype::BlocksAndTransactions,
            MultiDatatype::CallTraceDerivatives,
            MultiDatatype::StateDiffs,
        ]
    );
    assert_eq!(
        MultiDatatype::StateDiffs.datatypes(),
        vec![
            Datatype::BalanceDiffs,
            Datatype::CodeDiffs,
            Datatype::NonceDiffs,
            Datatype::StorageDiffs,
        ]
    );
    assert_eq!(
        MultiDatatype::BlocksAndTransactions.datatypes(),
        vec![Datatype::Blocks, Datatype::Transactions]
    );
}

#[test]
fn schema_selection_and_outputs() {
    // The balance-diff schema expands each 256-bit column into raw
    // bytes and the low 64 bits.
    let table = Datatype::BalanceDiffs
        .get_schema(&ColumnEncoding::Binary, &None, &None)
        .unwrap();
    let outs = output_columns(&table);
    assert_eq!(
        outs,
        vec![
            "block_number".to_string(),
            "transaction_index".to_string(),
            "transaction_hash".to_string(),
            "address".to_string(),
            "from_value_binary".to_string(),
            "from_value_u64".to_string(),
            "to_value_binary".to_string(),
            "to_value_u64".to_string(),
            "chain_id".to_string(),
        ]
    );

    // An inclusion list narrows the selection; an exclusion list
    // subtracts.
    let keep = Some(vec!["block_number".to_string(), "address".to_string()]);
    let narrowed = Datatype::Storages
        .get_schema(&ColumnEncoding::Binary, &keep, &None)
        .unwrap();
    assert_eq!(narrowed.columns.len(), 2);
    assert_eq!(narrowed.columns[0].0, "block_number");
    assert_eq!(narrowed.columns[1].0, "address");
    let exclude = Some(vec!["chain_id".to_string()]);
    let trimmed = Datatype::Storages
        .get_schema(&ColumnEncoding::Binary, &None, &exclude)
        .unwrap();
    assert_eq!(trimmed.columns.len(), 4);
    assert!(trimmed.columns.iter().all(|c| c.0 != "chain_id"));
}

#[test]
fn create_dfs_emits_schema_columns() {
    let schemas = balance_diffs_schemas();
    let trace = BlockTrace {
        state_diff: Some(vec![(
            vec![0x0b; 20],
            AccountDiff { balance: Diff::Born(U256::from_u64(5)) },
        )]),
    };
    let response = (Some(2u32), vec![None], vec![trace]);
    let mut columns = BalanceDiffs::default();
    process_balance_diffs(&response, &mut columns, &schemas).unwrap();
    let dfs = columns.create_dfs(&schemas, 1).unwrap();
    let names: Vec<&str> = dfs.iter().map(|c| c.0.as_str()).collect();
    assert_eq!(
        names,
        vec![
            "block_number",
            "transaction_index",
            "transaction_hash",
            "address",
            "from_value_binary",
            "from_value_u64",
            "to_value_binary",
            "to_value_u64",
            "chain_id",
        ]
    );
    for (name, data) in &dfs {
        let len = match data {
            ColumnData::U32(v) => v.len(),
            ColumnData::OptU32(v) => v.len(),
            ColumnData::U64(v) => v.len(),
            ColumnData::OptU64(v) => v.len(),
            ColumnData::Binary(v) => v.len(),
            ColumnData::OptBinary(v) => v.len(),
            ColumnData::U256Raw(v) => v.len(),
        };
        assert_eq!(len, 1, "column {} has one value per row", name);
    }
    match &dfs[5].1 {
        ColumnData::U64(v) => assert_eq!(v, &vec![0u64]),
        other => panic!("unexpected from_value_u64 column: {:?}", other),
    }
    match &dfs[7].1 {
        ColumnData::U64(v) => assert_eq!(v, &vec![5u64]),
        other => panic!("unexpected to_value_u64 column: {:?}", other),
    }
    match &dfs[8].1 {
        ColumnData::U64(v) => assert_eq!(v, &vec![1u64]),
        other => panic!("unexpected chain_id column: {:?}", other),
    }
    match &dfs[4].1 {
        ColumnData::Binary(v) => {
            assert_eq!(v[0], vec![0u8; 32]);
        },
        other => panic!("unexpected from_value_binary column: {:?}", other),
    }
}

#[test]
fn option_parsing() {
    assert_eq!(parse_datatype("blocks").unwrap(), Datatype::Blocks);
    assert_eq!(parse_datatype("logs").unwrap(), Datatype::Logs);
    assert_eq!(parse_datatype("events").unwrap(), Datatype::Logs);
    assert_eq!(parse_datatype("transactions").unwrap(), Datatype::Transactions);
    assert_eq!(parse_datatype("txs").unwrap(), Datatype::Transactions);
    assert!(matches!(parse_datatype("frogs"), Err(CollectError::BadParams(_))));

    assert_eq!(parse_output_format(false, false).unwrap(), FileFormat::Parquet);
    assert!(matches!(parse_output_format(true, true), Err(CollectError::BadParams(_))));
    assert!(matches!(parse_output_format(true, false), Err(CollectError::BadParams(_))));

    assert_eq!(
        parse_rpc_url(&Some("example.com:8545".to_string()), &None).unwrap(),
        "http://example.com:8545"
    );
    assert_eq!(
        parse_rpc_url(&None, &Some("https://node".to_string())).unwrap(),
        "https://node"
    );
    assert!(matches!(parse_rpc_url(&None, &None), Err(CollectError::BadParams(_))));

    assert_eq!(cryo::options::network_name(&None, 1), "ethereum");
    assert_eq!(cryo::options::network_name(&None, 10), "network_10");
    assert_eq!(cryo::options::network_name(&Some("base".to_string()), 8453), "base");
}

#[test]
fn build_opts_end_to_end() {
    let opts = build_opts(
        &vec!["blocks".to_string()],
        &vec!["17000000:17000010".to_string()],
        &None,
        &None,
        &None,
        1,
        ".".to_string(),
        false,
        false,
        false,
        &Vec::new(),
        None,
        None,
        None,
        None,
        5,
        1,
        false,
        None,
        None,
        false,
    )
    .unwrap();
    assert_eq!(opts.datatypes, vec![Datatype::Blocks]);
    assert_eq!(opts.block_chunks.len(), 2);
    assert_eq!(opts.block_chunks[0], BlockRange { start: 17000000, end: 17000004 });
    assert_eq!(opts.network_name, "ethereum");
    assert_eq!(opts.max_concurrent_chunks, 32);
    assert_eq!(opts.max_concurrent_blocks, 3);
    assert_eq!(opts.schemas.len(), 1);
    assert_eq!(opts.sort.len(), 1);
    assert_eq!(opts.sort[0].1, vec!["block_number".to_string()]);
    assert!(opts.parquet_statistics);

    // A custom sort with several datatypes is a schema error.
    let err = build_opts(
        &vec!["blocks".to_string(), "logs".to_string()],
        &vec!["0:10".to_string()],
        &None,
        &None,
        &None,
        1,
        ".".to_string(),
        false,
        false,
        false,
        &vec!["timestamp".to_string()],
        None,
        None,
        None,
        None,
        5,
        1,
        false,
        None,
        None,
        false,
    );
    assert!(matches!(err, Err(CollectError::BadSchema(_))));
}

#[test]
fn value_group_chunking() {
    // Grouping dimension values is a partition of the inputs: laid
    // end to end the groups are exactly the values, in order.
    let values = vec![vec![0x01], vec![0x02], vec![0x03], vec![0x04], vec![0x05]];
    let groups = cryo::chunks::chunk_values(values.clone(), 2).unwrap();
    assert_eq!(groups.len(), 3);
    assert_eq!(groups[0], vec![vec![0x01], vec![0x02]]);
    assert_eq!(groups[2], vec![vec![0x05]]);
    let flat: Vec<Vec<u8>> = groups.into_iter().flatten().collect();
    assert_eq!(flat, values);
    assert!(matches!(
        cryo::chunks::chunk_values(values, 0),
        Err(CollectError::BadParams(_))
    ));
}

#[test]
fn output_names_never_collide() {
    // Every resolved schema rejects colliding output names, so the
    // emitted column names are distinct.
    for datatype in [
        Datatype::Blocks,
        Datatype::Transactions,
        Datatype::Logs,
        Datatype::BalanceDiffs,
        Datatype::Storages,
    ] {
        let table = datatype
            .get_schema(&ColumnEncoding::Binary, &None, &None)
            .unwrap();
        let outs = output_columns(&table);
        for i in 0..outs.len() {
            for j in i + 1..outs.len() {
                assert_ne!(outs[i], outs[j]);
            }
        }
    }
}

#[test]
fn collector_choice() {
    // By-transaction extraction is chosen exactly when the partition
    // populates transaction hashes and no block dimension.
    let mut by_tx = Partition::default();
    by_tx.transactions = Some(vec![vec![0x01; 32]]);
    assert!(cryo::collection::use_by_transaction(&by_tx));
    let mut by_block = Partition::default();
    by_block.block_numbers = Some(vec![BlockRange { start: 0, end: 0 }]);
    assert!(!cryo::collection::use_by_transaction(&by_block));
    by_tx.block_numbers = Some(vec![BlockRange { start: 0, end: 0 }]);
    assert!(!cryo::collection::use_by_transaction(&by_tx));
}

#[test]
fn storage_request_rejects_bad_widths() {
    let short_addr = Params {
        block_number: Some(1),
        transaction_hash: None,
        address: Some(vec![0xaa; 19]),
        slot: Some(vec![0x01; 32]),
    };
    assert!(matches!(storage_request(&short_addr), Err(CollectError::BadParams(_))));
    let short_slot = Params {
        block_number: Some(1),
        transaction_hash: None,
        address: Some(vec![0xaa; 20]),
        slot: Some(vec![0x01; 31]),
    };
    assert!(matches!(storage_request(&short_slot), Err(CollectError::BadParams(_))));
}
