use cryo::chunks::BlockRange;
use cryo::error::CollectError;
use cryo::partitions::Partition;
use cryo::summaries::{
    block_stats, bullet_indent_line, bullet_line, conclusion_lines, count_errors, header_lines,
    pad_left, percent_str, print_chunks, value_stats, FreezeSummary,
};
use cryo::textfmt::{commafy, hex_string, str_eq, u64_to_string};
use cryo::u256::{u256_to_be_bytes, U256};

#[test]
fn decimal_rendering() {
    assert_eq!(u64_to_string(0), "0");
    assert_eq!(u64_to_string(7), "7");
    assert_eq!(u64_to_string(17000000), "17000000");
    assert_eq!(u64_to_string(u64::MAX), "18446744073709551615");
}

#[test]
fn comma_grouping() {
    assert_eq!(commafy(0), "0");
    assert_eq!(commafy(999), "999");
    assert_eq!(commafy(1000), "1,000");
    assert_eq!(commafy(17000000), "17,000,000");
    assert_eq!(commafy(1234567890), "1,234,567,890");
}

#[test]
fn hex_rendering() {
    assert_eq!(hex_string(&vec![]), "0x");
    assert_eq!(hex_string(&vec![0xde, 0xad, 0xbe, 0xef]), "0xdeadbeef");
    assert_eq!(hex_string(&vec![0x00, 0x01]), "0x0001");
}

#[test]
fn string_comparison() {
    assert!(str_eq("abc", "abc"));
    assert!(!str_eq("abc", "abd"));
    assert!(!str_eq("abc", "ab"));
    assert!(str_eq("", ""));
}

#[test]
fn u256_bytes() {
    let v = U256::from_u64(5);
    let bytes = u256_to_be_bytes(&v);
    assert_eq!(bytes.len(), 32);
    assert_eq!(bytes[31], 5);
    assert!(bytes[..31].iter().all(|b| *b == 0));
    assert_eq!(u256_to_be_bytes(&U256::zero()), vec![0u8; 32]);
}

#[test]
fn line_primitives() {
    assert_eq!(bullet_line("data", "blocks"), "- data: blocks");
    assert_eq!(bullet_indent_line("network", "ethereum", 4), "    - network: ethereum");
    let hdr = header_lines("abc");
    assert_eq!(hdr[0], "abc");
    assert_eq!(hdr[1], "───");
    assert_eq!(pad_left("7", 3), "  7");
    assert_eq!(pad_left("1234", 3), "1234");
    assert_eq!(percent_str(1, 3), "33.0");
    assert_eq!(percent_str(3, 3), "100.0");
    assert_eq!(percent_str(0, 3), "0.0");
}

#[test]
fn chunk_progress_lines() {
    let mut p = Partition::default();
    p.block_numbers = Some(vec![BlockRange { start: 17000000, end: 17000009 }]);
    let lines = print_chunks(&vec![p]);
    assert_eq!(lines.len(), 1);
    assert_eq!(lines[0], "    - block_numbers: n=10 min=17000000 max=17000009");

    let mut single = Partition::default();
    single.block_numbers = Some(vec![BlockRange { start: 5, end: 5 }]);
    let lines2 = print_chunks(&vec![single]);
    assert_eq!(lines2[0], "    - block_number: 5");

    let mut with_values = Partition::default();
    with_values.block_numbers = Some(vec![BlockRange { start: 0, end: 0 }]);
    with_values.addresses = Some(vec![vec![0xaa, 0xbb], vec![0x01, 0x02]]);
    let lines3 = print_chunks(&vec![with_values]);
    assert_eq!(lines3.len(), 2);
    assert_eq!(lines3[1], "    - addresses: n=2 min=0x0102 max=0xaabb");
}

#[test]
fn stats_aggregation() {
    let mut a = Partition::default();
    a.block_numbers = Some(vec![BlockRange { start: 0, end: 4 }]);
    let mut b = Partition::default();
    b.block_numbers = Some(vec![BlockRange { start: 5, end: 9 }]);
    let st = block_stats(&vec![a, b]).unwrap();
    assert_eq!(st.total_values, 10);
    assert_eq!(st.min_value, Some(0));
    assert_eq!(st.max_value, Some(9));
    assert_eq!(st.n_chunks, 2);
    assert_eq!(st.chunk_size, 5);

    let empty = block_stats(&Vec::new());
    assert!(empty.is_none());

    let mut c = Partition::default();
    c.slots = Some(vec![vec![0x02], vec![0x01]]);
    let vs = value_stats(&vec![c], cryo::dims::Dim::Slot).unwrap();
    assert_eq!(vs.total_values, 2);
    assert_eq!(vs.min_value, Some(vec![0x01]));
    assert_eq!(vs.max_value, Some(vec![0x02]));
}

#[test]
fn error_tallies() {
    let errored: Vec<(Option<Partition>, CollectError)> = vec![
        (None, CollectError::RpcError("x".to_string())),
        (None, CollectError::RpcError("x".to_string())),
        (None, CollectError::Cancelled),
    ];
    let tallies = count_errors(&errored);
    assert_eq!(tallies.len(), 2);
    assert_eq!(tallies[0].0, "rpc error: x");
    assert_eq!(tallies[0].1, 2);
    assert_eq!(tallies[1].0, "cancelled");
    assert_eq!(tallies[1].1, 1);
}

#[test]
fn conclusion_text() {
    let mut summary = FreezeSummary::default();
    let mut p = Partition::default();
    p.block_numbers = Some(vec![BlockRange { start: 0, end: 4 }]);
    summary.completed.push(p.clone());
    summary.completed.push(p.clone());
    summary.errored.push((Some(p), CollectError::RpcError("http 500".to_string())));
    let lines = conclusion_lines(&summary, 3, "2026-01-01 00:00:00.000", "1.500 seconds");
    assert_eq!(lines[0], "   done at 2026-01-01 00:00:00.000");
    assert_eq!(lines[1], "...done (errors in 1 chunks)");
    assert!(lines.contains(&"error summary".to_string()));
    assert!(lines.contains(&"- rpc error: http 500 (1x)".to_string()));
    assert!(lines.contains(&"- total duration: 1.500 seconds".to_string()));
    assert!(lines.contains(&"- total chunks: 3".to_string()));
    assert!(lines.contains(&"    - chunks errored:   1 / 3 (33.0%)".to_string()));
    assert!(lines.contains(&"    - chunks collected: 2 / 3 (66.0%)".to_string()));
}

#[test]
fn schema_description_lines() {
    let table = cryo::datatypes::Datatype::Storages
        .get_schema(&cryo::schemas::ColumnEncoding::Binary, &None, &None)
        .unwrap();
    let lines = cryo::summaries::print_schema(&table);
    assert_eq!(lines[0], "schema for storages");
    assert_eq!(lines[2], "- block_number: uint32");
    assert!(lines.contains(&"sorting storages by: block_number, address, slot".to_string()));
    assert!(lines.contains(&"other available columns: [none]".to_string()));

    let keep = Some(vec!["block_number".to_string()]);
    let narrowed = cryo::datatypes::Datatype::Storages
        .get_schema(&cryo::schemas::ColumnEncoding::Binary, &keep, &None)
        .unwrap();
    let lines2 = cryo::summaries::print_schema(&narrowed);
    assert!(lines2
        .contains(&"other available columns: address, slot, value, chain_id".to_string()));

    let bd = cryo::datatypes::Datatype::BalanceDiffs
        .get_schema(&cryo::schemas::ColumnEncoding::Binary, &None, &None)
        .unwrap();
    let lines3 = cryo::summaries::print_schema(&bd);
    assert!(lines3.contains(&"- from_value_binary: binary".to_string()));
    assert!(lines3.contains(&"- from_value_u64: uint64".to_string()));
}

#[test]
fn throughput_counts() {
    let mut a = Partition::default();
    a.block_numbers = Some(vec![BlockRange { start: 0, end: 4 }]);
    let mut b = Partition::default();
    b.block_numbers = Some(vec![BlockRange { start: 5, end: 9 }]);
    b.addresses = Some(vec![vec![0xaa], vec![0xbb]]);
    let counts = cryo::summaries::completed_counts(
        &vec![a, b],
        &vec![cryo::dims::Dim::BlockNumber, cryo::dims::Dim::Address],
    );
    assert_eq!(counts.len(), 2);
    assert_eq!(counts[0], (cryo::dims::Dim::BlockNumber, 10));
    assert_eq!(counts[1], (cryo::dims::Dim::Address, 2));
}

#[test]
fn error_summary_ranks_by_count() {
    // The summary shows the most frequent errors first, not the first
    // seen.
    let mut summary = FreezeSummary::default();
    let p = Partition::default;
    summary.errored.push((Some(p()), CollectError::RpcError("rare".to_string())));
    summary.errored.push((Some(p()), CollectError::RpcError("common".to_string())));
    summary.errored.push((Some(p()), CollectError::RpcError("common".to_string())));
    let lines = conclusion_lines(&summary, 3, "t", "d");
    let rare = lines.iter().position(|l| l == "- rpc error: rare (1x)").unwrap();
    let common = lines.iter().position(|l| l == "- rpc error: common (2x)").unwrap();
    assert!(common < rare);

    let sorted = cryo::summaries::sort_tallies(vec![
        ("a".to_string(), 1),
        ("b".to_string(), 3),
        ("c".to_string(), 3),
        ("d".to_string(), 2),
    ]);
    assert_eq!(
        sorted,
        vec![
            ("b".to_string(), 3),
            ("c".to_string(), 3),
            ("d".to_string(), 2),
            ("a".to_string(), 1),
        ]
    );
}
