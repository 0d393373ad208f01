//! Draining a partition's extraction results into column builders.
//!
//! The binary runs the extract tasks and the bounded channel; the
//! fold over the received messages — transform every response in
//! arrival order, stop at the first error — lives here.

use vstd::prelude::*;
use crate::datasets::balance_diffs::{
    lemma_extended_refl, process_balance_diffs, spec_response_rows, BalanceDiffs, BalanceRow,
    BlockTxsTraces,
};
use crate::datasets::storages::{
    lemma_storages_extended_refl, lemma_storages_extended_trans, process_nonce,
    BlockTxAddressOutput, StorageRow, Storages,
};
use crate::datatypes::Datatype;
use crate::error::CollectError;
use crate::datasets::balance_diffs::opt_bytes_views;
use crate::schemas::{schemas_get, spec_schemas_get, Schemas, U256Type};
use crate::textfmt::str_eq;
use crate::u256::{spec_u256_be, u256_to_be_bytes, U256};

verus! {

/// The rows every successful message of a balance-diff drain emits,
/// in arrival order.
pub open spec fn spec_all_bd_rows(msgs: Seq<Result<BlockTxsTraces, CollectError>>) -> Seq<
    BalanceRow,
>
    decreases msgs.len(),
{
    if msgs.len() == 0 {
        Seq::empty()
    } else {
        spec_all_bd_rows(msgs.drop_last()) + (match msgs.last() {
            Ok(r) => spec_response_rows(r),
            Err(_) => Seq::<BalanceRow>::empty(),
        })
    }
}

proof fn lemma_bd_rows_prefix(msgs: Seq<Result<BlockTxsTraces, CollectError>>, i: int)
    requires
        0 <= i <= msgs.len(),
    ensures
        spec_all_bd_rows(msgs.take(i)).len() <= spec_all_bd_rows(msgs).len(),
    decreases msgs.len() - i,
{
    if i == msgs.len() {
        assert(msgs.take(i) =~= msgs);
    } else {
        lemma_bd_rows_prefix(msgs, i + 1);
        assert(msgs.take(i + 1).drop_last() =~= msgs.take(i));
        assert(msgs.take(i + 1).last() == msgs[i]);
    }
}

/// Drains the balance-diff messages of one partition: transforms
/// every response in arrival order into one builder, and stops at the
/// first error, which it returns.
pub fn transform_channel_balance_diffs(
    messages: Vec<Result<BlockTxsTraces, CollectError>>,
    schemas: &Schemas,
) -> (r: Result<BalanceDiffs, CollectError>)
    requires
        spec_all_bd_rows(messages@).len() < u64::MAX,
    ensures
        match r {
            Ok(cols) => {
                &&& spec_schemas_get(schemas@, Datatype::BalanceDiffs) matches Some(t)
                    && cols.valid(t) && cols.built_from(spec_all_bd_rows(messages@), t)
                &&& forall|j: int| 0 <= j < messages@.len() ==> (#[trigger] messages@[j]) is Ok
            },
            Err(e) => {
                ||| exists|j: int|
                    {
                        &&& 0 <= j < messages@.len()
                        &&& (#[trigger] messages@[j]) matches Err(e2) && e == e2
                        &&& (forall|k: int| 0 <= k < j ==> messages@[k] is Ok)
                    }
                ||| (spec_schemas_get(schemas@, Datatype::BalanceDiffs) is None && e
                    is CollectError)
            },
        },
{
    let ghost all = messages@;
    let mut remaining = messages;
    let n_total = remaining.len();
    let mut columns = BalanceDiffs::default();
    let ghost b0 = columns;
    let mut i: usize = 0;
    proof {
        assert(all.skip(0) =~= all);
        assert(all.take(0) =~= Seq::<Result<BlockTxsTraces, CollectError>>::empty());
        if spec_schemas_get(schemas@, Datatype::BalanceDiffs) is Some {
            lemma_extended_refl(b0, spec_schemas_get(schemas@, Datatype::BalanceDiffs)->0);
        }
    }
    while remaining.len() > 0
        invariant
            all == messages@,
            all.len() == n_total,
            i <= all.len(),
            remaining@ == all.skip(i as int),
            b0.n_rows == 0,
            i > 0 ==> spec_schemas_get(schemas@, Datatype::BalanceDiffs) is Some,
            spec_all_bd_rows(all).len() < u64::MAX,
            forall|k: int| 0 <= k < i ==> all[k] is Ok,
            columns.chain_id@.len() == 0,
            match spec_schemas_get(schemas@, Datatype::BalanceDiffs) {
                Option::Some(t) => columns.valid(t) && columns.extended_by(
                    b0,
                    spec_all_bd_rows(all.take(i as int)),
                    t,
                ),
                Option::None => true,
            },
        decreases remaining@.len(),
    {
        let msg = remaining.remove(0);
        proof {
            assert(all.skip(i as int)[0] == all[i as int]);
            assert(all.skip(i as int).remove(0) =~= all.skip(i as int + 1));
        }
        match msg {
            Ok(response) => {
                proof {
                    assert(all.take(i as int + 1).drop_last() =~= all.take(i as int));
                    assert(all.take(i as int + 1).last() == all[i as int]);
                    lemma_bd_rows_prefix(all, i as int + 1);
                    if spec_schemas_get(schemas@, Datatype::BalanceDiffs) is Some {
                        let t = spec_schemas_get(schemas@, Datatype::BalanceDiffs)->0;
                        assert(columns.n_rows == b0.n_rows + spec_all_bd_rows(
                            all.take(i as int),
                        ).len());
                        assert(columns.n_rows + spec_response_rows(response).len() < u64::MAX);
                    }
                }
                let ghost mid = columns;
                match process_balance_diffs(&response, &mut columns, schemas) {
                    Ok(_) => {
                        proof {
                            let t = spec_schemas_get(schemas@, Datatype::BalanceDiffs)->0;
                            crate::datasets::balance_diffs::lemma_extended_trans(
                                b0,
                                mid,
                                columns,
                                spec_all_bd_rows(all.take(i as int)),
                                spec_response_rows(response),
                                t,
                            );
                            assert(spec_all_bd_rows(all.take(i as int + 1)) =~= spec_all_bd_rows(
                                all.take(i as int),
                            ) + spec_response_rows(response));
                        }
                    },
                    Err(e) => {
                        return Err(e);
                    },
                }
            },
            Err(e) => {
                proof {
                    assert(all[i as int] matches Err(e2) && e == e2);
                }
                return Err(e);
            },
        }
        i = i + 1;
    }
    proof {
        assert(i == all.len());
        assert(all.take(all.len() as int) =~= all);
        if spec_schemas_get(schemas@, Datatype::BalanceDiffs) is None {
            assert(all.len() == 0);
            assert(spec_all_bd_rows(all).len() == 0);
        }
    }
    if schemas_get(schemas, Datatype::BalanceDiffs).is_none() {
        return Err(crate::error::err("schema not provided"));
    }
    proof {
        let t = spec_schemas_get(schemas@, Datatype::BalanceDiffs)->0;
        let rows = spec_all_bd_rows(all);
        assert(columns.block_number@ =~= (
        if t.spec_has_column("block_number"@) {
            Seq::new(rows.len(), |k: int| rows[k].0)
        } else {
            Seq::<Option<u32>>::empty()
        }));
        assert(columns.transaction_index@ =~= (
        if t.spec_has_column("transaction_index"@) {
            Seq::new(rows.len(), |k: int| Option::Some(rows[k].1))
        } else {
            Seq::<Option<u64>>::empty()
        }));
        assert(crate::datasets::balance_diffs::opt_bytes_views(columns.transaction_hash@) =~= (
        if t.spec_has_column("transaction_hash"@) {
            Seq::new(rows.len(), |k: int| rows[k].2)
        } else {
            Seq::<Option<Seq<u8>>>::empty()
        }));
        assert(crate::datasets::balance_diffs::bytes_views(columns.address@) =~= (
        if t.spec_has_column("address"@) {
            Seq::new(rows.len(), |k: int| rows[k].3)
        } else {
            Seq::<Seq<u8>>::empty()
        }));
        assert(columns.from_value@ =~= (
        if t.spec_has_column("from_value"@) {
            Seq::new(rows.len(), |k: int| rows[k].4)
        } else {
            Seq::<U256>::empty()
        }));
        assert(columns.to_value@ =~= (
        if t.spec_has_column("to_value"@) {
            Seq::new(rows.len(), |k: int| rows[k].5)
        } else {
            Seq::<U256>::empty()
        }));
    }
    Ok(columns)
}

/// The rows every successful message of a storage drain stores, in
/// arrival order.
pub open spec fn spec_all_storage_rows(
    msgs: Seq<Result<BlockTxAddressOutput, CollectError>>,
) -> Seq<StorageRow>
    decreases msgs.len(),
{
    if msgs.len() == 0 {
        Seq::empty()
    } else {
        spec_all_storage_rows(msgs.drop_last()) + (match msgs.last() {
            Ok(d) => seq![(d.0, d.2@, d.3@, d.4@)],
            Err(_) => Seq::<StorageRow>::empty(),
        })
    }
}

proof fn lemma_storage_rows_prefix(msgs: Seq<Result<BlockTxAddressOutput, CollectError>>, i: int)
    requires
        0 <= i <= msgs.len(),
    ensures
        spec_all_storage_rows(msgs.take(i)).len() <= spec_all_storage_rows(msgs).len(),
    decreases msgs.len() - i,
{
    if i == msgs.len() {
        assert(msgs.take(i) =~= msgs);
    } else {
        lemma_storage_rows_prefix(msgs, i + 1);
        assert(msgs.take(i + 1).drop_last() =~= msgs.take(i));
        assert(msgs.take(i + 1).last() == msgs[i]);
    }
}

/// Drains the storage-read messages of one partition: stores every
/// response in arrival order into one builder, and stops at the first
/// error, which it returns.
pub fn transform_channel_storages(
    messages: Vec<Result<BlockTxAddressOutput, CollectError>>,
    schemas: &Schemas,
) -> (r: Result<Storages, CollectError>)
    requires
        spec_all_storage_rows(messages@).len() < usize::MAX,
    ensures
        match r {
            Ok(cols) => {
                &&& spec_schemas_get(schemas@, Datatype::Storages) matches Some(t) && cols.valid(
                    t,
                ) && cols.built_from(spec_all_storage_rows(messages@), t)
                &&& forall|j: int| 0 <= j < messages@.len() ==> (#[trigger] messages@[j]) is Ok
            },
            Err(e) => {
                ||| exists|j: int|
                    {
                        &&& 0 <= j < messages@.len()
                        &&& (#[trigger] messages@[j]) matches Err(e2) && e == e2
                        &&& (forall|k: int| 0 <= k < j ==> messages@[k] is Ok)
                    }
                ||| (spec_schemas_get(schemas@, Datatype::Storages) is None && e is CollectError)
            },
        },
{
    let ghost all = messages@;
    let mut remaining = messages;
    let n_total = remaining.len();
    let mut columns = Storages::default();
    let ghost b0 = columns;
    let mut i: usize = 0;
    proof {
        assert(all.skip(0) =~= all);
        assert(all.take(0) =~= Seq::<Result<BlockTxAddressOutput, CollectError>>::empty());
        if spec_schemas_get(schemas@, Datatype::Storages) is Some {
            lemma_storages_extended_refl(b0, spec_schemas_get(schemas@, Datatype::Storages)->0);
        }
    }
    while remaining.len() > 0
        invariant
            all == messages@,
            all.len() == n_total,
            i <= all.len(),
            remaining@ == all.skip(i as int),
            b0.n_rows == 0,
            spec_all_storage_rows(all).len() < usize::MAX,
            forall|k: int| 0 <= k < i ==> all[k] is Ok,
            match spec_schemas_get(schemas@, Datatype::Storages) {
                Option::Some(t) => columns.valid(t) && columns.extended_by(
                    b0,
                    spec_all_storage_rows(all.take(i as int)),
                    t,
                ),
                Option::None => true,
            },
        decreases remaining@.len(),
    {
        let msg = remaining.remove(0);
        proof {
            assert(all.skip(i as int)[0] == all[i as int]);
            assert(all.skip(i as int).remove(0) =~= all.skip(i as int + 1));
        }
        match msg {
            Ok(data) => {
                let schema = match schemas_get(schemas, Datatype::Storages) {
                    Some(t) => t,
                    None => {
                        return Err(crate::error::err("schema not provided"));
                    },
                };
                proof {
                    assert(all.take(i as int + 1).drop_last() =~= all.take(i as int));
                    assert(all.take(i as int + 1).last() == all[i as int]);
                    lemma_storage_rows_prefix(all, i as int + 1);
                    assert(columns.n_rows == b0.n_rows + spec_all_storage_rows(
                        all.take(i as int),
                    ).len());
                    assert(columns.n_rows < usize::MAX);
                }
                let ghost mid = columns;
                let ghost row: StorageRow = (data.0, data.2@, data.3@, data.4@);
                match process_nonce(&mut columns, data, schema) {
                    Ok(_) => {
                        proof {
                            let t = spec_schemas_get(schemas@, Datatype::Storages)->0;
                            assert(columns.block_number@ == (
                            if t.spec_has_column("block_number"@) {
                                mid.block_number@ + Seq::new(1, |k: int| seq![row][k].0)
                            } else {
                                mid.block_number@
                            })) by {
                                if t.spec_has_column("block_number"@) {
                                    assert(mid.block_number@.push(row.0) =~= mid.block_number@
                                        + Seq::new(1, |k: int| seq![row][k].0));
                                }
                            }
                            assert(crate::datasets::balance_diffs::bytes_views(columns.address@)
                                == (
                            if t.spec_has_column("address"@) {
                                crate::datasets::balance_diffs::bytes_views(mid.address@)
                                    + Seq::new(1, |k: int| seq![row][k].1)
                            } else {
                                crate::datasets::balance_diffs::bytes_views(mid.address@)
                            })) by {
                                if t.spec_has_column("address"@) {
                                    assert(crate::datasets::balance_diffs::bytes_views(
                                        mid.address@,
                                    ).push(row.1) =~= crate::datasets::balance_diffs::bytes_views(
                                        mid.address@,
                                    ) + Seq::new(1, |k: int| seq![row][k].1));
                                }
                            }
                            assert(crate::datasets::balance_diffs::bytes_views(columns.slot@) == (
                            if t.spec_has_column("slot"@) {
                                crate::datasets::balance_diffs::bytes_views(mid.slot@) + Seq::new(
                                    1,
                                    |k: int| seq![row][k].2,
                                )
                            } else {
                                crate::datasets::balance_diffs::bytes_views(mid.slot@)
                            })) by {
                                if t.spec_has_column("slot"@) {
                                    assert(crate::datasets::balance_diffs::bytes_views(
                                        mid.slot@,
                                    ).push(row.2) =~= crate::datasets::balance_diffs::bytes_views(
                                        mid.slot@,
                                    ) + Seq::new(1, |k: int| seq![row][k].2));
                                }
                            }
                            assert(crate::datasets::balance_diffs::bytes_views(columns.value@) == (
                            if t.spec_has_column("value"@) {
                                crate::datasets::balance_diffs::bytes_views(mid.value@) + Seq::new(
                                    1,
                                    |k: int| seq![row][k].3,
                                )
                            } else {
                                crate::datasets::balance_diffs::bytes_views(mid.value@)
                            })) by {
                                if t.spec_has_column("value"@) {
                                    assert(crate::datasets::balance_diffs::bytes_views(
                                        mid.value@,
                                    ).push(row.3) =~= crate::datasets::balance_diffs::bytes_views(
                                        mid.value@,
                                    ) + Seq::new(1, |k: int| seq![row][k].3));
                                }
                            }
                            assert(columns.chain_id@ =~= mid.chain_id@);
                            assert(Seq::new(1, |k: int| seq![row][k].0).len() == 1);
                            assert(columns.extended_by(mid, seq![row], t));
                            lemma_storages_extended_trans(
                                b0,
                                mid,
                                columns,
                                spec_all_storage_rows(all.take(i as int)),
                                seq![row],
                                t,
                            );
                            assert(spec_all_storage_rows(all.take(i as int + 1))
                                =~= spec_all_storage_rows(all.take(i as int)) + seq![row]);
                        }
                    },
                    Err(e) => {
                        return Err(e);
                    },
                }
            },
            Err(e) => {
                proof {
                    assert(all[i as int] matches Err(e2) && e == e2);
                }
                return Err(e);
            },
        }
        i = i + 1;
    }
    proof {
        assert(all.take(all.len() as int) =~= all);
    }
    if schemas_get(schemas, Datatype::Storages).is_none() {
        return Err(crate::error::err("schema not provided"));
    }
    proof {
        let t = spec_schemas_get(schemas@, Datatype::Storages)->0;
        let rows = spec_all_storage_rows(all);
        assert(columns.block_number@ =~= (
        if t.spec_has_column("block_number"@) {
            Seq::new(rows.len(), |k: int| rows[k].0)
        } else {
            Seq::<u32>::empty()
        }));
        assert(crate::datasets::balance_diffs::bytes_views(columns.address@) =~= (
        if t.spec_has_column("address"@) {
            Seq::new(rows.len(), |k: int| rows[k].1)
        } else {
            Seq::<Seq<u8>>::empty()
        }));
        assert(crate::datasets::balance_diffs::bytes_views(columns.slot@) =~= (
        if t.spec_has_column("slot"@) {
            Seq::new(rows.len(), |k: int| rows[k].2)
        } else {
            Seq::<Seq<u8>>::empty()
        }));
        assert(crate::datasets::balance_diffs::bytes_views(columns.value@) =~= (
        if t.spec_has_column("value"@) {
            Seq::new(rows.len(), |k: int| rows[k].3)
        } else {
            Seq::<Seq<u8>>::empty()
        }));
    }
    Ok(columns)
}


/// One emitted output column's values.
#[derive(Debug)]
pub enum ColumnData {
    /// 32-bit values.
    U32(Vec<u32>),
    /// Optional 32-bit values.
    OptU32(Vec<Option<u32>>),
    /// 64-bit values.
    U64(Vec<u64>),
    /// Optional 64-bit values.
    OptU64(Vec<Option<u64>>),
    /// Byte values.
    Binary(Vec<Vec<u8>>),
    /// Optional byte values.
    OptBinary(Vec<Option<Vec<u8>>>),
    /// 256-bit values, carried raw for the sink to finish.
    U256Raw(Vec<U256>),
}

/// How many values a column holds.
pub open spec fn col_len(c: ColumnData) -> int {
    match c {
        ColumnData::U32(v) => v@.len() as int,
        ColumnData::OptU32(v) => v@.len() as int,
        ColumnData::U64(v) => v@.len() as int,
        ColumnData::OptU64(v) => v@.len() as int,
        ColumnData::Binary(v) => v@.len() as int,
        ColumnData::OptBinary(v) => v@.len() as int,
        ColumnData::U256Raw(v) => v@.len() as int,
    }
}

/// The big-endian byte rendering of each value.
fn u256s_to_be(v: &Vec<U256>) -> (r: Vec<Vec<u8>>)
    ensures
        r@.len() == v@.len(),
        crate::datasets::balance_diffs::bytes_views(r@) == Seq::new(
            v@.len(),
            |i: int| spec_u256_be(v@[i]),
        ),
{
    let mut r: Vec<Vec<u8>> = Vec::new();
    let mut i: usize = 0;
    while i < v.len()
        invariant
            i <= v@.len(),
            r@.len() == i,
            forall|k: int|
                0 <= k < i ==> (#[trigger] r@[k])@ == spec_u256_be(v@[k]),
        decreases v@.len() - i,
    {
        r.push(u256_to_be_bytes(&v[i]));
        i = i + 1;
    }
    proof {
        assert(crate::datasets::balance_diffs::bytes_views(r@) =~= Seq::new(
            v@.len(),
            |i: int| spec_u256_be(v@[i]),
        ));
    }
    r
}

/// The low 64 bits of each value.
fn u256s_low(v: &Vec<U256>) -> (r: Vec<u64>)
    ensures
        r@ == Seq::new(v@.len(), |i: int| v@[i].l0),
{
    let mut r: Vec<u64> = Vec::new();
    let mut i: usize = 0;
    while i < v.len()
        invariant
            i <= v@.len(),
            r@.len() == i,
            forall|k: int| 0 <= k < i ==> r@[k] == v@[k].l0,
        decreases v@.len() - i,
    {
        r.push(v[i].low_u64());
        i = i + 1;
    }
    proof {
        assert(r@ =~= Seq::new(v@.len(), |i: int| v@[i].l0));
    }
    r
}

/// A copy of the values.
fn u256s_copy(v: &Vec<U256>) -> (r: Vec<U256>)
    ensures
        r@ == v@,
{
    let mut r: Vec<U256> = Vec::new();
    let mut i: usize = 0;
    while i < v.len()
        invariant
            i <= v@.len(),
            r@ == v@.take(i as int),
        decreases v@.len() - i,
    {
        r.push(v[i]);
        proof {
            assert(r@ =~= v@.take(i as int + 1));
        }
        i = i + 1;
    }
    proof {
        assert(v@.take(v@.len() as int) =~= v@);
    }
    r
}

/// The chain id, repeated once per row.
fn chain_id_column(n_rows: usize, chain_id: u64) -> (r: Vec<u64>)
    ensures
        r@ == Seq::new(n_rows as nat, |i: int| chain_id),
{
    let mut r: Vec<u64> = Vec::new();
    let mut i: usize = 0;
    while i < n_rows
        invariant
            i <= n_rows,
            r@.len() == i,
            forall|k: int| 0 <= k < i ==> r@[k] == chain_id,
        decreases n_rows - i,
    {
        r.push(chain_id);
        i = i + 1;
    }
    proof {
        assert(r@ =~= Seq::new(n_rows as nat, |i: int| chain_id));
    }
    r
}

/// What one emitted balance-diff column holds, by output name: the
/// builder's vector for its column; the chain id repeated per row;
/// and for a 256-bit column one derived column per representation —
/// big-endian bytes, the low 64 bits, or the raw value where the
/// sink finishes the rendering.
pub open spec fn spec_bd_column_ok(
    b: BalanceDiffs,
    chain_id: u64,
    name: Seq<char>,
    data: ColumnData,
) -> bool {
    if name == "block_number"@ {
        data matches ColumnData::OptU32(v) && v@ == b.block_number@
    } else if name == "transaction_index"@ {
        data matches ColumnData::OptU64(v) && v@ == b.transaction_index@
    } else if name == "transaction_hash"@ {
        data matches ColumnData::OptBinary(v) && opt_bytes_views(v@) == opt_bytes_views(
            b.transaction_hash@,
        )
    } else if name == "address"@ {
        data matches ColumnData::Binary(v) && crate::datasets::balance_diffs::bytes_views(v@)
            == crate::datasets::balance_diffs::bytes_views(b.address@)
    } else if name == "chain_id"@ {
        data matches ColumnData::U64(v) && v@ == Seq::new(b.n_rows as nat, |i: int| chain_id)
    } else if name == "from_value_binary"@ {
        data matches ColumnData::Binary(v) && crate::datasets::balance_diffs::bytes_views(v@)
            == Seq::new(b.from_value@.len(), |i: int| spec_u256_be(b.from_value@[i]))
    } else if name == "from_value_u64"@ {
        data matches ColumnData::U64(v) && v@ == Seq::new(
            b.from_value@.len(),
            |i: int| b.from_value@[i].l0,
        )
    } else if name == "from_value_string"@ || name == "from_value_f64"@ {
        data matches ColumnData::U256Raw(v) && v@ == b.from_value@
    } else if name == "to_value_binary"@ {
        data matches ColumnData::Binary(v) && crate::datasets::balance_diffs::bytes_views(v@)
            == Seq::new(b.to_value@.len(), |i: int| spec_u256_be(b.to_value@[i]))
    } else if name == "to_value_u64"@ {
        data matches ColumnData::U64(v) && v@ == Seq::new(
            b.to_value@.len(),
            |i: int| b.to_value@[i].l0,
        )
    } else if name == "to_value_string"@ || name == "to_value_f64"@ {
        data matches ColumnData::U256Raw(v) && v@ == b.to_value@
    } else {
        true
    }
}


fn copy_opt_u32(v: &Vec<Option<u32>>) -> (r: Vec<Option<u32>>)
    ensures
        r@ == v@,
{
    let mut r: Vec<Option<u32>> = Vec::new();
    let mut i: usize = 0;
    while i < v.len()
        invariant
            i <= v@.len(),
            r@ == v@.take(i as int),
        decreases v@.len() - i,
    {
        r.push(v[i]);
        proof {
            assert(r@ =~= v@.take(i as int + 1));
        }
        i = i + 1;
    }
    proof {
        assert(v@.take(v@.len() as int) =~= v@);
    }
    r
}

fn copy_opt_u64(v: &Vec<Option<u64>>) -> (r: Vec<Option<u64>>)
    ensures
        r@ == v@,
{
    let mut r: Vec<Option<u64>> = Vec::new();
    let mut i: usize = 0;
    while i < v.len()
        invariant
            i <= v@.len(),
            r@ == v@.take(i as int),
        decreases v@.len() - i,
    {
        r.push(v[i]);
        proof {
            assert(r@ =~= v@.take(i as int + 1));
        }
        i = i + 1;
    }
    proof {
        assert(v@.take(v@.len() as int) =~= v@);
    }
    r
}

fn copy_u32s(v: &Vec<u32>) -> (r: Vec<u32>)
    ensures
        r@ == v@,
{
    let mut r: Vec<u32> = Vec::new();
    let mut i: usize = 0;
    while i < v.len()
        invariant
            i <= v@.len(),
            r@ == v@.take(i as int),
        decreases v@.len() - i,
    {
        r.push(v[i]);
        proof {
            assert(r@ =~= v@.take(i as int + 1));
        }
        i = i + 1;
    }
    proof {
        assert(v@.take(v@.len() as int) =~= v@);
    }
    r
}

fn copy_bytes_vec(v: &Vec<Vec<u8>>) -> (r: Vec<Vec<u8>>)
    ensures
        r@.len() == v@.len(),
        crate::datasets::balance_diffs::bytes_views(r@) == crate::datasets::balance_diffs::bytes_views(v@),
{
    let mut r: Vec<Vec<u8>> = Vec::new();
    let mut i: usize = 0;
    while i < v.len()
        invariant
            i <= v@.len(),
            r@.len() == i,
            forall|k: int| 0 <= k < i ==> (#[trigger] r@[k])@ == v@[k]@,
        decreases v@.len() - i,
    {
        let c = v[i].clone();
        proof {
            assert(c@ =~= v@[i as int]@);
        }
        r.push(c);
        i = i + 1;
    }
    proof {
        assert(crate::datasets::balance_diffs::bytes_views(r@)
            =~= crate::datasets::balance_diffs::bytes_views(v@));
    }
    r
}

fn copy_opt_bytes_vec(v: &Vec<Option<Vec<u8>>>) -> (r: Vec<Option<Vec<u8>>>)
    ensures
        r@.len() == v@.len(),
        opt_bytes_views(r@) == opt_bytes_views(v@),
{
    let mut r: Vec<Option<Vec<u8>>> = Vec::new();
    let mut i: usize = 0;
    while i < v.len()
        invariant
            i <= v@.len(),
            r@.len() == i,
            forall|k: int|
                0 <= k < i ==> crate::datasets::balance_diffs::bytes_opt_view(#[trigger] r@[k])
                    == crate::datasets::balance_diffs::bytes_opt_view(v@[k]),
        decreases v@.len() - i,
    {
        let c = crate::partitions::clone_bytes_opt(&v[i]);
        r.push(c);
        i = i + 1;
    }
    proof {
        assert(opt_bytes_views(r@) =~= opt_bytes_views(v@));
    }
    r
}

impl BalanceDiffs {
    /// Turns the builder into named output columns: one per selected
    /// column in schema order, a 256-bit column expanded to one
    /// output column per chosen representation, and the chain id
    /// repeated per row.  Every emitted column carries exactly
    /// `n_rows` values, and the names are exactly the schema's output
    /// names.  Byte columns stay raw; the sink applies the binary
    /// encoding.
    pub fn create_dfs(&self, schemas: &Schemas, chain_id: u64) -> (r: Result<
        Vec<(String, ColumnData)>,
        CollectError,
    >)
        requires
            match spec_schemas_get(schemas@, Datatype::BalanceDiffs) {
                Option::Some(t) => self.valid(t) && self.n_rows <= usize::MAX && forall|k: int|
                    0 <= k < t.spec_columns().len()
                        ==> crate::schemas::spec_datatype_columns(Datatype::BalanceDiffs).contains(
                        #[trigger] t.spec_columns()[k],
                    ),
                Option::None => true,
            },
        ensures
            match r {
                Ok(cols) => {
                    &&& spec_schemas_get(schemas@, Datatype::BalanceDiffs) matches Some(t) && Seq::new(
                        cols@.len(),
                        |i: int| cols@[i].0@,
                    ) == crate::schemas::spec_output_names(t)
                    &&& forall|i: int|
                        0 <= i < cols@.len() ==> col_len((#[trigger] cols@[i]).1)
                            == self.n_rows as int
                    &&& forall|i: int|
                        0 <= i < cols@.len() ==> spec_bd_column_ok(
                            *self,
                            chain_id,
                            (#[trigger] cols@[i]).0@,
                            cols@[i].1,
                        )
                },
                Err(e) => spec_schemas_get(schemas@, Datatype::BalanceDiffs) is None && e
                    is CollectError,
            },
    {
        let schema = match schemas_get(schemas, Datatype::BalanceDiffs) {
            Some(t) => t,
            None => {
                return Err(crate::error::err("schema not provided"));
            },
        };
        let ghost t = spec_schemas_get(schemas@, Datatype::BalanceDiffs)->0;
        let mut cols: Vec<(String, ColumnData)> = Vec::new();
        let mut i: usize = 0;
        proof {
            assert(Seq::new(cols@.len(), |k: int| cols@[k].0@) =~= crate::schemas::spec_output_names_of(
                t.spec_columns().take(0),
                t.u256_types@,
            ));
        }
        while i < schema.columns.len()
            invariant
                *schema == t,
                spec_schemas_get(schemas@, Datatype::BalanceDiffs) == Option::Some(t),
                self.valid(t),
                self.n_rows <= usize::MAX,
                forall|k: int|
                    0 <= k < t.spec_columns().len()
                        ==> crate::schemas::spec_datatype_columns(Datatype::BalanceDiffs).contains(
                        #[trigger] t.spec_columns()[k],
                    ),
                i <= schema.columns@.len(),
                Seq::new(cols@.len(), |k: int| cols@[k].0@) == crate::schemas::spec_output_names_of(
                    t.spec_columns().take(i as int),
                    t.u256_types@,
                ),
                forall|k: int|
                    0 <= k < cols@.len() ==> col_len((#[trigger] cols@[k]).1) == self.n_rows as int,
                forall|k: int|
                    0 <= k < cols@.len() ==> spec_bd_column_ok(
                        *self,
                        chain_id,
                        (#[trigger] cols@[k]).0@,
                        cols@[k].1,
                    ),
            decreases schema.columns@.len() - i,
        {
            let name: &String = &schema.columns[i].0;
            let typ = schema.columns[i].1;
            let ghost colpair = t.spec_columns()[i as int];
            proof {
                assert(crate::schemas::spec_datatype_columns(Datatype::BalanceDiffs).contains(
                    colpair,
                ));
                assert(t.spec_has_column(colpair.0)) by {
                    assert((#[trigger] t.spec_columns()[i as int]).0 == colpair.0);
                }
            }
            let is_u256 = match typ {
                crate::schemas::ColumnType::UInt256 => true,
                _ => false,
            };
            let ghost pre_names = Seq::new(cols@.len(), |k: int| cols@[k].0@);
            if is_u256 {
                let src: &Vec<U256> = if str_eq(name.as_str(), "from_value") {
                    &self.from_value
                } else if str_eq(name.as_str(), "to_value") {
                    &self.to_value
                } else {
                    proof {
                        let full = crate::schemas::spec_datatype_columns(Datatype::BalanceDiffs);
                        let w = choose|w: int| 0 <= w < full.len() && full[w] == colpair;
                        assert(false);
                    }
                    &self.from_value
                };
                let ghost src_is_from = colpair.0 == "from_value"@;
                let mut j: usize = 0;
                proof {
                    assert(crate::schemas::spec_expand_column(
                        colpair.0,
                        colpair.1,
                        t.u256_types@.take(0),
                    ) =~= Seq::<Seq<char>>::empty());
                    assert(Seq::new(cols@.len(), |k: int| cols@[k].0@) =~= pre_names
                        + crate::schemas::spec_expand_column(
                        colpair.0,
                        colpair.1,
                        t.u256_types@.take(0),
                    ));
                }
                while j < schema.u256_types.len()
                    invariant
                        *schema == t,
                        spec_schemas_get(schemas@, Datatype::BalanceDiffs) == Option::Some(t),
                        self.valid(t),
                        self.n_rows <= usize::MAX,
                        i < schema.columns@.len(),
                        name@ == colpair.0,
                        colpair == t.spec_columns()[i as int],
                        colpair.1 is UInt256,
                        src_is_from == (colpair.0 == "from_value"@),
                        src_is_from ==> src@ == self.from_value@,
                        !src_is_from ==> colpair.0 == "to_value"@ && src@ == self.to_value@,
                        src@.len() == self.n_rows as int,
                        j <= schema.u256_types@.len(),
                        pre_names == crate::schemas::spec_output_names_of(
                            t.spec_columns().take(i as int),
                            t.u256_types@,
                        ),
                        Seq::new(cols@.len(), |k: int| cols@[k].0@) == pre_names
                            + crate::schemas::spec_expand_column(
                            colpair.0,
                            colpair.1,
                            t.u256_types@.take(j as int),
                        ),
                        forall|k: int|
                            0 <= k < cols@.len() ==> col_len((#[trigger] cols@[k]).1)
                                == self.n_rows as int,
                        forall|k: int|
                            0 <= k < cols@.len() ==> spec_bd_column_ok(
                                *self,
                                chain_id,
                                (#[trigger] cols@[k]).0@,
                                cols@[k].1,
                            ),
                    decreases schema.u256_types@.len() - j,
                {
                    let rep = schema.u256_types[j];
                    let out_name = name.clone().concat(rep.suffix());
                    let data = match rep {
                        U256Type::Binary => ColumnData::Binary(u256s_to_be(src)),
                        U256Type::U64Low => ColumnData::U64(u256s_low(src)),
                        U256Type::DecimalString => ColumnData::U256Raw(u256s_copy(src)),
                        U256Type::F64 => ColumnData::U256Raw(u256s_copy(src)),
                    };
                    proof {
                        assert(out_name@ == colpair.0 + t.u256_types@[j as int].spec_suffix());
                        reveal_strlit("block_number");
                        reveal_strlit("transaction_index");
                        reveal_strlit("transaction_hash");
                        reveal_strlit("address");
                        reveal_strlit("chain_id");
                        reveal_strlit("from_value");
                        reveal_strlit("to_value");
                        reveal_strlit("from_value_binary");
                        reveal_strlit("from_value_u64");
                        reveal_strlit("from_value_string");
                        reveal_strlit("from_value_f64");
                        reveal_strlit("to_value_binary");
                        reveal_strlit("to_value_u64");
                        reveal_strlit("to_value_string");
                        reveal_strlit("to_value_f64");
                        reveal_strlit("_binary");
                        reveal_strlit("_u64");
                        reveal_strlit("_string");
                        reveal_strlit("_f64");
                        assert("from_value_binary"@[0] == 'f');
                        assert("from_value_string"@[0] == 'f');
                        assert("from_value_u64"@[0] == 'f');
                        assert("from_value_f64"@[0] == 'f');
                        assert("transaction_index"@[0] == 't');
                        assert("block_number"@[0] == 'b');
                        assert("to_value_u64"@[0] == 't');
                        assert("to_value_f64"@[0] == 't');
                        assert("to_value_u64"@[9] == 'u');
                        assert("to_value_f64"@[9] == 'f');
                        assert("from_value_binary"@[11] == 'b');
                        assert("from_value_string"@[11] == 's');
                        assert("to_value_binary"@[9] == 'b');
                        assert("to_value_string"@[9] == 's');
                        assert("from_value_u64"@[11] == 'u');
                        assert("from_value_f64"@[11] == 'f');
                        let src_seq = if src_is_from {
                            self.from_value@
                        } else {
                            self.to_value@
                        };
                        assert(src@ == src_seq);
                        assert(Seq::new(src@.len(), |k: int| spec_u256_be(src@[k])) =~= Seq::new(
                            src_seq.len(),
                            |k: int| spec_u256_be(src_seq[k]),
                        ));
                        assert(Seq::new(src@.len(), |k: int| src@[k].l0) =~= Seq::new(
                            src_seq.len(),
                            |k: int| src_seq[k].l0,
                        ));
                        if src_is_from {
                            match t.u256_types@[j as int] {
                                U256Type::Binary => {
                                    assert(out_name@ =~= "from_value_binary"@);
                                },
                                U256Type::U64Low => {
                                    assert(out_name@ =~= "from_value_u64"@);
                                },
                                U256Type::DecimalString => {
                                    assert(out_name@ =~= "from_value_string"@);
                                },
                                U256Type::F64 => {
                                    assert(out_name@ =~= "from_value_f64"@);
                                },
                            }
                        } else {
                            match t.u256_types@[j as int] {
                                U256Type::Binary => {
                                    assert(out_name@ =~= "to_value_binary"@);
                                },
                                U256Type::U64Low => {
                                    assert(out_name@ =~= "to_value_u64"@);
                                },
                                U256Type::DecimalString => {
                                    assert(out_name@ =~= "to_value_string"@);
                                },
                                U256Type::F64 => {
                                    assert(out_name@ =~= "to_value_f64"@);
                                },
                            }
                        }
                        if src_is_from {
                            match t.u256_types@[j as int] {
                                U256Type::Binary => {
                                    assert(data matches ColumnData::Binary(v)
                                        && crate::datasets::balance_diffs::bytes_views(v@)
                                        =~= Seq::new(
                                        self.from_value@.len(),
                                        |k: int| spec_u256_be(self.from_value@[k]),
                                    ));
                                },
                                U256Type::U64Low => {
                                    assert(data matches ColumnData::U64(v) && v@ =~= Seq::new(
                                        self.from_value@.len(),
                                        |k: int| self.from_value@[k].l0,
                                    ));
                                },
                                _ => {
                                    assert(data matches ColumnData::U256Raw(v) && v@
                                        =~= self.from_value@);
                                },
                            }
                        } else {
                            match t.u256_types@[j as int] {
                                U256Type::Binary => {
                                    assert(data matches ColumnData::Binary(v)
                                        && crate::datasets::balance_diffs::bytes_views(v@)
                                        =~= Seq::new(
                                        self.to_value@.len(),
                                        |k: int| spec_u256_be(self.to_value@[k]),
                                    ));
                                },
                                U256Type::U64Low => {
                                    assert(data matches ColumnData::U64(v) && v@ =~= Seq::new(
                                        self.to_value@.len(),
                                        |k: int| self.to_value@[k].l0,
                                    ));
                                },
                                _ => {
                                    assert(data matches ColumnData::U256Raw(v) && v@
                                        =~= self.to_value@);
                                },
                            }
                        }
                        assert(spec_bd_column_ok(*self, chain_id, out_name@, data));
                    }
                    let ghost pn = Seq::new(cols@.len(), |k: int| cols@[k].0@);
                    cols.push((out_name, data));
                    proof {
                        assert(Seq::new(cols@.len(), |k: int| cols@[k].0@) =~= pn.push(
                            colpair.0 + t.u256_types@[j as int].spec_suffix(),
                        ));
                        assert(t.u256_types@.take(j as int + 1).drop_last() =~= t.u256_types@.take(
                            j as int,
                        ));
                        assert(t.u256_types@.take(j as int + 1).last() == t.u256_types@[j as int]);
                        assert(Seq::new(cols@.len(), |k: int| cols@[k].0@) =~= pre_names
                            + crate::schemas::spec_expand_column(
                            colpair.0,
                            colpair.1,
                            t.u256_types@.take(j as int + 1),
                        ));
                    }
                    j = j + 1;
                }
                proof {
                    assert(t.u256_types@.take(t.u256_types@.len() as int) =~= t.u256_types@);
                }
            } else {
                let data: ColumnData = if str_eq(name.as_str(), "block_number") {
                    ColumnData::OptU32(copy_opt_u32(&self.block_number))
                } else if str_eq(name.as_str(), "transaction_index") {
                    ColumnData::OptU64(copy_opt_u64(&self.transaction_index))
                } else if str_eq(name.as_str(), "transaction_hash") {
                    ColumnData::OptBinary(copy_opt_bytes_vec(&self.transaction_hash))
                } else if str_eq(name.as_str(), "address") {
                    ColumnData::Binary(copy_bytes_vec(&self.address))
                } else if str_eq(name.as_str(), "chain_id") {
                    let n: usize = self.n_rows as usize;
                    ColumnData::U64(chain_id_column(n, chain_id))
                } else {
                    proof {
                        let full = crate::schemas::spec_datatype_columns(Datatype::BalanceDiffs);
                        let w = choose|w: int| 0 <= w < full.len() && full[w] == colpair;
                        reveal_strlit("from_value");
                        reveal_strlit("to_value");
                        assert(false);
                    }
                    ColumnData::U64(Vec::new())
                };
                let out_name = name.clone();
                proof {
                    assert(spec_bd_column_ok(*self, chain_id, out_name@, data));
                    assert(col_len(data) == self.n_rows as int);
                }
                let ghost pn = Seq::new(cols@.len(), |k: int| cols@[k].0@);
                cols.push((out_name, data));
                proof {
                    assert(Seq::new(cols@.len(), |k: int| cols@[k].0@) =~= pn.push(colpair.0));
                    assert(Seq::new(cols@.len(), |k: int| cols@[k].0@) =~= pre_names
                        + crate::schemas::spec_expand_column(colpair.0, colpair.1, t.u256_types@));
                }
            }
            proof {
                assert(t.spec_columns().take(i as int + 1).drop_last() =~= t.spec_columns().take(
                    i as int,
                ));
                assert(t.spec_columns().take(i as int + 1).last() == t.spec_columns()[i as int]);
                assert(Seq::new(cols@.len(), |k: int| cols@[k].0@)
                    =~= crate::schemas::spec_output_names_of(
                    t.spec_columns().take(i as int + 1),
                    t.u256_types@,
                ));
            }
            i = i + 1;
        }
        proof {
            assert(t.spec_columns().take(t.spec_columns().len() as int) =~= t.spec_columns());
        }
        Ok(cols)
    }
}


/// What one emitted storage column holds, by output name.
pub open spec fn spec_storage_column_ok(
    b: Storages,
    chain_id: u64,
    name: Seq<char>,
    data: ColumnData,
) -> bool {
    if name == "block_number"@ {
        data matches ColumnData::U32(v) && v@ == b.block_number@
    } else if name == "address"@ {
        data matches ColumnData::Binary(v) && crate::datasets::balance_diffs::bytes_views(v@)
            == crate::datasets::balance_diffs::bytes_views(b.address@)
    } else if name == "slot"@ {
        data matches ColumnData::Binary(v) && crate::datasets::balance_diffs::bytes_views(v@)
            == crate::datasets::balance_diffs::bytes_views(b.slot@)
    } else if name == "value"@ {
        data matches ColumnData::Binary(v) && crate::datasets::balance_diffs::bytes_views(v@)
            == crate::datasets::balance_diffs::bytes_views(b.value@)
    } else if name == "chain_id"@ {
        data matches ColumnData::U64(v) && v@ == Seq::new(b.n_rows as nat, |i: int| chain_id)
    } else {
        true
    }
}

impl Storages {
    /// Turns the builder into named output columns, one per selected
    /// column in schema order, with the chain id repeated per row.
    /// Every emitted column carries exactly `n_rows` values, and the
    /// names are exactly the schema's output names.  Byte columns
    /// stay raw; the sink applies the binary encoding.
    pub fn create_dfs(&self, schemas: &Schemas, chain_id: u64) -> (r: Result<
        Vec<(String, ColumnData)>,
        CollectError,
    >)
        requires
            match spec_schemas_get(schemas@, Datatype::Storages) {
                Option::Some(t) => self.valid(t) && forall|k: int|
                    0 <= k < t.spec_columns().len()
                        ==> crate::schemas::spec_datatype_columns(Datatype::Storages).contains(
                        #[trigger] t.spec_columns()[k],
                    ),
                Option::None => true,
            },
        ensures
            match r {
                Ok(cols) => {
                    &&& spec_schemas_get(schemas@, Datatype::Storages) matches Some(t) && Seq::new(
                        cols@.len(),
                        |i: int| cols@[i].0@,
                    ) == crate::schemas::spec_output_names(t)
                    &&& forall|i: int|
                        0 <= i < cols@.len() ==> col_len((#[trigger] cols@[i]).1)
                            == self.n_rows as int
                    &&& forall|i: int|
                        0 <= i < cols@.len() ==> spec_storage_column_ok(
                            *self,
                            chain_id,
                            (#[trigger] cols@[i]).0@,
                            cols@[i].1,
                        )
                },
                Err(e) => spec_schemas_get(schemas@, Datatype::Storages) is None && e
                    is CollectError,
            },
    {
        let schema = match schemas_get(schemas, Datatype::Storages) {
            Some(t) => t,
            None => {
                return Err(crate::error::err("schema not provided"));
            },
        };
        let ghost t = spec_schemas_get(schemas@, Datatype::Storages)->0;
        let mut cols: Vec<(String, ColumnData)> = Vec::new();
        let mut i: usize = 0;
        proof {
            assert(Seq::new(cols@.len(), |k: int| cols@[k].0@)
                =~= crate::schemas::spec_output_names_of(
                t.spec_columns().take(0),
                t.u256_types@,
            ));
        }
        while i < schema.columns.len()
            invariant
                *schema == t,
                spec_schemas_get(schemas@, Datatype::Storages) == Option::Some(t),
                self.valid(t),
                forall|k: int|
                    0 <= k < t.spec_columns().len()
                        ==> crate::schemas::spec_datatype_columns(Datatype::Storages).contains(
                        #[trigger] t.spec_columns()[k],
                    ),
                i <= schema.columns@.len(),
                Seq::new(cols@.len(), |k: int| cols@[k].0@) == crate::schemas::spec_output_names_of(
                    t.spec_columns().take(i as int),
                    t.u256_types@,
                ),
                forall|k: int|
                    0 <= k < cols@.len() ==> col_len((#[trigger] cols@[k]).1) == self.n_rows as int,
                forall|k: int|
                    0 <= k < cols@.len() ==> spec_storage_column_ok(
                        *self,
                        chain_id,
                        (#[trigger] cols@[k]).0@,
                        cols@[k].1,
                    ),
            decreases schema.columns@.len() - i,
        {
            let name: &String = &schema.columns[i].0;
            let ghost colpair = t.spec_columns()[i as int];
            proof {
                assert(crate::schemas::spec_datatype_columns(Datatype::Storages).contains(colpair));
                assert(t.spec_has_column(colpair.0)) by {
                    assert((#[trigger] t.spec_columns()[i as int]).0 == colpair.0);
                }
            }
            let data: ColumnData = if str_eq(name.as_str(), "block_number") {
                ColumnData::U32(copy_u32s(&self.block_number))
            } else if str_eq(name.as_str(), "address") {
                ColumnData::Binary(copy_bytes_vec(&self.address))
            } else if str_eq(name.as_str(), "slot") {
                ColumnData::Binary(copy_bytes_vec(&self.slot))
            } else if str_eq(name.as_str(), "value") {
                ColumnData::Binary(copy_bytes_vec(&self.value))
            } else if str_eq(name.as_str(), "chain_id") {
                ColumnData::U64(chain_id_column(self.n_rows, chain_id))
            } else {
                proof {
                    let full = crate::schemas::spec_datatype_columns(Datatype::Storages);
                    let w = choose|w: int| 0 <= w < full.len() && full[w] == colpair;
                    assert(false);
                }
                ColumnData::U64(Vec::new())
            };
            let out_name = name.clone();
            proof {
                assert(spec_storage_column_ok(*self, chain_id, out_name@, data));
                assert(col_len(data) == self.n_rows as int);
                assert(colpair.1 is UInt256 == false) by {
                    let full = crate::schemas::spec_datatype_columns(Datatype::Storages);
                    let w = choose|w: int| 0 <= w < full.len() && full[w] == colpair;
                }
            }
            let ghost pn = Seq::new(cols@.len(), |k: int| cols@[k].0@);
            cols.push((out_name, data));
            proof {
                assert(Seq::new(cols@.len(), |k: int| cols@[k].0@) =~= pn.push(colpair.0));
                assert(Seq::new(cols@.len(), |k: int| cols@[k].0@) =~= pn
                    + crate::schemas::spec_expand_column(colpair.0, colpair.1, t.u256_types@));
                assert(t.spec_columns().take(i as int + 1).drop_last() =~= t.spec_columns().take(
                    i as int,
                ));
                assert(t.spec_columns().take(i as int + 1).last() == t.spec_columns()[i as int]);
                assert(Seq::new(cols@.len(), |k: int| cols@[k].0@)
                    =~= crate::schemas::spec_output_names_of(
                    t.spec_columns().take(i as int + 1),
                    t.u256_types@,
                ));
            }
            i = i + 1;
        }
        proof {
            assert(t.spec_columns().take(t.spec_columns().len() as int) =~= t.spec_columns());
        }
        Ok(cols)
    }
}


/// When a datatype implements both collectors, extraction goes by
/// transaction exactly when the partition populates transaction
/// hashes and no block dimension; otherwise it goes by block.
pub fn use_by_transaction(partition: &crate::partitions::Partition) -> (r: bool)
    ensures
        r == (partition.transactions is Some && partition.block_numbers is None),
{
    partition.transactions.is_some() && partition.block_numbers.is_none()
}

} // verus!
