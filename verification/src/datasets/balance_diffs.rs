//! Columns for balance state diffs.

use vstd::prelude::*;
use crate::datatypes::Datatype;
use crate::error::CollectError;
use crate::schemas::{spec_schemas_get, schemas_get, Schemas, Table};
use crate::u256::U256;

verus! {

/// How one account's value changed within one transaction's state
/// diff.
#[derive(Debug, Clone, Copy, PartialEq, Eq, Structural)]
pub enum Diff {
    /// The value did not change.
    Same,
    /// The account came into existence with this value.
    Born(U256),
    /// The account ceased to exist; this was its value.
    Died(U256),
    /// The value changed from the first to the second.
    Changed(U256, U256),
}

/// The state changes of one account within one transaction.
#[derive(Debug, Clone, Copy, PartialEq, Eq, Structural)]
pub struct AccountDiff {
    /// The balance change.
    pub balance: Diff,
}

/// The state diff of one transaction: the touched accounts with their
/// changes, or nothing when the trace carries no state diff.
#[derive(Debug, Clone)]
pub struct BlockTrace {
    /// Account address and change, in trace order.
    pub state_diff: Option<Vec<(Vec<u8>, AccountDiff)>>,
}

/// One block's traces: the block number, one optional transaction
/// hash per transaction, and one trace per transaction.
pub type BlockTxsTraces = (Option<u32>, Vec<Option<Vec<u8>>>, Vec<BlockTrace>);

/// The `(from, to)` values a diff emits: none for `Same`, zero to the
/// value for `Born`, the value to zero for `Died`, and both values
/// verbatim for `Changed`.
pub open spec fn spec_diff_from_to(d: Diff) -> Option<(U256, U256)> {
    match d {
        Diff::Same => Option::None,
        Diff::Born(v) => Option::Some((U256 { l0: 0, l1: 0, l2: 0, l3: 0 }, v)),
        Diff::Died(v) => Option::Some((v, U256 { l0: 0, l1: 0, l2: 0, l3: 0 })),
        Diff::Changed(f, t) => Option::Some((f, t)),
    }
}

/// One emitted balance-diff row: block number, transaction index,
/// transaction hash, address, from value, to value.
pub type BalanceRow = (Option<u32>, u64, Option<Seq<u8>>, Seq<u8>, U256, U256);

/// The view of an optional byte value.
pub open spec fn bytes_opt_view(o: Option<Vec<u8>>) -> Option<Seq<u8>> {
    match o {
        Option::None => Option::None,
        Option::Some(v) => Option::Some(v@),
    }
}

/// The views of a column of optional byte values.
pub open spec fn opt_bytes_views(s: Seq<Option<Vec<u8>>>) -> Seq<Option<Seq<u8>>> {
    Seq::new(s.len(), |i: int| bytes_opt_view(s[i]))
}

/// The views of a column of byte values.
pub open spec fn bytes_views(s: Seq<Vec<u8>>) -> Seq<Seq<u8>> {
    Seq::new(s.len(), |i: int| s[i]@)
}

/// The rows one transaction's state diff emits, in order.
pub open spec fn spec_trace_rows(
    sd: Seq<(Vec<u8>, AccountDiff)>,
    block: Option<u32>,
    tx: Option<Seq<u8>>,
    index: u64,
) -> Seq<BalanceRow>
    decreases sd.len(),
{
    if sd.len() == 0 {
        Seq::empty()
    } else {
        spec_trace_rows(sd.drop_last(), block, tx, index) + (
        match spec_diff_from_to(sd.last().1.balance) {
            Option::None => Seq::empty(),
            Option::Some(ft) => seq![(block, index, tx, sd.last().0@, ft.0, ft.1)],
        })
    }
}

/// The rows of one trace, or none when the trace carries no state
/// diff.
pub open spec fn spec_one_trace_rows(
    trace: BlockTrace,
    block: Option<u32>,
    tx: Option<Seq<u8>>,
    index: u64,
) -> Seq<BalanceRow> {
    match trace.state_diff {
        Option::None => Seq::empty(),
        Option::Some(sd) => spec_trace_rows(sd@, block, tx, index),
    }
}

/// The rows the first `n` transactions of a response emit, in order.
pub open spec fn spec_rows_upto(r: BlockTxsTraces, n: int) -> Seq<BalanceRow>
    decreases n,
{
    if n <= 0 {
        Seq::empty()
    } else {
        spec_rows_upto(r, n - 1) + spec_one_trace_rows(
            r.2@[n - 1],
            r.0,
            bytes_opt_view(r.1@[n - 1]),
            (n - 1) as u64,
        )
    }
}

/// The number of transactions a response pairs up: traces and hashes
/// zipped positionally.
pub open spec fn spec_n_txs(r: BlockTxsTraces) -> int {
    if r.1@.len() <= r.2@.len() {
        r.1@.len() as int
    } else {
        r.2@.len() as int
    }
}

/// The rows a response emits, in order.
pub open spec fn spec_response_rows(r: BlockTxsTraces) -> Seq<BalanceRow> {
    spec_rows_upto(r, spec_n_txs(r))
}

/// Column builder for balance diffs: parallel vectors, one per
/// selected column, plus the row count.
#[derive(Debug)]
pub struct BalanceDiffs {
    /// How many rows have been stored.
    pub n_rows: u64,
    /// Block numbers.
    pub block_number: Vec<Option<u32>>,
    /// Transaction indices.
    pub transaction_index: Vec<Option<u64>>,
    /// Transaction hashes.
    pub transaction_hash: Vec<Option<Vec<u8>>>,
    /// Account addresses.
    pub address: Vec<Vec<u8>>,
    /// Values before.
    pub from_value: Vec<U256>,
    /// Values after.
    pub to_value: Vec<U256>,
    /// The chain id, filled once the builder becomes dataframes.
    pub chain_id: Vec<u64>,
}

impl Default for BalanceDiffs {
    /// An empty builder.
    fn default() -> (r: BalanceDiffs)
        ensures
            r.n_rows == 0,
            r.block_number@.len() == 0,
            r.transaction_index@.len() == 0,
            r.transaction_hash@.len() == 0,
            r.address@.len() == 0,
            r.from_value@.len() == 0,
            r.to_value@.len() == 0,
            r.chain_id@.len() == 0,
    {
        BalanceDiffs {
            n_rows: 0,
            block_number: Vec::new(),
            transaction_index: Vec::new(),
            transaction_hash: Vec::new(),
            address: Vec::new(),
            from_value: Vec::new(),
            to_value: Vec::new(),
            chain_id: Vec::new(),
        }
    }
}

impl BalanceDiffs {
    /// The builder invariant: every column the schema selects holds
    /// exactly `n_rows` values, and every other column stays empty.
    pub open spec fn valid(self, schema: Table) -> bool {
        &&& self.block_number@.len() == (
        if schema.spec_has_column("block_number"@) {
            self.n_rows as int
        } else {
            0
        })
        &&& self.transaction_index@.len() == (
        if schema.spec_has_column("transaction_index"@) {
            self.n_rows as int
        } else {
            0
        })
        &&& self.transaction_hash@.len() == (
        if schema.spec_has_column("transaction_hash"@) {
            self.n_rows as int
        } else {
            0
        })
        &&& self.address@.len() == (
        if schema.spec_has_column("address"@) {
            self.n_rows as int
        } else {
            0
        })
        &&& self.from_value@.len() == (
        if schema.spec_has_column("from_value"@) {
            self.n_rows as int
        } else {
            0
        })
        &&& self.to_value@.len() == (
        if schema.spec_has_column("to_value"@) {
            self.n_rows as int
        } else {
            0
        })
        &&& self.chain_id@.len() == 0
    }


    /// The builder holds exactly these rows, from an empty start.
    pub open spec fn built_from(self, rows: Seq<BalanceRow>, schema: Table) -> bool {
        &&& self.n_rows == rows.len()
        &&& self.block_number@ == (
        if schema.spec_has_column("block_number"@) {
            Seq::new(rows.len(), |i: int| rows[i].0)
        } else {
            Seq::<Option<u32>>::empty()
        })
        &&& self.transaction_index@ == (
        if schema.spec_has_column("transaction_index"@) {
            Seq::new(rows.len(), |i: int| Option::Some(rows[i].1))
        } else {
            Seq::<Option<u64>>::empty()
        })
        &&& opt_bytes_views(self.transaction_hash@) == (
        if schema.spec_has_column("transaction_hash"@) {
            Seq::new(rows.len(), |i: int| rows[i].2)
        } else {
            Seq::<Option<Seq<u8>>>::empty()
        })
        &&& bytes_views(self.address@) == (
        if schema.spec_has_column("address"@) {
            Seq::new(rows.len(), |i: int| rows[i].3)
        } else {
            Seq::<Seq<u8>>::empty()
        })
        &&& self.from_value@ == (
        if schema.spec_has_column("from_value"@) {
            Seq::new(rows.len(), |i: int| rows[i].4)
        } else {
            Seq::<U256>::empty()
        })
        &&& self.to_value@ == (
        if schema.spec_has_column("to_value"@) {
            Seq::new(rows.len(), |i: int| rows[i].5)
        } else {
            Seq::<U256>::empty()
        })
        &&& self.chain_id@.len() == 0
    }

    /// The builder's columns, extended by the given rows wherever the
    /// schema selects the column, and untouched elsewhere.
    pub open spec fn extended_by(
        self,
        old_b: BalanceDiffs,
        rows: Seq<BalanceRow>,
        schema: Table,
    ) -> bool {
        &&& self.n_rows == old_b.n_rows + rows.len()
        &&& self.block_number@ == (
        if schema.spec_has_column("block_number"@) {
            old_b.block_number@ + Seq::new(rows.len(), |i: int| rows[i].0)
        } else {
            old_b.block_number@
        })
        &&& self.transaction_index@ == (
        if schema.spec_has_column("transaction_index"@) {
            old_b.transaction_index@ + Seq::new(rows.len(), |i: int| Option::Some(rows[i].1))
        } else {
            old_b.transaction_index@
        })
        &&& opt_bytes_views(self.transaction_hash@) == (
        if schema.spec_has_column("transaction_hash"@) {
            opt_bytes_views(old_b.transaction_hash@) + Seq::new(rows.len(), |i: int| rows[i].2)
        } else {
            opt_bytes_views(old_b.transaction_hash@)
        })
        &&& bytes_views(self.address@) == (
        if schema.spec_has_column("address"@) {
            bytes_views(old_b.address@) + Seq::new(rows.len(), |i: int| rows[i].3)
        } else {
            bytes_views(old_b.address@)
        })
        &&& self.from_value@ == (
        if schema.spec_has_column("from_value"@) {
            old_b.from_value@ + Seq::new(rows.len(), |i: int| rows[i].4)
        } else {
            old_b.from_value@
        })
        &&& self.to_value@ == (
        if schema.spec_has_column("to_value"@) {
            old_b.to_value@ + Seq::new(rows.len(), |i: int| rows[i].5)
        } else {
            old_b.to_value@
        })
        &&& self.chain_id@ == old_b.chain_id@
    }
}

pub proof fn lemma_extended_refl(b: BalanceDiffs, schema: Table)
    ensures
        b.extended_by(b, Seq::empty(), schema),
{
    assert(b.block_number@ =~= b.block_number@ + Seq::new(0, |i: int| Seq::<BalanceRow>::empty()[i].0));
    assert(b.transaction_index@ =~= b.transaction_index@ + Seq::new(
        0,
        |i: int| Option::Some(Seq::<BalanceRow>::empty()[i].1),
    ));
    assert(opt_bytes_views(b.transaction_hash@) =~= opt_bytes_views(b.transaction_hash@)
        + Seq::new(0, |i: int| Seq::<BalanceRow>::empty()[i].2));
    assert(bytes_views(b.address@) =~= bytes_views(b.address@) + Seq::new(
        0,
        |i: int| Seq::<BalanceRow>::empty()[i].3,
    ));
    assert(b.from_value@ =~= b.from_value@ + Seq::new(
        0,
        |i: int| Seq::<BalanceRow>::empty()[i].4,
    ));
    assert(b.to_value@ =~= b.to_value@ + Seq::new(0, |i: int| Seq::<BalanceRow>::empty()[i].5));
}

pub proof fn lemma_extended_trans(
    b0: BalanceDiffs,
    b1: BalanceDiffs,
    b2: BalanceDiffs,
    rows1: Seq<BalanceRow>,
    rows2: Seq<BalanceRow>,
    schema: Table,
)
    requires
        b1.extended_by(b0, rows1, schema),
        b2.extended_by(b1, rows2, schema),
    ensures
        b2.extended_by(b0, rows1 + rows2, schema),
{
    let rows = rows1 + rows2;
    assert(Seq::new(rows.len(), |i: int| rows[i].0) =~= Seq::new(rows1.len(), |i: int| rows1[i].0)
        + Seq::new(rows2.len(), |i: int| rows2[i].0));
    assert(Seq::new(rows.len(), |i: int| Option::Some(rows[i].1)) =~= Seq::new(
        rows1.len(),
        |i: int| Option::Some(rows1[i].1),
    ) + Seq::new(rows2.len(), |i: int| Option::Some(rows2[i].1)));
    assert(Seq::new(rows.len(), |i: int| rows[i].2) =~= Seq::new(rows1.len(), |i: int| rows1[i].2)
        + Seq::new(rows2.len(), |i: int| rows2[i].2));
    assert(Seq::new(rows.len(), |i: int| rows[i].3) =~= Seq::new(rows1.len(), |i: int| rows1[i].3)
        + Seq::new(rows2.len(), |i: int| rows2[i].3));
    assert(Seq::new(rows.len(), |i: int| rows[i].4) =~= Seq::new(rows1.len(), |i: int| rows1[i].4)
        + Seq::new(rows2.len(), |i: int| rows2[i].4));
    assert(Seq::new(rows.len(), |i: int| rows[i].5) =~= Seq::new(rows1.len(), |i: int| rows1[i].5)
        + Seq::new(rows2.len(), |i: int| rows2[i].5));
    if schema.spec_has_column("block_number"@) {
        assert(b2.block_number@ =~= b0.block_number@ + Seq::new(rows.len(), |i: int| rows[i].0));
    }
    if schema.spec_has_column("transaction_index"@) {
        assert(b2.transaction_index@ =~= b0.transaction_index@ + Seq::new(
            rows.len(),
            |i: int| Option::Some(rows[i].1),
        ));
    }
    if schema.spec_has_column("transaction_hash"@) {
        assert(opt_bytes_views(b2.transaction_hash@) =~= opt_bytes_views(b0.transaction_hash@)
            + Seq::new(rows.len(), |i: int| rows[i].2));
    }
    if schema.spec_has_column("address"@) {
        assert(bytes_views(b2.address@) =~= bytes_views(b0.address@) + Seq::new(
            rows.len(),
            |i: int| rows[i].3,
        ));
    }
    if schema.spec_has_column("from_value"@) {
        assert(b2.from_value@ =~= b0.from_value@ + Seq::new(rows.len(), |i: int| rows[i].4));
    }
    if schema.spec_has_column("to_value"@) {
        assert(b2.to_value@ =~= b0.to_value@ + Seq::new(rows.len(), |i: int| rows[i].5));
    }
}

/// Stores the row one account's balance diff emits, if any: nothing
/// for `Same`; `(0, v)` for `Born(v)`; `(v, 0)` for `Died(v)`; the
/// two values verbatim for `Changed`.  Appends to each column the
/// schema selects and leaves every other column untouched.
pub fn process_balance_diff(
    addr: &Vec<u8>,
    diff: &Diff,
    block_number: &Option<u32>,
    transaction_hash: &Option<Vec<u8>>,
    transaction_index: usize,
    columns: &mut BalanceDiffs,
    schema: &Table,
)
    requires
        old(columns).valid(*schema),
        old(columns).n_rows < u64::MAX,
    ensures
        final(columns).valid(*schema),
        match spec_diff_from_to(*diff) {
            Option::None => *final(columns) == *old(columns),
            Option::Some(ft) => final(columns).extended_by(
                *old(columns),
                seq![
                    (
                        *block_number,
                        transaction_index as u64,
                        bytes_opt_view(*transaction_hash),
                        addr@,
                        ft.0,
                        ft.1,
                    ),
                ],
                *schema,
            ),
        },
{
    let (from, to) = match diff {
        Diff::Same => {
            return ;
        },
        Diff::Born(value) => (U256::zero(), *value),
        Diff::Died(value) => (*value, U256::zero()),
        Diff::Changed(f, t) => (*f, *t),
    };
    let ghost row: BalanceRow = (
        *block_number,
        transaction_index as u64,
        bytes_opt_view(*transaction_hash),
        addr@,
        from,
        to,
    );
    let ghost b0 = *columns;
    columns.n_rows = columns.n_rows + 1;
    let ghost pre_h = opt_bytes_views(columns.transaction_hash@);
    let ghost pre_a = bytes_views(columns.address@);
    if schema.has_column("block_number") {
        columns.block_number.push(*block_number);
    }
    if schema.has_column("transaction_index") {
        columns.transaction_index.push(Some(transaction_index as u64));
    }
    if schema.has_column("transaction_hash") {
        let h = crate::partitions::clone_bytes_opt(transaction_hash);
        proof {
            assert(bytes_opt_view(h) == bytes_opt_view(*transaction_hash));
        }
        columns.transaction_hash.push(h);
    }
    if schema.has_column("address") {
        let a = addr.clone();
        proof {
            assert(a@ =~= addr@);
        }
        columns.address.push(a);
    }
    if schema.has_column("from_value") {
        columns.from_value.push(from);
    }
    if schema.has_column("to_value") {
        columns.to_value.push(to);
    }
    proof {
        if schema.spec_has_column("block_number"@) {
            assert(columns.block_number@ =~= b0.block_number@ + Seq::new(
                1,
                |i: int| seq![row][i].0,
            ));
        } else {
            assert(columns.block_number@ =~= b0.block_number@);
        }
        if schema.spec_has_column("transaction_index"@) {
            assert(columns.transaction_index@ =~= b0.transaction_index@ + Seq::new(
                1,
                |i: int| Option::Some(seq![row][i].1),
            ));
        }
        if schema.spec_has_column("transaction_hash"@) {
            assert(opt_bytes_views(columns.transaction_hash@) =~= opt_bytes_views(
                b0.transaction_hash@,
            ) + Seq::new(1, |i: int| seq![row][i].2));
        } else {
            assert(opt_bytes_views(columns.transaction_hash@) =~= opt_bytes_views(
                b0.transaction_hash@,
            ));
        }
        if schema.spec_has_column("address"@) {
            assert(bytes_views(columns.address@) =~= bytes_views(b0.address@) + Seq::new(
                1,
                |i: int| seq![row][i].3,
            ));
        } else {
            assert(bytes_views(columns.address@) =~= bytes_views(b0.address@));
        }
        if schema.spec_has_column("from_value"@) {
            assert(columns.from_value@ =~= b0.from_value@ + Seq::new(1, |i: int| seq![row][i].4));
        }
        if schema.spec_has_column("to_value"@) {
            assert(columns.to_value@ =~= b0.to_value@ + Seq::new(1, |i: int| seq![row][i].5));
        }
    }
}

proof fn lemma_trace_rows_prefix(
    sd: Seq<(Vec<u8>, AccountDiff)>,
    block: Option<u32>,
    tx: Option<Seq<u8>>,
    index: u64,
    j: int,
)
    requires
        0 <= j <= sd.len(),
    ensures
        spec_trace_rows(sd.take(j), block, tx, index).len() <= spec_trace_rows(
            sd,
            block,
            tx,
            index,
        ).len(),
    decreases sd.len() - j,
{
    if j == sd.len() {
        assert(sd.take(j) =~= sd);
    } else {
        lemma_trace_rows_prefix(sd, block, tx, index, j + 1);
        assert(sd.take(j + 1).drop_last() =~= sd.take(j));
    }
}

proof fn lemma_rows_upto_mono(r: BlockTxsTraces, i: int, j: int)
    requires
        0 <= i <= j,
    ensures
        spec_rows_upto(r, i).len() <= spec_rows_upto(r, j).len(),
    decreases j - i,
{
    if i < j {
        lemma_rows_upto_mono(r, i, j - 1);
    }
}

/// Whether the balance-diff extraction should ask for transaction
/// hashes: it should exactly when the resolved schema selects the
/// `transaction_hash` column.  Fails when no schema was resolved for
/// balance diffs.
pub fn include_txs(schemas: &Schemas) -> (r: Result<bool, CollectError>)
    ensures
        match r {
            Ok(b) => spec_schemas_get(schemas@, Datatype::BalanceDiffs) matches Some(t) && b
                == t.spec_has_column("transaction_hash"@),
            Err(e) => spec_schemas_get(schemas@, Datatype::BalanceDiffs) is None && e
                is CollectError,
        },
{
    let schema = match schemas_get(schemas, Datatype::BalanceDiffs) {
        Some(t) => t,
        None => {
            return Err(crate::error::err("schema not provided"));
        },
    };
    Ok(schema.has_column("transaction_hash"))
}

/// Stores every row a response's state diffs emit: one row per
/// account whose balance changed, in trace order, transactions paired
/// with their traces positionally.  Fails, leaving the builder
/// untouched, when no schema was resolved for balance diffs.
pub fn process_balance_diffs(
    response: &BlockTxsTraces,
    columns: &mut BalanceDiffs,
    schemas: &Schemas,
) -> (r: Result<(), CollectError>)
    requires
        match spec_schemas_get(schemas@, Datatype::BalanceDiffs) {
            Option::Some(t) => old(columns).valid(t) && old(columns).n_rows + spec_response_rows(
                *response,
            ).len() < u64::MAX,
            Option::None => true,
        },
    ensures
        match r {
            Ok(u) => {
                &&& spec_schemas_get(schemas@, Datatype::BalanceDiffs) matches Some(t)
                &&& final(columns).valid(t)
                &&& final(columns).extended_by(
                    *old(columns),
                    spec_response_rows(*response),
                    t,
                )
            },
            Err(e) => {
                &&& spec_schemas_get(schemas@, Datatype::BalanceDiffs) is None
                &&& e is CollectError
                &&& *final(columns) == *old(columns)
            },
        },
{
    let schema = match schemas_get(schemas, Datatype::BalanceDiffs) {
        Some(t) => t,
        None => {
            return Err(crate::error::err("schema not provided"));
        },
    };
    let ghost b0 = *columns;
    let ghost t = spec_schemas_get(schemas@, Datatype::BalanceDiffs)->0;
    let (block_number, txs, traces) = (&response.0, &response.1, &response.2);
    let n: usize = if txs.len() <= traces.len() {
        txs.len()
    } else {
        traces.len()
    };
    proof {
        assert(n as int == spec_n_txs(*response));
        lemma_extended_refl(b0, t);
    }
    let mut i: usize = 0;
    while i < n
        invariant
            *schema == t,
            spec_schemas_get(schemas@, Datatype::BalanceDiffs) == Option::Some(t),
            n as int == spec_n_txs(*response),
            n <= response.1@.len() && n <= response.2@.len(),
            *block_number == response.0,
            txs@ == response.1@,
            traces@ == response.2@,
            i <= n,
            b0.n_rows + spec_response_rows(*response).len() < u64::MAX,
            columns.valid(t),
            columns.extended_by(b0, spec_rows_upto(*response, i as int), t),
        decreases n - i,
    {
        let ghost rows_before = spec_rows_upto(*response, i as int);
        match &traces[i].state_diff {
            Option::None => {
                proof {
                    assert(spec_one_trace_rows(
                        response.2@[i as int],
                        response.0,
                        bytes_opt_view(response.1@[i as int]),
                        i as u64,
                    ) =~= Seq::<BalanceRow>::empty());
                    assert(rows_before + Seq::<BalanceRow>::empty() =~= rows_before);
                    assert(spec_rows_upto(*response, i as int + 1) =~= rows_before);
                }
            },
            Option::Some(sd) => {
                let ghost tx_view = bytes_opt_view(response.1@[i as int]);
                let mut j: usize = 0;
                while j < sd.len()
                    invariant
                        *schema == t,
                        spec_schemas_get(schemas@, Datatype::BalanceDiffs) == Option::Some(t),
                        n as int == spec_n_txs(*response),
                        n <= response.1@.len() && n <= response.2@.len(),
                        *block_number == response.0,
                        txs@ == response.1@,
                        traces@ == response.2@,
                        i < n,
                        j <= sd@.len(),
                        response.2@[i as int].state_diff matches Some(s) && s@ == sd@,
                        tx_view == bytes_opt_view(response.1@[i as int]),
                        rows_before == spec_rows_upto(*response, i as int),
                        b0.n_rows + spec_response_rows(*response).len() < u64::MAX,
                        columns.valid(t),
                        columns.extended_by(
                            b0,
                            rows_before + spec_trace_rows(sd@.take(j as int), response.0, tx_view, i as u64),
                            t,
                        ),
                    decreases sd@.len() - j,
                {
                    let ghost mid_rows = rows_before + spec_trace_rows(
                        sd@.take(j as int),
                        response.0,
                        tx_view,
                        i as u64,
                    );
                    proof {
                        lemma_trace_rows_prefix(sd@, response.0, tx_view, i as u64, j as int);
                        lemma_rows_upto_mono(*response, i as int + 1, spec_n_txs(*response));
                        assert(spec_rows_upto(*response, i as int + 1) == rows_before
                            + spec_trace_rows(sd@, response.0, tx_view, i as u64));
                        assert(mid_rows.len() <= spec_response_rows(*response).len());
                        assert(columns.n_rows == b0.n_rows + mid_rows.len());
                        assert(columns.n_rows < u64::MAX);
                    }
                    let ghost mid = *columns;
                    let entry_addr = &sd[j].0;
                    let entry_diff = &sd[j].1.balance;
                    process_balance_diff(
                        entry_addr,
                        entry_diff,
                        block_number,
                        &txs[i],
                        i,
                        columns,
                        schema,
                    );
                    proof {
                        assert(sd@.take(j as int + 1).drop_last() =~= sd@.take(j as int));
                        assert(sd@.take(j as int + 1).last() == sd@[j as int]);
                        let step = spec_trace_rows(
                            sd@.take(j as int + 1),
                            response.0,
                            tx_view,
                            i as u64,
                        );
                        let prev = spec_trace_rows(sd@.take(j as int), response.0, tx_view, i as u64);
                        assert(bytes_opt_view(response.1@[i as int]) == tx_view);
                        match spec_diff_from_to(sd@[j as int].1.balance) {
                            Option::None => {
                                assert(*columns == mid);
                                assert(step =~= prev + Seq::<BalanceRow>::empty());
                                assert(prev + Seq::<BalanceRow>::empty() =~= prev);
                            },
                            Option::Some(ft) => {
                                let row: BalanceRow = (
                                    response.0,
                                    i as u64,
                                    tx_view,
                                    sd@[j as int].0@,
                                    ft.0,
                                    ft.1,
                                );
                                assert(columns.extended_by(mid, seq![row], t));
                                lemma_extended_trans(b0, mid, *columns, mid_rows, seq![row], t);
                                assert(step =~= prev + seq![row]);
                                assert(mid_rows + seq![row] =~= rows_before + step);
                            },
                        }
                        assert(columns.extended_by(b0, rows_before + step, t));
                    }
                    j = j + 1;
                }
                proof {
                    assert(sd@.take(sd@.len() as int) =~= sd@);
                    assert(spec_rows_upto(*response, i as int + 1) == rows_before
                        + spec_trace_rows(sd@, response.0, tx_view, i as u64));
                }
            },
        }
        i = i + 1;
    }
    proof {
        assert(spec_rows_upto(*response, n as int) == spec_response_rows(*response));
    }
    Ok(())
}

} // verus!
