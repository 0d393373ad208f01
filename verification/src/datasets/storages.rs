//! Columns for storage point reads.

use vstd::prelude::*;
use crate::datasets::balance_diffs::bytes_views;
use crate::error::CollectError;
use crate::partitions::Params;
use crate::schemas::Table;

verus! {

/// One storage read: block number, optional transaction hash, address,
/// slot, and the value read.
pub type BlockTxAddressOutput = (u32, Option<Vec<u8>>, Vec<u8>, Vec<u8>, Vec<u8>);

/// Column builder for storage reads: parallel vectors, one per
/// selected column, plus the row count.
#[derive(Debug)]
pub struct Storages {
    /// How many rows have been stored.
    pub n_rows: usize,
    /// Block numbers.
    pub block_number: Vec<u32>,
    /// Account addresses.
    pub address: Vec<Vec<u8>>,
    /// Storage slots.
    pub slot: Vec<Vec<u8>>,
    /// Values read.
    pub value: Vec<Vec<u8>>,
    /// The chain id, filled once the builder becomes dataframes.
    pub chain_id: Vec<u64>,
}

impl Default for Storages {
    /// An empty builder.
    fn default() -> (r: Storages)
        ensures
            r.n_rows == 0,
            r.block_number@.len() == 0,
            r.address@.len() == 0,
            r.slot@.len() == 0,
            r.value@.len() == 0,
            r.chain_id@.len() == 0,
    {
        Storages {
            n_rows: 0,
            block_number: Vec::new(),
            address: Vec::new(),
            slot: Vec::new(),
            value: Vec::new(),
            chain_id: Vec::new(),
        }
    }
}

impl Storages {
    /// The builder invariant: every column the schema selects holds
    /// exactly `n_rows` values, and every other column stays empty.
    pub open spec fn valid(self, schema: Table) -> bool {
        &&& self.block_number@.len() == (
        if schema.spec_has_column("block_number"@) {
            self.n_rows as int
        } else {
            0
        })
        &&& self.address@.len() == (
        if schema.spec_has_column("address"@) {
            self.n_rows as int
        } else {
            0
        })
        &&& self.slot@.len() == (
        if schema.spec_has_column("slot"@) {
            self.n_rows as int
        } else {
            0
        })
        &&& self.value@.len() == (
        if schema.spec_has_column("value"@) {
            self.n_rows as int
        } else {
            0
        })
        &&& self.chain_id@.len() == 0
    }
}


/// One stored storage row: block number, address, slot, value.
pub type StorageRow = (u32, Seq<u8>, Seq<u8>, Seq<u8>);

impl Storages {
    /// The builder's columns, extended by the given rows wherever the
    /// schema selects the column, and untouched elsewhere.
    pub open spec fn extended_by(
        self,
        old_b: Storages,
        rows: Seq<StorageRow>,
        schema: Table,
    ) -> bool {
        &&& self.n_rows == old_b.n_rows + rows.len()
        &&& self.block_number@ == (
        if schema.spec_has_column("block_number"@) {
            old_b.block_number@ + Seq::new(rows.len(), |i: int| rows[i].0)
        } else {
            old_b.block_number@
        })
        &&& bytes_views(self.address@) == (
        if schema.spec_has_column("address"@) {
            bytes_views(old_b.address@) + Seq::new(rows.len(), |i: int| rows[i].1)
        } else {
            bytes_views(old_b.address@)
        })
        &&& bytes_views(self.slot@) == (
        if schema.spec_has_column("slot"@) {
            bytes_views(old_b.slot@) + Seq::new(rows.len(), |i: int| rows[i].2)
        } else {
            bytes_views(old_b.slot@)
        })
        &&& bytes_views(self.value@) == (
        if schema.spec_has_column("value"@) {
            bytes_views(old_b.value@) + Seq::new(rows.len(), |i: int| rows[i].3)
        } else {
            bytes_views(old_b.value@)
        })
        &&& self.chain_id@ == old_b.chain_id@
    }
}


impl Storages {
    /// The builder holds exactly these rows, from an empty start.
    pub open spec fn built_from(self, rows: Seq<StorageRow>, schema: Table) -> bool {
        &&& self.n_rows == rows.len()
        &&& self.block_number@ == (
        if schema.spec_has_column("block_number"@) {
            Seq::new(rows.len(), |i: int| rows[i].0)
        } else {
            Seq::<u32>::empty()
        })
        &&& bytes_views(self.address@) == (
        if schema.spec_has_column("address"@) {
            Seq::new(rows.len(), |i: int| rows[i].1)
        } else {
            Seq::<Seq<u8>>::empty()
        })
        &&& bytes_views(self.slot@) == (
        if schema.spec_has_column("slot"@) {
            Seq::new(rows.len(), |i: int| rows[i].2)
        } else {
            Seq::<Seq<u8>>::empty()
        })
        &&& bytes_views(self.value@) == (
        if schema.spec_has_column("value"@) {
            Seq::new(rows.len(), |i: int| rows[i].3)
        } else {
            Seq::<Seq<u8>>::empty()
        })
        &&& self.chain_id@.len() == 0
    }
}

/// Extending by no rows changes nothing.
pub proof fn lemma_storages_extended_refl(b: Storages, schema: Table)
    ensures
        b.extended_by(b, Seq::empty(), schema),
{
    assert(b.block_number@ =~= b.block_number@ + Seq::new(
        0,
        |i: int| Seq::<StorageRow>::empty()[i].0,
    ));
    assert(bytes_views(b.address@) =~= bytes_views(b.address@) + Seq::new(
        0,
        |i: int| Seq::<StorageRow>::empty()[i].1,
    ));
    assert(bytes_views(b.slot@) =~= bytes_views(b.slot@) + Seq::new(
        0,
        |i: int| Seq::<StorageRow>::empty()[i].2,
    ));
    assert(bytes_views(b.value@) =~= bytes_views(b.value@) + Seq::new(
        0,
        |i: int| Seq::<StorageRow>::empty()[i].3,
    ));
}

/// Extensions compose.
pub proof fn lemma_storages_extended_trans(
    b0: Storages,
    b1: Storages,
    b2: Storages,
    rows1: Seq<StorageRow>,
    rows2: Seq<StorageRow>,
    schema: Table,
)
    requires
        b1.extended_by(b0, rows1, schema),
        b2.extended_by(b1, rows2, schema),
    ensures
        b2.extended_by(b0, rows1 + rows2, schema),
{
    let rows = rows1 + rows2;
    assert(Seq::new(rows.len(), |i: int| rows[i].0) =~= Seq::new(rows1.len(), |i: int| rows1[i].0)
        + Seq::new(rows2.len(), |i: int| rows2[i].0));
    assert(Seq::new(rows.len(), |i: int| rows[i].1) =~= Seq::new(rows1.len(), |i: int| rows1[i].1)
        + Seq::new(rows2.len(), |i: int| rows2[i].1));
    assert(Seq::new(rows.len(), |i: int| rows[i].2) =~= Seq::new(rows1.len(), |i: int| rows1[i].2)
        + Seq::new(rows2.len(), |i: int| rows2[i].2));
    assert(Seq::new(rows.len(), |i: int| rows[i].3) =~= Seq::new(rows1.len(), |i: int| rows1[i].3)
        + Seq::new(rows2.len(), |i: int| rows2[i].3));
    if schema.spec_has_column("block_number"@) {
        assert(b2.block_number@ =~= b0.block_number@ + Seq::new(rows.len(), |i: int| rows[i].0));
    }
    if schema.spec_has_column("address"@) {
        assert(bytes_views(b2.address@) =~= bytes_views(b0.address@) + Seq::new(
            rows.len(),
            |i: int| rows[i].1,
        ));
    }
    if schema.spec_has_column("slot"@) {
        assert(bytes_views(b2.slot@) =~= bytes_views(b0.slot@) + Seq::new(
            rows.len(),
            |i: int| rows[i].2,
        ));
    }
    if schema.spec_has_column("value"@) {
        assert(bytes_views(b2.value@) =~= bytes_views(b0.value@) + Seq::new(
            rows.len(),
            |i: int| rows[i].3,
        ));
    }
}

/// The arguments of one storage read: the block number, the
/// twenty-byte address and the thirty-two-byte slot of the work item,
/// each required; a value of the wrong width is rejected.
pub fn storage_request(request: &Params) -> (r: Result<(u32, Vec<u8>, Vec<u8>), CollectError>)
    ensures
        match r {
            Ok(t) => {
                &&& request.address matches Some(a) && t.1@ == a@ && a@.len() == 20
                &&& request.block_number matches Some(b) && t.0 == b as u32
                &&& request.slot matches Some(s) && t.2@ == s@ && s@.len() == 32
            },
            Err(e) => {
                &&& e is BadParams
                &&& {
                    ||| request.address is None
                    ||| request.block_number is None
                    ||| request.slot is None
                    ||| (request.address matches Some(a) && a@.len() != 20)
                    ||| (request.slot matches Some(s) && s@.len() != 32)
                }
            },
        },
{
    let address = match request.address() {
        Ok(a) => a,
        Err(e) => {
            return Err(e);
        },
    };
    let block_number = match request.block_number() {
        Ok(b) => b,
        Err(e) => {
            return Err(e);
        },
    };
    let slot = match request.slot() {
        Ok(s) => s,
        Err(e) => {
            return Err(e);
        },
    };
    if address.len() != 20 {
        return Err(CollectError::BadParams("address must be twenty bytes".to_owned()));
    }
    if slot.len() != 32 {
        return Err(CollectError::BadParams("slot must be thirty-two bytes".to_owned()));
    }
    let block32: u32 = #[verifier::truncate] (block_number as u32);
    Ok((block32, address, slot))
}

/// Stores one storage read into the builder, appending to each column
/// the schema selects and leaving every other column untouched.
pub fn process_nonce(columns: &mut Storages, data: BlockTxAddressOutput, schema: &Table) -> (r:
    Result<(), CollectError>)
    requires
        old(columns).valid(*schema),
        old(columns).n_rows < usize::MAX,
    ensures
        r is Ok,
        final(columns).valid(*schema),
        final(columns).n_rows == old(columns).n_rows + 1,
        final(columns).block_number@ == (
        if schema.spec_has_column("block_number"@) {
            old(columns).block_number@.push(data.0)
        } else {
            old(columns).block_number@
        }),
        bytes_views(final(columns).address@) == (
        if schema.spec_has_column("address"@) {
            bytes_views(old(columns).address@).push(data.2@)
        } else {
            bytes_views(old(columns).address@)
        }),
        bytes_views(final(columns).slot@) == (
        if schema.spec_has_column("slot"@) {
            bytes_views(old(columns).slot@).push(data.3@)
        } else {
            bytes_views(old(columns).slot@)
        }),
        bytes_views(final(columns).value@) == (
        if schema.spec_has_column("value"@) {
            bytes_views(old(columns).value@).push(data.4@)
        } else {
            bytes_views(old(columns).value@)
        }),
{
    let (block, _tx, address, slot, output) = data;
    columns.n_rows = columns.n_rows + 1;
    let ghost pre_a = bytes_views(columns.address@);
    let ghost pre_s = bytes_views(columns.slot@);
    let ghost pre_v = bytes_views(columns.value@);
    if schema.has_column("block_number") {
        columns.block_number.push(block);
    }
    if schema.has_column("address") {
        columns.address.push(address);
    }
    if schema.has_column("slot") {
        columns.slot.push(slot);
    }
    if schema.has_column("value") {
        columns.value.push(output);
    }
    proof {
        if schema.spec_has_column("address"@) {
            assert(bytes_views(columns.address@) =~= pre_a.push(data.2@));
        } else {
            assert(bytes_views(columns.address@) =~= pre_a);
        }
        if schema.spec_has_column("slot"@) {
            assert(bytes_views(columns.slot@) =~= pre_s.push(data.3@));
        } else {
            assert(bytes_views(columns.slot@) =~= pre_s);
        }
        if schema.spec_has_column("value"@) {
            assert(bytes_views(columns.value@) =~= pre_v.push(data.4@));
        } else {
            assert(bytes_views(columns.value@) =~= pre_v);
        }
    }
    Ok(())
}

} // verus!
