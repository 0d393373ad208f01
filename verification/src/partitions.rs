//! Partitions of the query's input space and the work items they
//! enumerate.

use vstd::prelude::*;
use vstd::string::*;
use crate::chunks::BlockRange;
use crate::chunks::chunk_blocks;
use crate::error::CollectError;
use crate::textfmt::{spec_decimal, u64_to_string};

verus! {

/// One shard of the query's input space: an optional list of values
/// per dimension.  The populated dimensions are exactly those the
/// query partitions by.
#[derive(Debug, Clone)]
pub struct Partition {
    /// Block number chunks.
    pub block_numbers: Option<Vec<BlockRange>>,
    /// Transaction hashes.
    pub transactions: Option<Vec<Vec<u8>>>,
    /// Calldata values.
    pub call_datas: Option<Vec<Vec<u8>>>,
    /// Account addresses.
    pub addresses: Option<Vec<Vec<u8>>>,
    /// Contract addresses.
    pub contracts: Option<Vec<Vec<u8>>>,
    /// Recipient addresses.
    pub to_addresses: Option<Vec<Vec<u8>>>,
    /// Storage slots.
    pub slots: Option<Vec<Vec<u8>>>,
    /// First log topics.
    pub topic0s: Option<Vec<Vec<u8>>>,
    /// Second log topics.
    pub topic1s: Option<Vec<Vec<u8>>>,
    /// Third log topics.
    pub topic2s: Option<Vec<Vec<u8>>>,
    /// Fourth log topics.
    pub topic3s: Option<Vec<Vec<u8>>>,
}

impl Default for Partition {
    /// A partition with no populated dimension.
    fn default() -> (r: Partition)
        ensures
            r.block_numbers is None,
            r.transactions is None,
            r.call_datas is None,
            r.addresses is None,
            r.contracts is None,
            r.to_addresses is None,
            r.slots is None,
            r.topic0s is None,
            r.topic1s is None,
            r.topic2s is None,
            r.topic3s is None,
    {
        Partition {
            block_numbers: None,
            transactions: None,
            call_datas: None,
            addresses: None,
            contracts: None,
            to_addresses: None,
            slots: None,
            topic0s: None,
            topic1s: None,
            topic2s: None,
            topic3s: None,
        }
    }
}

impl Partition {
    /// Every block chunk of the partition is a well-formed interval.
    pub open spec fn wf(self) -> bool {
        match self.block_numbers {
            Option::None => true,
            Option::Some(ranges) => forall|i: int|
                0 <= i < ranges@.len() ==> (#[trigger] ranges@[i]).wf(),
        }
    }

    /// The blocks of the partition, in order.
    pub open spec fn spec_blocks(self) -> Seq<u64> {
        match self.block_numbers {
            Option::None => Seq::empty(),
            Option::Some(ranges) => chunk_blocks(ranges@),
        }
    }

    /// A text label naming the partition's block span, used in file
    /// names: `<first>_to_<last>`, or `all` when the partition has no
    /// block dimension.
    pub open spec fn spec_label(self) -> Seq<char> {
        match self.block_numbers {
            Option::None => "all"@,
            Option::Some(ranges) => {
                if ranges@.len() == 0 {
                    "all"@
                } else {
                    spec_decimal(ranges@[0].start as nat) + "_to_"@ + spec_decimal(
                        ranges@.last().end as nat,
                    )
                }
            },
        }
    }

    /// The partition's label for file names.
    pub fn label(&self) -> (r: String)
        ensures
            r@ == self.spec_label(),
    {
        match &self.block_numbers {
            Option::None => "all".to_owned(),
            Option::Some(ranges) => {
                if ranges.len() == 0 {
                    "all".to_owned()
                } else {
                    let mut s = u64_to_string(ranges[0].start);
                    s.append("_to_");
                    let last = ranges[ranges.len() - 1];
                    s.append(u64_to_string(last.end).as_str());
                    s
                }
            },
        }
    }
}

/// One work item: a single point of a partition, with one value per
/// populated dimension.  The unit of one RPC call.
#[derive(Debug, Clone)]
pub struct Params {
    /// The block number, when the partition has a block dimension.
    pub block_number: Option<u64>,
    /// The transaction hash, when partitioned by transaction.
    pub transaction_hash: Option<Vec<u8>>,
    /// The account address, when partitioned by address.
    pub address: Option<Vec<u8>>,
    /// The storage slot, when partitioned by slot.
    pub slot: Option<Vec<u8>>,
}

/// The plain-value shape of a work item: each byte field by content.
pub open spec fn params_view(p: Params) -> (
    Option<u64>,
    Option<Seq<u8>>,
    Option<Seq<u8>>,
    Option<Seq<u8>>,
) {
    (
        p.block_number,
        match p.transaction_hash {
            Option::None => Option::None,
            Option::Some(v) => Option::Some(v@),
        },
        match p.address {
            Option::None => Option::None,
            Option::Some(v) => Option::Some(v@),
        },
        match p.slot {
            Option::None => Option::None,
            Option::Some(v) => Option::Some(v@),
        },
    )
}

impl Params {
    /// The block number of the work item; absent block dimensions are
    /// a caller error.
    pub fn block_number(&self) -> (r: Result<u64, CollectError>)
        ensures
            match r {
                Ok(b) => self.block_number == Some(b),
                Err(e) => self.block_number is None && e is BadParams,
            },
    {
        match self.block_number {
            Some(b) => Ok(b),
            None => Err(CollectError::BadParams("block_number not given".to_owned())),
        }
    }

    /// The transaction hash of the work item.
    pub fn transaction_hash(&self) -> (r: Result<Vec<u8>, CollectError>)
        ensures
            match r {
                Ok(h) => self.transaction_hash matches Some(v) && h@ == v@,
                Err(e) => self.transaction_hash is None && e is BadParams,
            },
    {
        match &self.transaction_hash {
            Some(h) => {
                let c = h.clone();
                proof {
                    assert(c@ =~= h@);
                }
                Ok(c)
            },
            None => Err(CollectError::BadParams("transaction_hash not given".to_owned())),
        }
    }

    /// The address of the work item.
    pub fn address(&self) -> (r: Result<Vec<u8>, CollectError>)
        ensures
            match r {
                Ok(a) => self.address matches Some(v) && a@ == v@,
                Err(e) => self.address is None && e is BadParams,
            },
    {
        match &self.address {
            Some(a) => {
                let c = a.clone();
                proof {
                    assert(c@ =~= a@);
                }
                Ok(c)
            },
            None => Err(CollectError::BadParams("address not given".to_owned())),
        }
    }

    /// The storage slot of the work item.
    pub fn slot(&self) -> (r: Result<Vec<u8>, CollectError>)
        ensures
            match r {
                Ok(sv) => self.slot matches Some(v) && sv@ == v@,
                Err(e) => self.slot is None && e is BadParams,
            },
    {
        match &self.slot {
            Some(sv) => {
                let c = sv.clone();
                proof {
                    assert(c@ =~= sv@);
                }
                Ok(c)
            },
            None => Err(CollectError::BadParams("slot not given".to_owned())),
        }
    }
}


/// The shape of one work item over plain values.
pub type ParamsShape = (Option<u64>, Option<Seq<u8>>, Option<Seq<u8>>, Option<Seq<u8>>);

/// The shapes of a list of work items.
pub open spec fn views_of(s: Seq<Params>) -> Seq<ParamsShape> {
    Seq::new(s.len(), |i: int| params_view(s[i]))
}

/// The work items a slot list contributes for a fixed prefix: one per
/// slot, or the prefix alone when the dimension is absent.
pub open spec fn spec_slot_items(base: ParamsShape, slots: Option<Vec<Vec<u8>>>) -> Seq<
    ParamsShape,
> {
    match slots {
        Option::None => seq![base],
        Option::Some(ss) => spec_slot_list_items(base, ss@),
    }
}

/// One work item per slot of `ss`, for a fixed prefix.
pub open spec fn spec_slot_list_items(base: ParamsShape, ss: Seq<Vec<u8>>) -> Seq<ParamsShape> {
    Seq::new(ss.len(), |i: int| (base.0, base.1, base.2, Option::Some(ss[i]@)))
}

/// The work items an address list contributes for a fixed prefix,
/// crossed with the slot list.
pub open spec fn spec_address_items(
    base: ParamsShape,
    addresses: Option<Vec<Vec<u8>>>,
    slots: Option<Vec<Vec<u8>>>,
) -> Seq<ParamsShape> {
    match addresses {
        Option::None => spec_slot_items(base, slots),
        Option::Some(aa) => spec_address_list_items(base, aa@, slots),
    }
}

/// The slot-level work items of every address of `aa`, laid end to
/// end.
pub open spec fn spec_address_list_items(
    base: ParamsShape,
    aa: Seq<Vec<u8>>,
    slots: Option<Vec<Vec<u8>>>,
) -> Seq<ParamsShape> {
    Seq::new(
        aa.len(),
        |i: int| spec_slot_items((base.0, base.1, Option::Some(aa[i]@), base.3), slots),
    ).flatten()
}

/// The work items a transaction list contributes for a fixed prefix,
/// crossed with the address and slot lists.
pub open spec fn spec_transaction_items(
    base: ParamsShape,
    transactions: Option<Vec<Vec<u8>>>,
    addresses: Option<Vec<Vec<u8>>>,
    slots: Option<Vec<Vec<u8>>>,
) -> Seq<ParamsShape> {
    match transactions {
        Option::None => spec_address_items(base, addresses, slots),
        Option::Some(tt) => spec_transaction_list_items(base, tt@, addresses, slots),
    }
}

/// The address-level work items of every transaction of `tt`, laid
/// end to end.
pub open spec fn spec_transaction_list_items(
    base: ParamsShape,
    tt: Seq<Vec<u8>>,
    addresses: Option<Vec<Vec<u8>>>,
    slots: Option<Vec<Vec<u8>>>,
) -> Seq<ParamsShape> {
    Seq::new(
        tt.len(),
        |i: int| spec_address_items(
            (base.0, Option::Some(tt[i]@), base.2, base.3),
            addresses,
            slots,
        ),
    ).flatten()
}

/// The work items a block list contributes, crossed with the other
/// dimensions.
pub open spec fn spec_block_items(
    blocks: Seq<u64>,
    transactions: Option<Vec<Vec<u8>>>,
    addresses: Option<Vec<Vec<u8>>>,
    slots: Option<Vec<Vec<u8>>>,
) -> Seq<ParamsShape> {
    Seq::new(
        blocks.len(),
        |i: int| spec_transaction_items(
            (Option::Some(blocks[i]), Option::None, Option::None, Option::None),
            transactions,
            addresses,
            slots,
        ),
    ).flatten()
}

/// The work items of a partition: the Cartesian product of its
/// populated dimensions, blocks outermost, then transactions, then
/// addresses, then slots, in lexicographic order.
pub open spec fn spec_param_sets(p: Partition) -> Seq<ParamsShape> {
    match p.block_numbers {
        Option::None => spec_transaction_items(
            (Option::None, Option::None, Option::None, Option::None),
            p.transactions,
            p.addresses,
            p.slots,
        ),
        Option::Some(ranges) => spec_block_items(
            chunk_blocks(ranges@),
            p.transactions,
            p.addresses,
            p.slots,
        ),
    }
}

proof fn lemma_slot_list_push(base: ParamsShape, ss: Seq<Vec<u8>>, v: Vec<u8>)
    ensures
        spec_slot_list_items(base, ss.push(v)) == spec_slot_list_items(base, ss) + seq![
            (base.0, base.1, base.2, Option::Some(v@)),
        ],
{
    assert(spec_slot_list_items(base, ss.push(v)) =~= spec_slot_list_items(base, ss) + seq![
        (base.0, base.1, base.2, Option::Some(v@)),
    ]);
}

proof fn lemma_address_list_push(
    base: ParamsShape,
    aa: Seq<Vec<u8>>,
    v: Vec<u8>,
    slots: Option<Vec<Vec<u8>>>,
)
    ensures
        spec_address_list_items(base, aa.push(v), slots) == spec_address_list_items(
            base,
            aa,
            slots,
        ) + spec_slot_items((base.0, base.1, Option::Some(v@), base.3), slots),
{
    let item = spec_slot_items((base.0, base.1, Option::Some(v@), base.3), slots);
    let f = |i: int| spec_slot_items((base.0, base.1, Option::Some(aa[i]@), base.3), slots);
    assert(Seq::new(aa.push(v).len(), |i: int| spec_slot_items(
        (base.0, base.1, Option::Some(aa.push(v)[i]@), base.3),
        slots,
    )) =~= Seq::new(aa.len(), f).push(item));
    Seq::new(aa.len(), f).lemma_flatten_push(item);
}

proof fn lemma_transaction_list_push(
    base: ParamsShape,
    tt: Seq<Vec<u8>>,
    v: Vec<u8>,
    addresses: Option<Vec<Vec<u8>>>,
    slots: Option<Vec<Vec<u8>>>,
)
    ensures
        spec_transaction_list_items(base, tt.push(v), addresses, slots)
            == spec_transaction_list_items(base, tt, addresses, slots) + spec_address_items(
            (base.0, Option::Some(v@), base.2, base.3),
            addresses,
            slots,
        ),
{
    let item = spec_address_items((base.0, Option::Some(v@), base.2, base.3), addresses, slots);
    let f = |i: int| spec_address_items(
        (base.0, Option::Some(tt[i]@), base.2, base.3),
        addresses,
        slots,
    );
    assert(Seq::new(tt.push(v).len(), |i: int| spec_address_items(
        (base.0, Option::Some(tt.push(v)[i]@), base.2, base.3),
        addresses,
        slots,
    )) =~= Seq::new(tt.len(), f).push(item));
    Seq::new(tt.len(), f).lemma_flatten_push(item);
}

proof fn lemma_block_items_push(
    blocks: Seq<u64>,
    b: u64,
    transactions: Option<Vec<Vec<u8>>>,
    addresses: Option<Vec<Vec<u8>>>,
    slots: Option<Vec<Vec<u8>>>,
)
    ensures
        spec_block_items(blocks.push(b), transactions, addresses, slots) == spec_block_items(
            blocks,
            transactions,
            addresses,
            slots,
        ) + spec_transaction_items(
            (Option::Some(b), Option::None, Option::None, Option::None),
            transactions,
            addresses,
            slots,
        ),
{
    let item = spec_transaction_items(
        (Option::Some(b), Option::None, Option::None, Option::None),
        transactions,
        addresses,
        slots,
    );
    let f = |i: int| spec_transaction_items(
        (Option::Some(blocks[i]), Option::None, Option::None, Option::None),
        transactions,
        addresses,
        slots,
    );
    assert(Seq::new(blocks.push(b).len(), |i: int| spec_transaction_items(
        (Option::Some(blocks.push(b)[i]), Option::None, Option::None, Option::None),
        transactions,
        addresses,
        slots,
    )) =~= Seq::new(blocks.len(), f).push(item));
    Seq::new(blocks.len(), f).lemma_flatten_push(item);
}

/// Copies an optional byte value.
pub fn clone_bytes_opt(o: &Option<Vec<u8>>) -> (r: Option<Vec<u8>>)
    ensures
        match r {
            Option::None => *o is None,
            Option::Some(v) => o matches Some(ov) && v@ == ov@,
        },
{
    match o {
        Option::None => Option::None,
        Option::Some(v) => {
            let c = v.clone();
            proof {
                assert(c@ =~= v@);
            }
            Option::Some(c)
        },
    }
}

/// Copies a work item.
fn params_copy(base: &Params) -> (r: Params)
    ensures
        params_view(r) == params_view(*base),
{
    Params {
        block_number: base.block_number,
        transaction_hash: clone_bytes_opt(&base.transaction_hash),
        address: clone_bytes_opt(&base.address),
        slot: clone_bytes_opt(&base.slot),
    }
}

/// Appends the slot-level work items for a fixed prefix.
fn push_slot_items(result: &mut Vec<Params>, base: &Params, slots: &Option<Vec<Vec<u8>>>)
    ensures
        views_of(final(result)@) == views_of(old(result)@) + spec_slot_items(
            params_view(*base),
            *slots,
        ),
{
    let ghost init = views_of(result@);
    let ghost bv = params_view(*base);
    match slots {
        Option::None => {
            result.push(params_copy(base));
            proof {
                assert(views_of(result@) =~= init + spec_slot_items(bv, *slots));
            }
        },
        Option::Some(ss) => {
            let mut i: usize = 0;
            proof {
                assert(views_of(result@) =~= init + spec_slot_list_items(bv, ss@.take(0)));
            }
            while i < ss.len()
                invariant
                    i <= ss@.len(),
                    bv == params_view(*base),
                    views_of(result@) == init + spec_slot_list_items(bv, ss@.take(i as int)),
                decreases ss@.len() - i,
            {
                let mut item = params_copy(base);
                let sv = ss[i].clone();
                proof {
                    assert(sv@ =~= ss@[i as int]@);
                }
                item.slot = Some(sv);
                proof {
                    assert(params_view(item) == (bv.0, bv.1, bv.2, Option::Some(ss@[i as int]@)));
                }
                let ghost prev = result@;
                result.push(item);
                proof {
                    assert(views_of(result@) =~= views_of(prev).push(params_view(item)));
                    assert(ss@.take(i + 1) =~= ss@.take(i as int).push(ss@[i as int]));
                    lemma_slot_list_push(bv, ss@.take(i as int), ss@[i as int]);
                    assert(views_of(result@) =~= init + spec_slot_list_items(bv, ss@.take(i + 1)));
                }
                i = i + 1;
            }
            proof {
                assert(ss@.take(ss@.len() as int) =~= ss@);
                assert(views_of(result@) =~= init + spec_slot_items(bv, *slots));
            }
        },
    }
}

/// Appends the address-level work items for a fixed prefix.
fn push_address_items(
    result: &mut Vec<Params>,
    base: &Params,
    addresses: &Option<Vec<Vec<u8>>>,
    slots: &Option<Vec<Vec<u8>>>,
)
    ensures
        views_of(final(result)@) == views_of(old(result)@) + spec_address_items(
            params_view(*base),
            *addresses,
            *slots,
        ),
{
    let ghost init = views_of(result@);
    let ghost bv = params_view(*base);
    match addresses {
        Option::None => {
            push_slot_items(result, base, slots);
        },
        Option::Some(aa) => {
            let mut i: usize = 0;
            proof {
                assert(Seq::new(0, |k: int| spec_slot_items(
                    (bv.0, bv.1, Option::Some(aa@.take(0)[k]@), bv.3),
                    *slots,
                )).flatten() =~= Seq::<ParamsShape>::empty());
                assert(views_of(result@) =~= init + spec_address_list_items(
                    bv,
                    aa@.take(0),
                    *slots,
                ));
            }
            while i < aa.len()
                invariant
                    i <= aa@.len(),
                    bv == params_view(*base),
                    views_of(result@) == init + spec_address_list_items(
                        bv,
                        aa@.take(i as int),
                        *slots,
                    ),
                decreases aa@.len() - i,
            {
                let mut item = params_copy(base);
                let av = aa[i].clone();
                proof {
                    assert(av@ =~= aa@[i as int]@);
                }
                item.address = Some(av);
                proof {
                    assert(params_view(item) == (bv.0, bv.1, Option::Some(aa@[i as int]@), bv.3));
                }
                push_slot_items(result, &item, slots);
                proof {
                    assert(aa@.take(i + 1) =~= aa@.take(i as int).push(aa@[i as int]));
                    lemma_address_list_push(bv, aa@.take(i as int), aa@[i as int], *slots);
                    assert(views_of(result@) =~= init + spec_address_list_items(
                        bv,
                        aa@.take(i + 1),
                        *slots,
                    ));
                }
                i = i + 1;
            }
            proof {
                assert(aa@.take(aa@.len() as int) =~= aa@);
                assert(views_of(result@) =~= init + spec_address_items(bv, *addresses, *slots));
            }
        },
    }
}

/// Appends the transaction-level work items for a fixed prefix.
fn push_transaction_items(
    result: &mut Vec<Params>,
    base: &Params,
    transactions: &Option<Vec<Vec<u8>>>,
    addresses: &Option<Vec<Vec<u8>>>,
    slots: &Option<Vec<Vec<u8>>>,
)
    ensures
        views_of(final(result)@) == views_of(old(result)@) + spec_transaction_items(
            params_view(*base),
            *transactions,
            *addresses,
            *slots,
        ),
{
    let ghost init = views_of(result@);
    let ghost bv = params_view(*base);
    match transactions {
        Option::None => {
            push_address_items(result, base, addresses, slots);
        },
        Option::Some(tt) => {
            let mut i: usize = 0;
            proof {
                assert(Seq::new(0, |k: int| spec_address_items(
                    (bv.0, Option::Some(tt@.take(0)[k]@), bv.2, bv.3),
                    *addresses,
                    *slots,
                )).flatten() =~= Seq::<ParamsShape>::empty());
                assert(views_of(result@) =~= init + spec_transaction_list_items(
                    bv,
                    tt@.take(0),
                    *addresses,
                    *slots,
                ));
            }
            while i < tt.len()
                invariant
                    i <= tt@.len(),
                    bv == params_view(*base),
                    views_of(result@) == init + spec_transaction_list_items(
                        bv,
                        tt@.take(i as int),
                        *addresses,
                        *slots,
                    ),
                decreases tt@.len() - i,
            {
                let mut item = params_copy(base);
                let tv = tt[i].clone();
                proof {
                    assert(tv@ =~= tt@[i as int]@);
                }
                item.transaction_hash = Some(tv);
                proof {
                    assert(params_view(item) == (bv.0, Option::Some(tt@[i as int]@), bv.2, bv.3));
                }
                push_address_items(result, &item, addresses, slots);
                proof {
                    assert(tt@.take(i + 1) =~= tt@.take(i as int).push(tt@[i as int]));
                    lemma_transaction_list_push(
                        bv,
                        tt@.take(i as int),
                        tt@[i as int],
                        *addresses,
                        *slots,
                    );
                    assert(views_of(result@) =~= init + spec_transaction_list_items(
                        bv,
                        tt@.take(i + 1),
                        *addresses,
                        *slots,
                    ));
                }
                i = i + 1;
            }
            proof {
                assert(tt@.take(tt@.len() as int) =~= tt@);
                assert(views_of(result@) =~= init + spec_transaction_items(
                    bv,
                    *transactions,
                    *addresses,
                    *slots,
                ));
            }
        },
    }
}

impl Partition {
    /// Enumerates the partition's work items: the Cartesian product of
    /// its populated dimensions, in lexicographic order with blocks
    /// outermost.
    pub fn param_sets(&self) -> (r: Vec<Params>)
        requires
            self.wf(),
        ensures
            views_of(r@) == spec_param_sets(*self),
    {
        let mut result: Vec<Params> = Vec::new();
        let base = Params { block_number: None, transaction_hash: None, address: None, slot: None };
        match &self.block_numbers {
            Option::None => {
                push_transaction_items(
                    &mut result,
                    &base,
                    &self.transactions,
                    &self.addresses,
                    &self.slots,
                );
                proof {
                    assert(views_of(result@) =~= spec_param_sets(*self));
                }
            },
            Option::Some(ranges) => {
                let ghost mut bs: Seq<u64> = Seq::empty();
                let mut i: usize = 0;
                proof {
                    assert(Seq::new(0, |k: int| spec_transaction_items(
                        (Option::Some(bs[k]), Option::None, Option::None, Option::None),
                        self.transactions,
                        self.addresses,
                        self.slots,
                    )).flatten() =~= Seq::<ParamsShape>::empty());
                    assert(bs =~= chunk_blocks(ranges@.take(0)));
                    assert(views_of(result@) =~= spec_block_items(
                        bs,
                        self.transactions,
                        self.addresses,
                        self.slots,
                    ));
                }
                while i < ranges.len()
                    invariant
                        self.wf(),
                        self.block_numbers matches Some(rs) && rs@ == ranges@,
                        i <= ranges@.len(),
                        bs == chunk_blocks(ranges@.take(i as int)),
                        views_of(result@) == spec_block_items(
                            bs,
                            self.transactions,
                            self.addresses,
                            self.slots,
                        ),
                    decreases ranges@.len() - i,
                {
                    let range = ranges[i];
                    assert(range.wf());
                    let mut j: u128 = 0;
                    let ghost bs0 = bs;
                    while j <= (range.end - range.start) as u128
                        invariant
                            self.wf(),
                            self.block_numbers matches Some(rs) && rs@ == ranges@,
                            range.wf(),
                            j <= range.n_blocks(),
                            bs == bs0 + range.blocks().take(j as int),
                            views_of(result@) == spec_block_items(
                                bs,
                                self.transactions,
                                self.addresses,
                                self.slots,
                            ),
                        decreases range.n_blocks() - j,
                    {
                        let b: u64 = ((range.start as u128) + j) as u64;
                        let item = Params {
                            block_number: Some(b),
                            transaction_hash: None,
                            address: None,
                            slot: None,
                        };
                        push_transaction_items(
                            &mut result,
                            &item,
                            &self.transactions,
                            &self.addresses,
                            &self.slots,
                        );
                        proof {
                            assert(range.blocks()[j as int] == b);
                            lemma_block_items_push(
                                bs,
                                b,
                                self.transactions,
                                self.addresses,
                                self.slots,
                            );
                            bs = bs.push(b);
                            assert(bs =~= bs0 + range.blocks().take(j as int + 1));
                        }
                        j = j + 1;
                    }
                    proof {
                        assert(range.blocks().take(range.n_blocks() as int) =~= range.blocks());
                        assert(ranges@.take(i as int + 1).drop_last() =~= ranges@.take(i as int));
                        assert(ranges@.take(i as int + 1).last() == ranges@[i as int]);
                        assert(bs =~= chunk_blocks(ranges@.take(i as int + 1)));
                    }
                    i = i + 1;
                }
                proof {
                    assert(ranges@.take(ranges@.len() as int) =~= ranges@);
                    assert(views_of(result@) =~= spec_param_sets(*self));
                }
            },
        }
        result
    }
}

} // verus!
