//! The output tables the engine can collect.

use vstd::prelude::*;
use vstd::string::*;
use crate::dims::Dim;

verus! {

/// One logical output table.
#[derive(Debug, Clone, Copy, PartialEq, Eq, Structural)]
pub enum Datatype {
    /// Block headers.
    Blocks,
    /// Transactions.
    Transactions,
    /// Event logs.
    Logs,
    /// Call traces.
    Traces,
    /// Balance state diffs.
    BalanceDiffs,
    /// Code state diffs.
    CodeDiffs,
    /// Nonce state diffs.
    NonceDiffs,
    /// Storage state diffs.
    StorageDiffs,
    /// Storage point reads.
    Storages,
    /// Nonce point reads.
    Nonces,
    /// Balance point reads.
    Balances,
    /// Code point reads.
    Codes,
    /// Contract creations.
    Contracts,
    /// Native-token transfers.
    NativeTransfers,
    /// Arbitrary eth_call outputs.
    EthCalls,
    /// Calls derived from traces.
    TraceCalls,
    /// ERC-20 balances.
    Erc20Balances,
    /// ERC-20 metadata.
    Erc20Metadata,
    /// ERC-20 supplies.
    Erc20Supplies,
    /// ERC-20 transfers.
    Erc20Transfers,
    /// ERC-721 metadata.
    Erc721Metadata,
    /// ERC-721 transfers.
    Erc721Transfers,
    /// Addresses touched by each transaction.
    TransactionAddresses,
    /// VM-level traces.
    VmTraces,
}

impl Datatype {
    /// The table name of the datatype.
    pub open spec fn spec_name(self) -> Seq<char> {
        match self {
            Datatype::Blocks => "blocks"@,
            Datatype::Transactions => "transactions"@,
            Datatype::Logs => "logs"@,
            Datatype::Traces => "traces"@,
            Datatype::BalanceDiffs => "balance_diffs"@,
            Datatype::CodeDiffs => "code_diffs"@,
            Datatype::NonceDiffs => "nonce_diffs"@,
            Datatype::StorageDiffs => "storage_diffs"@,
            Datatype::Storages => "storages"@,
            Datatype::Nonces => "nonces"@,
            Datatype::Balances => "balances"@,
            Datatype::Codes => "codes"@,
            Datatype::Contracts => "contracts"@,
            Datatype::NativeTransfers => "native_transfers"@,
            Datatype::EthCalls => "eth_calls"@,
            Datatype::TraceCalls => "trace_calls"@,
            Datatype::Erc20Balances => "erc20_balances"@,
            Datatype::Erc20Metadata => "erc20_metadata"@,
            Datatype::Erc20Supplies => "erc20_supplies"@,
            Datatype::Erc20Transfers => "erc20_transfers"@,
            Datatype::Erc721Metadata => "erc721_metadata"@,
            Datatype::Erc721Transfers => "erc721_transfers"@,
            Datatype::TransactionAddresses => "transaction_addresses"@,
            Datatype::VmTraces => "vm_traces"@,
        }
    }

    /// The table name of the datatype.
    pub fn name(&self) -> (r: &'static str)
        ensures
            r@ == self.spec_name(),
    {
        match self {
            Datatype::Blocks => "blocks",
            Datatype::Transactions => "transactions",
            Datatype::Logs => "logs",
            Datatype::Traces => "traces",
            Datatype::BalanceDiffs => "balance_diffs",
            Datatype::CodeDiffs => "code_diffs",
            Datatype::NonceDiffs => "nonce_diffs",
            Datatype::StorageDiffs => "storage_diffs",
            Datatype::Storages => "storages",
            Datatype::Nonces => "nonces",
            Datatype::Balances => "balances",
            Datatype::Codes => "codes",
            Datatype::Contracts => "contracts",
            Datatype::NativeTransfers => "native_transfers",
            Datatype::EthCalls => "eth_calls",
            Datatype::TraceCalls => "trace_calls",
            Datatype::Erc20Balances => "erc20_balances",
            Datatype::Erc20Metadata => "erc20_metadata",
            Datatype::Erc20Supplies => "erc20_supplies",
            Datatype::Erc20Transfers => "erc20_transfers",
            Datatype::Erc721Metadata => "erc721_metadata",
            Datatype::Erc721Transfers => "erc721_transfers",
            Datatype::TransactionAddresses => "transaction_addresses",
            Datatype::VmTraces => "vm_traces",
        }
    }

    /// The column names the datatype sorts its output by when the user
    /// supplies no sort of their own.
    pub open spec fn spec_default_sort(self) -> Seq<Seq<char>> {
        match self {
            Datatype::Transactions => seq!["block_number"@, "transaction_index"@],
            Datatype::Logs => seq!["block_number"@, "log_index"@],
            Datatype::BalanceDiffs => seq!["block_number"@, "transaction_index"@],
            Datatype::Storages => seq!["block_number"@, "address"@, "slot"@],
            _ => seq!["block_number"@],
        }
    }

    /// The default sort columns of the datatype.
    pub fn default_sort(&self) -> (r: Vec<String>)
        ensures
            r.deep_view() == self.spec_default_sort(),
    {
        let r: Vec<String> = match self {
            Datatype::Transactions => vec![
                String::from_str("block_number"),
                String::from_str("transaction_index"),
            ],
            Datatype::Logs => vec![
                String::from_str("block_number"),
                String::from_str("log_index"),
            ],
            Datatype::BalanceDiffs => vec![
                String::from_str("block_number"),
                String::from_str("transaction_index"),
            ],
            Datatype::Storages => vec![
                String::from_str("block_number"),
                String::from_str("address"),
                String::from_str("slot"),
            ],
            _ => vec![String::from_str("block_number")],
        };
        proof {
            assert(r.deep_view() =~= self.spec_default_sort());
        }
        r
    }

    /// The dimensions a query must partition by for this datatype.
    pub open spec fn spec_required_parameters(self) -> Seq<Dim> {
        match self {
            Datatype::Storages => seq![Dim::Address, Dim::Slot],
            _ => Seq::<Dim>::empty(),
        }
    }

    /// The dimensions a query must partition by for this datatype.
    pub fn required_parameters(&self) -> (r: Vec<Dim>)
        ensures
            r@ == self.spec_required_parameters(),
    {
        let r: Vec<Dim> = match self {
            Datatype::Storages => vec![Dim::Address, Dim::Slot],
            _ => Vec::new(),
        };
        proof {
            assert(r@ =~= self.spec_required_parameters());
        }
        r
    }
}

/// A set of datatypes that one extraction can serve at once: the one
/// RPC response fans out to each member's transform.
#[derive(Debug, Clone, Copy, PartialEq, Eq, Structural, Hash)]
pub enum MultiDatatype {
    /// Blocks and transactions.
    BlocksAndTransactions,
    /// Call trace derivatives.
    CallTraceDerivatives,
    /// Balance diffs, code diffs, nonce diffs, and storage diffs.
    StateDiffs,
}

impl MultiDatatype {
    /// The individual datatypes of this set.
    pub open spec fn spec_datatypes(self) -> Seq<Datatype> {
        match self {
            MultiDatatype::BlocksAndTransactions => seq![
                Datatype::Blocks,
                Datatype::Transactions,
            ],
            MultiDatatype::CallTraceDerivatives => seq![
                Datatype::Contracts,
                Datatype::NativeTransfers,
                Datatype::Traces,
            ],
            MultiDatatype::StateDiffs => seq![
                Datatype::BalanceDiffs,
                Datatype::CodeDiffs,
                Datatype::NonceDiffs,
                Datatype::StorageDiffs,
            ],
        }
    }

    /// The individual datatypes of this set.
    pub fn datatypes(&self) -> (r: Vec<Datatype>)
        ensures
            r@ == self.spec_datatypes(),
    {
        let r: Vec<Datatype> = match self {
            MultiDatatype::BlocksAndTransactions => vec![
                Datatype::Blocks,
                Datatype::Transactions,
            ],
            MultiDatatype::StateDiffs => vec![
                Datatype::BalanceDiffs,
                Datatype::CodeDiffs,
                Datatype::NonceDiffs,
                Datatype::StorageDiffs,
            ],
            MultiDatatype::CallTraceDerivatives => vec![
                Datatype::Contracts,
                Datatype::NativeTransfers,
                Datatype::Traces,
            ],
        };
        proof {
            assert(r@ =~= self.spec_datatypes());
        }
        r
    }

    /// Every variant of the multi-datatype set.
    pub fn variants() -> (r: Vec<MultiDatatype>)
        ensures
            r@ == seq![
                MultiDatatype::BlocksAndTransactions,
                MultiDatatype::CallTraceDerivatives,
                MultiDatatype::StateDiffs,
            ],
    {
        let r: Vec<MultiDatatype> = vec![
            MultiDatatype::BlocksAndTransactions,
            MultiDatatype::CallTraceDerivatives,
            MultiDatatype::StateDiffs,
        ];
        proof {
            assert(r@ =~= seq![
                MultiDatatype::BlocksAndTransactions,
                MultiDatatype::CallTraceDerivatives,
                MultiDatatype::StateDiffs,
            ]);
        }
        r
    }
}

} // verus!
