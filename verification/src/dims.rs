//! The axes of a query's input space.

use vstd::prelude::*;

verus! {

/// One dimension of the input space.  A partition populates a subset of
/// these; every work item carries exactly one value per populated
/// dimension.
#[derive(Debug, Clone, Copy, PartialEq, Eq, Structural)]
pub enum Dim {
    /// A block number.
    BlockNumber,
    /// A transaction hash.
    TransactionHash,
    /// Calldata handed to a call.
    CallData,
    /// An account address.
    Address,
    /// A contract address.
    Contract,
    /// A recipient address.
    ToAddress,
    /// A storage slot.
    Slot,
    /// The first log topic.
    Topic0,
    /// The second log topic.
    Topic1,
    /// The third log topic.
    Topic2,
    /// The fourth log topic.
    Topic3,
}

impl Dim {
    /// The singular display name of the dimension.
    pub open spec fn spec_name(self) -> Seq<char> {
        match self {
            Dim::BlockNumber => "block_number"@,
            Dim::TransactionHash => "transaction"@,
            Dim::CallData => "call_data"@,
            Dim::Address => "address"@,
            Dim::Contract => "contract"@,
            Dim::ToAddress => "to_address"@,
            Dim::Slot => "slot"@,
            Dim::Topic0 => "topic0"@,
            Dim::Topic1 => "topic1"@,
            Dim::Topic2 => "topic2"@,
            Dim::Topic3 => "topic3"@,
        }
    }

    /// The plural display name of the dimension.
    pub open spec fn spec_plural_name(self) -> Seq<char> {
        match self {
            Dim::BlockNumber => "block_numbers"@,
            Dim::TransactionHash => "transactions"@,
            Dim::CallData => "call_datas"@,
            Dim::Address => "addresses"@,
            Dim::Contract => "contracts"@,
            Dim::ToAddress => "to_addresses"@,
            Dim::Slot => "slots"@,
            Dim::Topic0 => "topic0s"@,
            Dim::Topic1 => "topic1s"@,
            Dim::Topic2 => "topic2s"@,
            Dim::Topic3 => "topic3s"@,
        }
    }

    /// The singular display name.
    pub fn name(&self) -> (r: &'static str)
        ensures
            r@ == self.spec_name(),
    {
        match self {
            Dim::BlockNumber => "block_number",
            Dim::TransactionHash => "transaction",
            Dim::CallData => "call_data",
            Dim::Address => "address",
            Dim::Contract => "contract",
            Dim::ToAddress => "to_address",
            Dim::Slot => "slot",
            Dim::Topic0 => "topic0",
            Dim::Topic1 => "topic1",
            Dim::Topic2 => "topic2",
            Dim::Topic3 => "topic3",
        }
    }

    /// The plural display name.
    pub fn plural_name(&self) -> (r: &'static str)
        ensures
            r@ == self.spec_plural_name(),
    {
        match self {
            Dim::BlockNumber => "block_numbers",
            Dim::TransactionHash => "transactions",
            Dim::CallData => "call_datas",
            Dim::Address => "addresses",
            Dim::Contract => "contracts",
            Dim::ToAddress => "to_addresses",
            Dim::Slot => "slots",
            Dim::Topic0 => "topic0s",
            Dim::Topic1 => "topic1s",
            Dim::Topic2 => "topic2s",
            Dim::Topic3 => "topic3s",
        }
    }
}

} // verus!
