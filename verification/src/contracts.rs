//! The contract execution model: a polymorphic capability of two
//! operations, the state-mutating `handle_command` and the read-only
//! `handle_query`, both total over their inputs.  Domain failures are
//! returned as typed status or response values, never as aborts: a
//! misbehaving contract must not be able to stall message processing.

use vstd::prelude::*;

use crate::types::MessageOrigin;

verus! {

/// The contract id of the ledger (asset-transfer) contract.
pub const ASSETS: u32 = 3;

/// The terminal outcome of one command: a result value, not an exception.
#[derive(Clone, Copy, PartialEq, Eq, Structural, Debug)]
pub enum TransactionStatus {
    /// The command was applied.
    Accepted,
    /// The origin may not issue this command.
    BadOrigin,
    /// The named asset does not exist.
    AssetIdNotFound,
    /// An asset with this symbol already exists.
    SymbolExist,
    /// The caller does not own the asset.
    NotAssetOwner,
    /// The source balance is smaller than the amount moved.
    InsufficientBalance,
    /// The source holds no balance entry at all.
    NoBalance,
}

/// The position of a command for audit and history purposes: the block it
/// arrived in and its index within that block.
#[derive(Clone, Copy, PartialEq, Eq, Structural, Debug)]
pub struct TxRef {
    pub blocknum: u64,
    pub index: u64,
}

/// What the ledger runtime supplies while a command is applied.
pub struct NativeContext {
    /// The current block number.
    pub block_number: u64,
}

/// A command together with its intra-block index.
pub struct PushCommand<C> {
    pub command: C,
    pub number: u64,
}

/// The capability every contract instance implements: an id, a
/// state-mutating command handler, and a read-only query handler.
///
/// Each instance names its own well-formedness (`wf`), established by its
/// constructors and preserved by every command, and says through
/// `command_allowed` which commands may be applied to a state (the ledger
/// uses it only to rule out issuing past an exhausted id space).
pub trait NativeContract {
    type Cmd;

    type QReq;

    type QResp;

    /// The internal invariant of this contract's state.
    spec fn wf(&self) -> bool;

    /// Whether a command may be applied to this state.
    spec fn command_allowed(&self, cmd: &PushCommand<Self::Cmd>) -> bool;

    /// The id this contract is addressed by.
    fn id(&self) -> u32;

    /// Applies one command for an origin, returning its terminal status.
    fn handle_command(
        &mut self,
        context: &NativeContext,
        origin: &MessageOrigin,
        cmd: PushCommand<Self::Cmd>,
    ) -> (r: TransactionStatus)
        requires
            old(self).wf(),
            old(self).command_allowed(&cmd),
        ensures
            final(self).wf(),
    ;

    /// Answers one read-only query; the state is untouched by type.
    fn handle_query(&self, origin: Option<&Vec<u8>>, req: &Self::QReq) -> (r: Self::QResp)
        requires
            self.wf(),
    ;
}

} // verus!
