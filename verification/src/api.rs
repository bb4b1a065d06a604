use vstd::prelude::*;

use crate::block::{Block, Status};
use crate::errors::VmError;
use crate::ids::Id;
use crate::state::{contains_id, rec_at};
use crate::vm::{same_chain, same_config, Vm};

verus! {

/// Response of the liveness check.
#[derive(Debug)]
pub struct PingResponse {
    pub success: bool,
}

/// Request carrying a payload to enqueue.
#[derive(Debug)]
pub struct ProposeBlockArgs {
    pub data: Vec<u8>,
}

/// Response acknowledging that a payload was enqueued.
#[derive(Debug)]
pub struct ProposeBlockResponse {
    pub success: bool,
}

/// Response carrying the last accepted block identifier.
#[derive(Debug)]
pub struct LastAcceptedResponse {
    pub id: Id,
}

/// Request for one block by identifier.
#[derive(Debug)]
pub struct GetBlockArgs {
    pub id: Id,
}

/// Response carrying one block and the status stored for it.
#[derive(Debug)]
pub struct GetBlockResponse {
    pub block: Block,
    pub status: Status,
}

/// The external API adapter: translates the external operations —
/// liveness check, submit payload, query last accepted, fetch block —
/// into engine operations. Transport encoding lives outside the library.
pub struct Service {
    pub vm: Vm,
}

impl Service {
    pub fn new(vm: Vm) -> (r: Self)
        ensures
            r.vm == vm,
    {
        Self { vm }
    }

    /// Liveness check; always succeeds.
    pub fn ping(&self) -> (r: PingResponse)
        ensures
            r.success,
    {
        PingResponse { success: true }
    }

    /// Submits a payload to the pending-data queue; acknowledges the
    /// enqueue, not inclusion in a block.
    pub fn propose_block(&mut self, args: ProposeBlockArgs) -> (r: Result<
        ProposeBlockResponse,
        VmError,
    >)
        requires
            old(self).vm.wf(),
        ensures
            final(self).vm.wf(),
            same_config(old(self).vm@, final(self).vm@),
            same_chain(old(self).vm@, final(self).vm@),
            match r {
                Ok(resp) => resp.success && old(self).vm@.ready && old(self).vm@.pending.len()
                    < old(self).vm@.mempool_limit && final(self).vm@.pending == old(
                    self,
                ).vm@.pending.push(args.data@),
                Err(e) => final(self).vm@.pending == old(self).vm@.pending && ((e
                    == VmError::InternalError && !old(self).vm@.ready) || (e == VmError::QueueFull
                    && old(self).vm@.ready && old(self).vm@.pending.len() >= old(
                    self,
                ).vm@.mempool_limit)),
            },
    {
        match self.vm.propose_block(args.data) {
            Ok(_) => Ok(ProposeBlockResponse { success: true }),
            Err(e) => Err(e),
        }
    }

    /// The identifier of the last accepted block; an internal error while
    /// the engine has no state manager yet.
    pub fn last_accepted(&self) -> (r: Result<LastAcceptedResponse, VmError>)
        requires
            self.vm.wf(),
        ensures
            match r {
                Ok(resp) => self.vm@.ready && resp.id == self.vm@.last_accepted,
                Err(e) => e == VmError::InternalError && !self.vm@.ready,
            },
    {
        match self.vm.last_accepted() {
            Ok(id) => Ok(LastAcceptedResponse { id }),
            Err(e) => Err(e),
        }
    }

    /// Fetches one block by identifier, with its stored status.
    pub fn get_block(&self, args: GetBlockArgs) -> (r: Result<GetBlockResponse, VmError>)
        requires
            self.vm.wf(),
        ensures
            match r {
                Ok(resp) => self.vm@.ready && contains_id(self.vm@.recs, args.id) && resp.block@
                    == rec_at(self.vm@.recs, args.id).block && resp.status == rec_at(
                    self.vm@.recs,
                    args.id,
                ).status,
                Err(e) => (e == VmError::InternalError && !self.vm@.ready) || (e
                    == VmError::NotFound && self.vm@.ready && !contains_id(
                    self.vm@.recs,
                    args.id,
                )),
            },
    {
        match self.vm.get_block(&args.id) {
            Ok(p) => Ok(GetBlockResponse { block: p.0, status: p.1 }),
            Err(e) => Err(e),
        }
    }
}

} // verus!
