use vstd::prelude::*;

use crate::block::{clone_bytes, id_of, spec_deserialize, Block, BlockView, Status};
use crate::errors::{InvalidReason, VmError};
use crate::ids::Id;
use crate::state::{contains_id, rec_at, RecordView, State};

verus! {

/// Default backpressure limit of the pending-data queue.
pub const DEFAULT_MEMPOOL_LIMIT: usize = 1024;

/// Default bound on a block payload, in bytes.
pub const DEFAULT_MAX_PAYLOAD_LEN: usize = 32768;

/// Default bound on how far a block timestamp may run ahead of the local
/// observation time.
pub const DEFAULT_MAX_TIME_DRIFT: u64 = 3600;

/// The virtual machine engine: the guarded runtime state behind the
/// callback surface the external consensus engine invokes.
///
/// `Uninitialized` (no state manager yet) until [`Vm::initialize`] stores a
/// genesis block; every other operation fails with `InternalError` before
/// that. Callers pass the local observation time in explicitly, so the
/// engine itself performs no input or output.
pub struct Vm {
    pub state: Option<State>,
    pub mempool: Vec<Vec<u8>>,
    pub preference: Id,
    pub mempool_limit: usize,
    pub max_payload_len: usize,
    pub max_time_drift: u64,
}

/// Mathematical model of a [`Vm`]: the stored records, the last-accepted
/// pointer, the pending payloads in queue order, the preferred tip, and the
/// configured bounds.
#[verifier::ext_equal]
pub ghost struct VmView {
    pub ready: bool,
    pub recs: Seq<RecordView>,
    pub last_accepted: Id,
    pub pending: Seq<Seq<u8>>,
    pub preference: Id,
    pub mempool_limit: usize,
    pub max_payload_len: usize,
    pub max_time_drift: u64,
}

impl View for Vm {
    type V = VmView;

    open spec fn view(&self) -> VmView {
        VmView {
            ready: self.state is Some,
            recs: if self.state is Some {
                self.state->Some_0.recs()
            } else {
                Seq::empty()
            },
            last_accepted: if self.state is Some {
                self.state->Some_0.last_accepted
            } else {
                Id::spec_zero()
            },
            pending: self.mempool@.map_values(|p: Vec<u8>| p@),
            preference: self.preference,
            mempool_limit: self.mempool_limit,
            max_payload_len: self.max_payload_len,
            max_time_drift: self.max_time_drift,
        }
    }
}

/// The chain-facing parts of two engine models agree: readiness, records,
/// last-accepted pointer and preference.
pub open spec fn same_chain(a: VmView, b: VmView) -> bool {
    a.ready == b.ready && a.recs == b.recs && a.last_accepted == b.last_accepted && a.preference
        == b.preference
}

/// The configured bounds of two engine models agree.
pub open spec fn same_config(a: VmView, b: VmView) -> bool {
    a.mempool_limit == b.mempool_limit && a.max_payload_len == b.max_payload_len
        && a.max_time_drift == b.max_time_drift
}

impl VmView {
    /// Height of the block the last-accepted pointer refers to.
    pub open spec fn last_height(self) -> u64 {
        rec_at(self.recs, self.last_accepted).block.height
    }

    /// The structural checks of `verify`, in order; the result is the first
    /// failing check, or success.
    pub open spec fn check(self, b: BlockView, now: u64) -> Result<(), InvalidReason> {
        if !contains_id(self.recs, b.parent_id) {
            Err(InvalidReason::MissingParent)
        } else if b.height != rec_at(self.recs, b.parent_id).block.height + 1 {
            Err(InvalidReason::WrongHeight)
        } else if b.timestamp < rec_at(self.recs, b.parent_id).block.timestamp {
            Err(InvalidReason::TimestampBehindParent)
        } else if b.timestamp > now + self.max_time_drift {
            Err(InvalidReason::TimestampTooFarAhead)
        } else if b.payload.len() > self.max_payload_len {
            Err(InvalidReason::OversizePayload)
        } else {
            Ok(())
        }
    }
}

/// The payloads held in stored records, in insertion order.
pub open spec fn stored_payloads(es: Seq<RecordView>) -> Seq<Seq<u8>> {
    es.map_values(|r: RecordView| r.block.payload)
}

/// Queue conservation: a successful build moves the head payload from the
/// pending queue into exactly one new stored record, as
/// [`Vm::build_block`]'s contract states — so, counted together, the
/// pending payloads and the stored payloads are exactly what they were.
pub proof fn lemma_queue_conservation(
    pending_before: Seq<Seq<u8>>,
    pending_after: Seq<Seq<u8>>,
    recs_before: Seq<RecordView>,
    recs_after: Seq<RecordView>,
    r: RecordView,
)
    requires
        pending_before.len() > 0,
        pending_after == pending_before.drop_first(),
        r.block.payload == pending_before[0],
        recs_after == recs_before.push(r),
    ensures
        pending_after.to_multiset().add(stored_payloads(recs_after).to_multiset())
            == pending_before.to_multiset().add(stored_payloads(recs_before).to_multiset()),
{
    broadcast use vstd::seq_lib::group_to_multiset_ensures;

    let p0 = pending_before[0];
    assert(pending_before.remove(0) =~= pending_after);
    assert(pending_before.remove(0).to_multiset() =~= pending_before.to_multiset().remove(p0));
    assert(pending_before.contains(p0));
    assert(pending_before.to_multiset().count(p0) > 0);
    assert(stored_payloads(recs_after) =~= stored_payloads(recs_before).push(p0));
    assert(stored_payloads(recs_after).to_multiset() =~= stored_payloads(
        recs_before,
    ).to_multiset().insert(p0));
    assert(pending_after.to_multiset().add(stored_payloads(recs_after).to_multiset())
        =~= pending_before.to_multiset().add(stored_payloads(recs_before).to_multiset()));
}

/// Lifts the result of the structural checks into the engine's error type.
pub open spec fn to_vm_result(c: Result<(), InvalidReason>) -> Result<(), VmError> {
    match c {
        Ok(_) => Ok(()),
        Err(why) => Err(VmError::ValidationError(why)),
    }
}

impl Vm {
    /// Invariant: once ready, the state manager is consistent and the
    /// preferred tip refers to a stored block.
    pub open spec fn wf(self) -> bool {
        self.state matches Some(s) ==> s.wf() && s.spec_contains(self.preference)
    }

    /// An uninitialized engine with the given bounds: a mempool
    /// backpressure limit, a payload size bound, and a bound on timestamp
    /// drift ahead of the observation time.
    pub fn with_config(mempool_limit: usize, max_payload_len: usize, max_time_drift: u64) -> (r:
        Vm)
        ensures
            r.wf(),
            !r@.ready,
            r@.pending == Seq::<Seq<u8>>::empty(),
            r@.mempool_limit == mempool_limit,
            r@.max_payload_len == max_payload_len,
            r@.max_time_drift == max_time_drift,
    {
        let r = Vm {
            state: None,
            mempool: Vec::new(),
            preference: Id::zero(),
            mempool_limit,
            max_payload_len,
            max_time_drift,
        };
        proof {
            assert(r@.pending =~= Seq::<Seq<u8>>::empty());
        }
        r
    }

    /// An uninitialized engine with the default bounds.
    pub fn new() -> (r: Vm)
        ensures
            r.wf(),
            !r@.ready,
            r@.pending == Seq::<Seq<u8>>::empty(),
            r@.mempool_limit == DEFAULT_MEMPOOL_LIMIT,
            r@.max_payload_len == DEFAULT_MAX_PAYLOAD_LEN,
            r@.max_time_drift == DEFAULT_MAX_TIME_DRIFT,
    {
        Vm::with_config(DEFAULT_MEMPOOL_LIMIT, DEFAULT_MAX_PAYLOAD_LEN, DEFAULT_MAX_TIME_DRIFT)
    }

    /// Establishes the genesis block: stores it as `Accepted` at height
    /// zero under the zero sentinel parent, stamps it with the observation
    /// time, and points both the last-accepted pointer and the preference
    /// at it. The engine is `Ready` afterwards.
    pub fn initialize(&mut self, genesis_payload: Vec<u8>, now: u64) -> (r: Result<Id, VmError>)
        requires
            old(self).wf(),
        ensures
            final(self).wf(),
            same_config(old(self)@, final(self)@),
            final(self)@.pending == old(self)@.pending,
            match r {
                Ok(gid) => {
                    let gv = (BlockView {
                        parent_id: Id::spec_zero(),
                        height: 0,
                        timestamp: now,
                        payload: genesis_payload@,
                    });
                    &&& !old(self)@.ready
                    &&& gid == id_of(gv)
                    &&& final(self)@.ready
                    &&& final(self)@.recs == seq![
                        (RecordView { id: gid, block: gv, status: Status::Accepted }),
                    ]
                    &&& final(self)@.last_accepted == gid
                    &&& final(self)@.preference == gid
                },
                Err(e) => e == VmError::InternalError && old(self)@.ready && same_chain(
                    old(self)@,
                    final(self)@,
                ),
            },
    {
        if self.state.is_some() {
            return Err(VmError::InternalError);
        }
        let genesis = Block::new(Id::zero(), 0, now, genesis_payload);
        let gid = genesis.id();
        let st = State::new(genesis);
        self.state = Some(st);
        self.preference = gid;
        Ok(gid)
    }

    /// Appends a payload to the pending-data queue. Acknowledges the
    /// enqueue, not inclusion in a block; always succeeds unless the
    /// engine is not ready or the queue is at its backpressure limit. The
    /// configured payload size bound is a structural check of
    /// [`Vm::verify`], not of submission.
    pub fn propose_block(&mut self, data: Vec<u8>) -> (r: Result<(), VmError>)
        requires
            old(self).wf(),
        ensures
            final(self).wf(),
            same_config(old(self)@, final(self)@),
            same_chain(old(self)@, final(self)@),
            match r {
                Ok(_) => old(self)@.ready && old(self)@.pending.len() < old(self)@.mempool_limit
                    && final(self)@.pending == old(self)@.pending.push(data@),
                Err(e) => final(self)@.pending == old(self)@.pending && ((e
                    == VmError::InternalError && !old(self)@.ready) || (e == VmError::QueueFull
                    && old(self)@.ready && old(self)@.pending.len() >= old(self)@.mempool_limit)),
            },
    {
        if self.state.is_none() {
            return Err(VmError::InternalError);
        }
        if self.mempool.len() >= self.mempool_limit {
            return Err(VmError::QueueFull);
        }
        let ghost before = self@.pending;
        let ghost dv = data@;
        self.mempool.push(data);
        proof {
            assert(self@.pending =~= before.push(dv));
        }
        Ok(())
    }

    /// Builds a candidate block extending the preferred tip: dequeues the
    /// head payload, sets `height` one above the parent, stamps the later
    /// of the observation time and the parent's timestamp, and stores the
    /// block as `Processing`. Returns `NoContentAvailable` on an empty
    /// queue; on any failure the queue is left as it was. Re-building a
    /// block that is already stored byte for byte still consumes the head
    /// payload and leaves the store unchanged — the state manager's
    /// idempotent upsert; the payload then lives in that one stored block.
    #[verifier::rlimit(50)]
    pub fn build_block(&mut self, now: u64) -> (r: Result<Block, VmError>)
        requires
            old(self).wf(),
        ensures
            final(self).wf(),
            same_config(old(self)@, final(self)@),
            final(self)@.ready == old(self)@.ready,
            final(self)@.preference == old(self)@.preference,
            final(self)@.last_accepted == old(self)@.last_accepted,
            match r {
                Ok(b) => {
                    let parent = rec_at(old(self)@.recs, old(self)@.preference).block;
                    &&& old(self)@.ready
                    &&& old(self)@.pending.len() > 0
                    &&& parent.height < u64::MAX
                    &&& b@ == (BlockView {
                        parent_id: old(self)@.preference,
                        height: (parent.height + 1) as u64,
                        timestamp: if now > parent.timestamp {
                            now
                        } else {
                            parent.timestamp
                        },
                        payload: old(self)@.pending[0],
                    })
                    &&& final(self)@.pending == old(self)@.pending.drop_first()
                    &&& if contains_id(old(self)@.recs, id_of(b@)) {
                        final(self)@.recs == old(self)@.recs && rec_at(
                            old(self)@.recs,
                            id_of(b@),
                        ).block == b@
                    } else {
                        final(self)@.recs == old(self)@.recs.push(
                            (RecordView { id: id_of(b@), block: b@, status: Status::Processing }),
                        )
                    }
                },
                Err(e) => {
                    let parent = rec_at(old(self)@.recs, old(self)@.preference).block;
                    let cand = (BlockView {
                        parent_id: old(self)@.preference,
                        height: (parent.height + 1) as u64,
                        timestamp: if now > parent.timestamp {
                            now
                        } else {
                            parent.timestamp
                        },
                        payload: old(self)@.pending[0],
                    });
                    &&& final(self)@.pending == old(self)@.pending
                    &&& final(self)@.recs == old(self)@.recs
                    &&& ((e == VmError::InternalError && !old(self)@.ready) || (e
                        == VmError::NoContentAvailable && old(self)@.ready && old(self)@.pending.len() == 0) || (e == VmError::InternalError && old(self)@.ready && old(self)@.pending.len() > 0 && parent.height == u64::MAX) || (e
                        == VmError::ValidationError(InvalidReason::ConflictingBlock) && old(self)@.ready && old(self)@.pending.len() > 0 && parent.height < u64::MAX
                        && contains_id(old(self)@.recs, id_of(cand)) && rec_at(
                        old(self)@.recs,
                        id_of(cand),
                    ).block != cand))
                },
            },
    {
        let parent = match &self.state {
            None => {
                return Err(VmError::InternalError);
            },
            Some(st) => {
                match st.get_block(&self.preference) {
                    Ok(p) => p.0,
                    Err(_) => {
                        proof {
                            assert(false);
                        }
                        return Err(VmError::InternalError);
                    },
                }
            },
        };
        if self.mempool.len() == 0 {
            return Err(VmError::NoContentAvailable);
        }
        if parent.height == u64::MAX {
            return Err(VmError::InternalError);
        }
        let ghost pending0 = self@.pending;
        let data = self.mempool.remove(0);
        proof {
            assert(self@.pending =~= pending0.drop_first());
            assert(data@ == pending0[0]);
        }
        let timestamp = if now > parent.timestamp {
            now
        } else {
            parent.timestamp
        };
        let block = Block::new(self.preference, parent.height + 1, timestamp, data);
        let ghost bv = block@;
        let put_res = match &mut self.state {
            None => {
                proof {
                    assert(false);
                }
                return Err(VmError::InternalError);
            },
            Some(st) => st.put_block(block.clone()),
        };
        match put_res {
            Ok(_) => {
                proof {
                    let es = old(self)@.recs;
                    if !contains_id(es, id_of(bv)) {
                        let i = crate::state::idx_of(es, old(self).preference);
                        assert(es.push(
                            (RecordView { id: id_of(bv), block: bv, status: Status::Processing }),
                        )[i] == es[i]);
                        assert(contains_id(self@.recs, old(self).preference));
                    }
                }
                Ok(block)
            },
            Err(e) => {
                let restored = clone_bytes(&block.payload);
                self.mempool.insert(0, restored);
                proof {
                    assert(self@.pending =~= pending0);
                    let parent_v = rec_at(old(self)@.recs, old(self)@.preference).block;
                    assert(bv =~= (BlockView {
                        parent_id: old(self)@.preference,
                        height: (parent_v.height + 1) as u64,
                        timestamp: if now > parent_v.timestamp {
                            now
                        } else {
                            parent_v.timestamp
                        },
                        payload: old(self)@.pending[0],
                    }));
                }
                Err(e)
            },
        }
    }

    /// Runs the structural checks on a block against the current state:
    /// parent present, height one above the parent, timestamp between the
    /// parent's and the drift bound, payload within the size bound. The
    /// first failing check determines the reported reason; nothing is
    /// stored.
    pub fn verify(&self, block: &Block, now: u64) -> (r: Result<(), VmError>)
        requires
            self.wf(),
        ensures
            !self@.ready ==> r == Err::<(), VmError>(VmError::InternalError),
            self@.ready ==> r == to_vm_result(self@.check(block@, now)),
    {
        match &self.state {
            None => Err(VmError::InternalError),
            Some(st) => {
                match st.get_block(&block.parent_id) {
                    Err(_) => Err(VmError::ValidationError(InvalidReason::MissingParent)),
                    Ok(p) => {
                        let parent = p.0;
                        if !(block.height > 0 && block.height - 1 == parent.height) {
                            Err(VmError::ValidationError(InvalidReason::WrongHeight))
                        } else if block.timestamp < parent.timestamp {
                            Err(VmError::ValidationError(InvalidReason::TimestampBehindParent))
                        } else if block.timestamp > now && block.timestamp - now
                            > self.max_time_drift {
                            Err(VmError::ValidationError(InvalidReason::TimestampTooFarAhead))
                        } else if block.payload.len() > self.max_payload_len {
                            Err(VmError::ValidationError(InvalidReason::OversizePayload))
                        } else {
                            Ok(())
                        }
                    },
                }
            },
        }
    }

    /// Decodes raw bytes into a block, runs the same structural checks as
    /// [`Vm::verify`], and only then stores the block as `Processing`. A
    /// block that fails a check is never inserted.
    #[verifier::rlimit(50)]
    pub fn parse_block(&mut self, bytes: &Vec<u8>, now: u64) -> (r: Result<Block, VmError>)
        requires
            old(self).wf(),
        ensures
            final(self).wf(),
            same_config(old(self)@, final(self)@),
            final(self)@.ready == old(self)@.ready,
            final(self)@.preference == old(self)@.preference,
            final(self)@.last_accepted == old(self)@.last_accepted,
            final(self)@.pending == old(self)@.pending,
            match r {
                Ok(b) => {
                    &&& old(self)@.ready
                    &&& spec_deserialize(bytes@) == Some(b@)
                    &&& old(self)@.check(b@, now) is Ok
                    &&& if contains_id(old(self)@.recs, id_of(b@)) {
                        final(self)@.recs == old(self)@.recs && rec_at(
                            old(self)@.recs,
                            id_of(b@),
                        ).block == b@
                    } else {
                        final(self)@.recs == old(self)@.recs.push(
                            (RecordView { id: id_of(b@), block: b@, status: Status::Processing }),
                        )
                    }
                },
                Err(e) => final(self)@.recs == old(self)@.recs && ((e == VmError::InternalError
                    && !old(self)@.ready) || (e == VmError::DecodeError && old(self)@.ready
                    && spec_deserialize(bytes@) is None) || (old(self)@.ready
                    && (spec_deserialize(bytes@) matches Some(bv) && ((old(self)@.check(bv, now)
                    matches Err(why) && e == VmError::ValidationError(why)) || (old(self)@.check(
                    bv,
                    now,
                ) is Ok && e == VmError::ValidationError(InvalidReason::ConflictingBlock)
                    && contains_id(old(self)@.recs, id_of(bv)) && rec_at(
                    old(self)@.recs,
                    id_of(bv),
                ).block != bv))))),
            },
    {
        if self.state.is_none() {
            return Err(VmError::InternalError);
        }
        let block = match Block::deserialize(bytes) {
            Err(e) => {
                return Err(e);
            },
            Ok(b) => b,
        };
        if let Err(e) = self.verify(&block, now) {
            return Err(e);
        }
        let ghost bv = block@;
        let put_res = match &mut self.state {
            None => {
                proof {
                    assert(false);
                }
                return Err(VmError::InternalError);
            },
            Some(st) => st.put_block(block.clone()),
        };
        match put_res {
            Ok(_) => {
                proof {
                    let es = old(self)@.recs;
                    if !contains_id(es, id_of(bv)) {
                        let i = crate::state::idx_of(es, old(self).preference);
                        assert(es.push(
                            (RecordView { id: id_of(bv), block: bv, status: Status::Processing }),
                        )[i] == es[i]);
                        assert(contains_id(self@.recs, old(self).preference));
                    }
                }
                Ok(block)
            },
            Err(e) => Err(e),
        }
    }

    /// Looks a stored block up by identifier, with the status the state
    /// manager holds for it.
    pub fn get_block(&self, id: &Id) -> (r: Result<(Block, Status), VmError>)
        requires
            self.wf(),
        ensures
            match r {
                Ok(p) => self@.ready && contains_id(self@.recs, *id) && p.0@ == rec_at(
                    self@.recs,
                    *id,
                ).block && p.1 == rec_at(self@.recs, *id).status,
                Err(e) => (e == VmError::InternalError && !self@.ready) || (e == VmError::NotFound
                    && self@.ready && !contains_id(self@.recs, *id)),
            },
    {
        match &self.state {
            None => Err(VmError::InternalError),
            Some(st) => st.get_block(id),
        }
    }

    /// The identifier of the last accepted block.
    pub fn last_accepted(&self) -> (r: Result<Id, VmError>)
        requires
            self.wf(),
        ensures
            match r {
                Ok(id) => self@.ready && id == self@.last_accepted,
                Err(e) => e == VmError::InternalError && !self@.ready,
            },
    {
        match &self.state {
            None => Err(VmError::InternalError),
            Some(st) => Ok(st.get_last_accepted_block_id()),
        }
    }

    /// Records which stored block the engine should extend when it next
    /// builds; already-built blocks are unaffected.
    pub fn set_preference(&mut self, id: &Id) -> (r: Result<(), VmError>)
        requires
            old(self).wf(),
        ensures
            final(self).wf(),
            same_config(old(self)@, final(self)@),
            final(self)@.ready == old(self)@.ready,
            final(self)@.recs == old(self)@.recs,
            final(self)@.last_accepted == old(self)@.last_accepted,
            final(self)@.pending == old(self)@.pending,
            match r {
                Ok(_) => old(self)@.ready && contains_id(old(self)@.recs, *id) && final(self)@.preference == *id,
                Err(e) => final(self)@.preference == old(self)@.preference && ((e
                    == VmError::InternalError && !old(self)@.ready) || (e == VmError::NotFound
                    && old(self)@.ready && !contains_id(old(self)@.recs, *id))),
            },
    {
        match &self.state {
            None => Err(VmError::InternalError),
            Some(st) => {
                match st.get_block(id) {
                    Err(_) => Err(VmError::NotFound),
                    Ok(_) => {
                        self.preference = *id;
                        Ok(())
                    },
                }
            },
        }
    }

    /// Applies the consensus engine's accept decision: marks the
    /// `Processing` block `Accepted` and moves the last-accepted pointer to
    /// it — the sole writer of chain finality. Re-accepting an accepted
    /// block is a no-op; a rejected block fails loudly, as does one whose
    /// height is below the current last-accepted height, since the pointer
    /// never moves backward.
    #[verifier::rlimit(50)]
    pub fn accept(&mut self, id: &Id) -> (r: Result<(), VmError>)
        requires
            old(self).wf(),
        ensures
            final(self).wf(),
            same_config(old(self)@, final(self)@),
            final(self)@.ready == old(self)@.ready,
            final(self)@.pending == old(self)@.pending,
            final(self)@.preference == old(self)@.preference,
            old(self)@.ready ==> final(self)@.last_height() >= old(self)@.last_height(),
            match r {
                Ok(_) => old(self)@.ready && contains_id(old(self)@.recs, *id) && ((rec_at(
                    old(self)@.recs,
                    *id,
                ).status == Status::Accepted && final(self)@.recs == old(self)@.recs && final(self)@.last_accepted == old(self)@.last_accepted) || (rec_at(old(self)@.recs, *id).status
                    == Status::Processing && rec_at(old(self)@.recs, *id).block.height >= old(self)@.last_height() && final(self)@.recs.len() == old(self)@.recs.len() && rec_at(
                    final(self)@.recs,
                    *id,
                ) == (RecordView {
                    id: rec_at(old(self)@.recs, *id).id,
                    block: rec_at(old(self)@.recs, *id).block,
                    status: Status::Accepted,
                }) && (forall|o: Id|
                    contains_id(old(self)@.recs, o) && o != *id ==> #[trigger] rec_at(
                        final(self)@.recs,
                        o,
                    ) == rec_at(old(self)@.recs, o)) && (forall|o: Id|
                    #[trigger] contains_id(final(self)@.recs, o) <==> contains_id(
                        old(self)@.recs,
                        o,
                    )) && final(self)@.last_accepted == *id)),
                Err(e) => final(self)@.recs == old(self)@.recs && final(self)@.last_accepted == old(self)@.last_accepted && ((e == VmError::InternalError && !old(self)@.ready) || (e
                    == VmError::NotFound && old(self)@.ready && !contains_id(old(self)@.recs, *id))
                    || (e == VmError::ValidationError(InvalidReason::AlreadyDecided) && old(self)@.ready && contains_id(old(self)@.recs, *id) && rec_at(old(self)@.recs, *id).status
                    == Status::Rejected) || (e == VmError::ValidationError(
                    InvalidReason::BehindLastAccepted,
                ) && old(self)@.ready && contains_id(old(self)@.recs, *id) && rec_at(
                    old(self)@.recs,
                    *id,
                ).status == Status::Processing && rec_at(old(self)@.recs, *id).block.height < old(self)@.last_height())),
            },
    {
        let (status, height, last_h) = match &self.state {
            None => {
                return Err(VmError::InternalError);
            },
            Some(st) => {
                match st.get_block(id) {
                    Err(_) => {
                        return Err(VmError::NotFound);
                    },
                    Ok(p) => {
                        let la = st.get_last_accepted_block_id();
                        let lh = match st.get_block(&la) {
                            Ok(q) => q.0.height,
                            Err(_) => {
                                proof {
                                    assert(false);
                                }
                                return Err(VmError::InternalError);
                            },
                        };
                        (p.1, p.0.height, lh)
                    },
                }
            },
        };
        if status == Status::Accepted {
            return Ok(());
        }
        if status == Status::Rejected {
            return Err(VmError::ValidationError(InvalidReason::AlreadyDecided));
        }
        if height < last_h {
            return Err(VmError::ValidationError(InvalidReason::BehindLastAccepted));
        }
        let ghost st1 = self.state->Some_0;
        let ghost mut st_mid = st1;
        let res: Result<(), VmError> = match &mut self.state {
            None => {
                proof {
                    assert(false);
                }
                Err(VmError::InternalError)
            },
            Some(st) => {
                match st.mark_accepted(id) {
                    Err(_) => {
                        proof {
                            assert(false);
                        }
                        Err(VmError::InternalError)
                    },
                    Ok(_) => {
                        proof {
                            st_mid = *st;
                            let la = st1.last_accepted;
                            if la == *id {
                                assert(st1.spec_record(la).status == Status::Accepted);
                                assert(false);
                            }
                            assert(st_mid.spec_record(la) == st1.spec_record(la));
                            assert(st_mid.spec_record(*id).status == Status::Accepted);
                            assert(st_mid.spec_contains(*id));
                            assert(st_mid.last_height() == st1.last_height());
                        }
                        match st.set_last_accepted(id) {
                            Err(_) => {
                                proof {
                                    assert(false);
                                }
                                Err(VmError::InternalError)
                            },
                            Ok(_) => Ok(()),
                        }
                    },
                }
            },
        };
        proof {
            let st2 = self.state->Some_0;
            let la = st1.last_accepted;
            assert(st1.spec_record(la).status == Status::Accepted);
            assert(la != *id);
            assert(st2.recs() == st_mid.recs());
            assert forall|o: Id| contains_id(old(self)@.recs, o) && o != *id implies #[trigger] rec_at(
                self@.recs,
                o,
            ) == rec_at(old(self)@.recs, o) by {
                assert(st1.spec_contains(o));
                assert(st_mid.spec_record(o) == st1.spec_record(o));
                assert(st2.spec_record(o) == st_mid.spec_record(o));
            }
            assert forall|o: Id| #[trigger] contains_id(self@.recs, o) <==> contains_id(
                old(self)@.recs,
                o,
            ) by {
                assert(st_mid.spec_contains(o) <==> st1.spec_contains(o));
                assert(st2.spec_contains(o) == st_mid.spec_contains(o));
            }
            assert(st2.spec_record(*id) == st_mid.spec_record(*id));
            assert(self@.last_height() == st2.spec_record(*id).block.height);
        }
        res
    }

    /// Applies the consensus engine's reject decision: marks the
    /// `Processing` block `Rejected`. The payload is not requeued —
    /// rejection is final. Re-rejecting a rejected block is a no-op; an
    /// accepted block fails loudly. No other state is touched.
    #[verifier::rlimit(50)]
    pub fn reject(&mut self, id: &Id) -> (r: Result<(), VmError>)
        requires
            old(self).wf(),
        ensures
            final(self).wf(),
            same_config(old(self)@, final(self)@),
            final(self)@.ready == old(self)@.ready,
            final(self)@.pending == old(self)@.pending,
            final(self)@.preference == old(self)@.preference,
            final(self)@.last_accepted == old(self)@.last_accepted,
            old(self)@.ready ==> final(self)@.last_height() >= old(self)@.last_height(),
            match r {
                Ok(_) => old(self)@.ready && contains_id(old(self)@.recs, *id) && ((rec_at(
                    old(self)@.recs,
                    *id,
                ).status == Status::Rejected && final(self)@.recs == old(self)@.recs) || (rec_at(
                    old(self)@.recs,
                    *id,
                ).status == Status::Processing && final(self)@.recs.len() == old(self)@.recs.len() && rec_at(final(self)@.recs, *id) == (RecordView {
                    id: rec_at(old(self)@.recs, *id).id,
                    block: rec_at(old(self)@.recs, *id).block,
                    status: Status::Rejected,
                }) && (forall|o: Id|
                    contains_id(old(self)@.recs, o) && o != *id ==> #[trigger] rec_at(
                        final(self)@.recs,
                        o,
                    ) == rec_at(old(self)@.recs, o)) && (forall|o: Id|
                    #[trigger] contains_id(final(self)@.recs, o) <==> contains_id(
                        old(self)@.recs,
                        o,
                    )))),
                Err(e) => final(self)@.recs == old(self)@.recs && ((e == VmError::InternalError
                    && !old(self)@.ready) || (e == VmError::NotFound && old(self)@.ready
                    && !contains_id(old(self)@.recs, *id)) || (e == VmError::ValidationError(
                    InvalidReason::AlreadyDecided,
                ) && old(self)@.ready && contains_id(old(self)@.recs, *id) && rec_at(
                    old(self)@.recs,
                    *id,
                ).status == Status::Accepted)),
            },
    {
        let status = match &self.state {
            None => {
                return Err(VmError::InternalError);
            },
            Some(st) => {
                match st.get_block(id) {
                    Err(_) => {
                        return Err(VmError::NotFound);
                    },
                    Ok(p) => p.1,
                }
            },
        };
        if status == Status::Rejected {
            return Ok(());
        }
        if status == Status::Accepted {
            return Err(VmError::ValidationError(InvalidReason::AlreadyDecided));
        }
        let ghost st1 = self.state->Some_0;
        let res: Result<(), VmError> = match &mut self.state {
            None => {
                proof {
                    assert(false);
                }
                Err(VmError::InternalError)
            },
            Some(st) => {
                match st.mark_rejected(id) {
                    Err(_) => {
                        proof {
                            assert(false);
                        }
                        Err(VmError::InternalError)
                    },
                    Ok(_) => Ok(()),
                }
            },
        };
        proof {
            let st2 = self.state->Some_0;
            let la = st1.last_accepted;
            assert(st1.spec_record(la).status == Status::Accepted);
            assert(la != *id);
            assert(st2.spec_record(la) == st1.spec_record(la));
            assert forall|o: Id| contains_id(old(self)@.recs, o) && o != *id implies #[trigger] rec_at(
                self@.recs,
                o,
            ) == rec_at(old(self)@.recs, o) by {
                assert(st1.spec_contains(o));
                assert(st2.spec_record(o) == st1.spec_record(o));
            }
            assert forall|o: Id| #[trigger] contains_id(self@.recs, o) <==> contains_id(
                old(self)@.recs,
                o,
            ) by {
                assert(st2.spec_contains(o) <==> st1.spec_contains(o));
            }
        }
        res
    }
}

} // verus!
