use vstd::prelude::*;

use crate::block::{block_eq, id_of, Block, BlockView, Status};
use crate::errors::{InvalidReason, VmError};
use crate::ids::Id;
use vstd::pervasive::VecAdditionalExecFns;

verus! {

/// One record of the state manager: a block, its identifier, and the
/// finality status the manager owns.
pub struct StoredBlock {
    pub id: Id,
    pub block: Block,
    pub status: Status,
}

/// Mathematical model of a [`StoredBlock`].
#[verifier::ext_equal]
pub ghost struct RecordView {
    pub id: Id,
    pub block: BlockView,
    pub status: Status,
}

impl View for StoredBlock {
    type V = RecordView;

    open spec fn view(&self) -> RecordView {
        RecordView { id: self.id, block: self.block@, status: self.status }
    }
}

/// Whether some record in `es` carries identifier `id`.
pub open spec fn contains_id(es: Seq<RecordView>, id: Id) -> bool {
    exists|i: int| 0 <= i < es.len() && es[i].id == id
}

/// The position of the record carrying `id`; meaningful when the
/// identifiers in `es` are unique and `id` is present.
pub open spec fn idx_of(es: Seq<RecordView>, id: Id) -> int {
    choose|i: int| 0 <= i < es.len() && es[i].id == id
}

/// The record carrying `id`.
pub open spec fn rec_at(es: Seq<RecordView>, id: Id) -> RecordView {
    es[idx_of(es, id)]
}

/// No two records carry the same identifier.
pub open spec fn unique_ids(es: Seq<RecordView>) -> bool {
    forall|i: int, j: int|
        0 <= i < es.len() && 0 <= j < es.len() && i != j ==> #[trigger] es[i].id != #[trigger] es[j].id
}

/// Structural consistency of one record against the records around it:
/// the identifier is the content identifier of the block; a non-genesis
/// block has its parent present, exactly one height below; a genesis block
/// extends the zero sentinel.
///
/// Kept opaque: unfolding it under the state invariant's quantifier would
/// walk parent chains without bound.
#[verifier::opaque]
pub open spec fn rec_linked(es: Seq<RecordView>, r: RecordView) -> bool {
    &&& r.id == id_of(r.block)
    &&& r.block.height > 0 ==> contains_id(es, r.block.parent_id) && rec_at(
        es,
        r.block.parent_id,
    ).block.height + 1 == r.block.height
    &&& r.block.height == 0 ==> r.block.parent_id == Id::spec_zero()
}

/// With unique identifiers, a position holding `id` is the position the
/// lookup functions pick.
pub proof fn lemma_idx(es: Seq<RecordView>, i: int, id: Id)
    requires
        unique_ids(es),
        0 <= i < es.len(),
        es[i].id == id,
    ensures
        contains_id(es, id),
        idx_of(es, id) == i,
        rec_at(es, id) == es[i],
{
    assert(contains_id(es, id));
    let j = idx_of(es, id);
    assert(0 <= j < es.len() && es[j].id == id);
    assert(j == i);
}

/// Appending a record with a fresh identifier keeps identifiers unique and
/// leaves every present record where the lookup functions find it.
pub proof fn lemma_push(es: Seq<RecordView>, r: RecordView)
    requires
        unique_ids(es),
        !contains_id(es, r.id),
    ensures
        unique_ids(es.push(r)),
        forall|id: Id|
            contains_id(es, id) ==> #[trigger] contains_id(es.push(r), id) && rec_at(es.push(r), id)
                == rec_at(es, id),
        contains_id(es.push(r), r.id),
        rec_at(es.push(r), r.id) == r,
        forall|id: Id| #[trigger] contains_id(es.push(r), id) ==> contains_id(es, id) || id == r.id,
{
    let es2 = es.push(r);
    assert forall|i: int, j: int|
        0 <= i < es2.len() && 0 <= j < es2.len() && i != j implies #[trigger] es2[i].id
        != #[trigger] es2[j].id by {
        if i < es.len() && j < es.len() {
        } else if i < es.len() {
            assert(es2[j] == r);
            assert(es2[i] == es[i]);
            assert(es[i].id != r.id) by {
                if es[i].id == r.id {
                    assert(contains_id(es, r.id));
                }
            }
        } else {
            assert(es2[i] == r);
            assert(es2[j] == es[j]);
            assert(es[j].id != r.id) by {
                if es[j].id == r.id {
                    assert(contains_id(es, r.id));
                }
            }
        }
    }
    assert forall|id: Id| contains_id(es, id) implies #[trigger] contains_id(es.push(r), id)
        && rec_at(es.push(r), id) == rec_at(es, id) by {
        let i = idx_of(es, id);
        assert(0 <= i < es.len() && es[i].id == id);
        assert(es2[i] == es[i]);
        lemma_idx(es2, i, id);
        lemma_idx(es, i, id);
    }
    lemma_idx(es2, es.len() as int, r.id);
    assert forall|id: Id| #[trigger] contains_id(es2, id) implies contains_id(es, id) || id
        == r.id by {
        let i = idx_of(es2, id);
        assert(0 <= i < es2.len() && es2[i].id == id);
        if i < es.len() {
            assert(es[i].id == id);
            assert(contains_id(es, id));
        } else {
            assert(es2[i] == r);
        }
    }
}

/// Replacing the record at one position by a record with the same
/// identifier keeps identifiers unique, keeps the same identifiers present,
/// and moves no other record.
pub proof fn lemma_update(es: Seq<RecordView>, k: int, r: RecordView)
    requires
        unique_ids(es),
        0 <= k < es.len(),
        r.id == es[k].id,
    ensures
        unique_ids(es.update(k, r)),
        forall|id: Id| #[trigger] contains_id(es.update(k, r), id) <==> contains_id(es, id),
        rec_at(es.update(k, r), r.id) == r,
        forall|id: Id|
            contains_id(es, id) && id != r.id ==> #[trigger] rec_at(es.update(k, r), id) == rec_at(
                es,
                id,
            ),
{
    let es2 = es.update(k, r);
    assert forall|i: int, j: int|
        0 <= i < es2.len() && 0 <= j < es2.len() && i != j implies #[trigger] es2[i].id
        != #[trigger] es2[j].id by {
        assert(es2[i].id == es[i].id);
        assert(es2[j].id == es[j].id);
    }
    assert forall|id: Id| #[trigger] contains_id(es2, id) <==> contains_id(es, id) by {
        if contains_id(es2, id) {
            let i = idx_of(es2, id);
            assert(0 <= i < es2.len() && es2[i].id == id);
            assert(es[i].id == id);
            assert(contains_id(es, id));
        }
        if contains_id(es, id) {
            let i = idx_of(es, id);
            assert(0 <= i < es.len() && es[i].id == id);
            assert(es2[i].id == id);
            assert(contains_id(es2, id));
        }
    }
    lemma_idx(es2, k, r.id);
    assert forall|id: Id| contains_id(es, id) && id != r.id implies #[trigger] rec_at(es2, id)
        == rec_at(es, id) by {
        let i = idx_of(es, id);
        assert(0 <= i < es.len() && es[i].id == id);
        assert(i != k);
        assert(es2[i] == es[i]);
        lemma_idx(es2, i, id);
        lemma_idx(es, i, id);
    }
}

/// Appending a consistently linked record with a fresh identifier keeps
/// every record consistently linked.
pub proof fn lemma_push_linked(es: Seq<RecordView>, r: RecordView)
    requires
        unique_ids(es),
        !contains_id(es, r.id),
        forall|i: int| 0 <= i < es.len() ==> rec_linked(es, #[trigger] es[i]),
        rec_linked(es, r),
    ensures
        forall|i: int|
            0 <= i < es.push(r).len() ==> rec_linked(es.push(r), #[trigger] es.push(r)[i]),
{
    lemma_push(es, r);
    let es2 = es.push(r);
    assert forall|i: int| 0 <= i < es2.len() implies rec_linked(es2, #[trigger] es2[i]) by {
        reveal(rec_linked);
        let x = es2[i];
        if i < es.len() {
            assert(x == es[i]);
            assert(rec_linked(es, x));
        } else {
            assert(x == r);
        }
        if x.block.height > 0 {
            assert(contains_id(es, x.block.parent_id));
            assert(contains_id(es2, x.block.parent_id) && rec_at(es2, x.block.parent_id) == rec_at(
                es,
                x.block.parent_id,
            ));
        }
    }
}

/// Durable mapping from block identifier to block and status, plus the
/// single last-accepted pointer; the source of truth for the chain.
///
/// Constructed from a genesis block, so the pointer always refers to an
/// existing accepted block.
pub struct State {
    pub entries: Vec<StoredBlock>,
    pub last_accepted: Id,
}

impl State {
    /// The stored records, in insertion order.
    pub open spec fn recs(self) -> Seq<RecordView> {
        self.entries@.map_values(|e: StoredBlock| e@)
    }

    pub open spec fn spec_contains(self, id: Id) -> bool {
        contains_id(self.recs(), id)
    }

    pub open spec fn spec_record(self, id: Id) -> RecordView {
        rec_at(self.recs(), id)
    }

    pub open spec fn spec_last_accepted(self) -> Id {
        self.last_accepted
    }

    /// Height of the block the last-accepted pointer refers to.
    pub open spec fn last_height(self) -> u64 {
        rec_at(self.recs(), self.last_accepted).block.height
    }

    /// Invariant: identifiers are unique and content-derived, every stored
    /// non-genesis block extends a stored parent exactly one height below,
    /// and the last-accepted pointer refers to a stored accepted block.
    pub open spec fn wf(self) -> bool {
        let es = self.recs();
        &&& unique_ids(es)
        &&& forall|i: int| 0 <= i < es.len() ==> rec_linked(es, #[trigger] es[i])
        &&& contains_id(es, self.last_accepted)
        &&& rec_at(es, self.last_accepted).status == Status::Accepted
    }

    /// Creates a state manager holding exactly the genesis block, already
    /// accepted, with the last-accepted pointer on it.
    pub fn new(genesis: Block) -> (r: State)
        requires
            genesis@.height == 0,
            genesis@.parent_id == Id::spec_zero(),
        ensures
            r.wf(),
            r.recs() =~= seq![
                (RecordView { id: id_of(genesis@), block: genesis@, status: Status::Accepted }),
            ],
            r.spec_last_accepted() == id_of(genesis@),
    {
        let id = genesis.id();
        let ghost gv = genesis@;
        let mut entries: Vec<StoredBlock> = Vec::new();
        entries.push(StoredBlock { id, block: genesis, status: Status::Accepted });
        let r = State { entries, last_accepted: id };
        proof {
            reveal(rec_linked);
            assert(r.recs() =~= seq![
                (RecordView { id: id_of(gv), block: gv, status: Status::Accepted }),
            ]);
            lemma_idx(r.recs(), 0, id);
            assert(rec_linked(r.recs(), r.recs()[0]));
        }
        r
    }

    /// Position of the record carrying `id`, if any.
    fn find_index(&self, id: &Id) -> (r: Option<usize>)
        ensures
            match r {
                Some(i) => i < self.recs().len() && self.recs()[i as int].id == *id,
                None => !self.spec_contains(*id),
            },
    {
        let mut i: usize = 0;
        while i < self.entries.len()
            invariant
                i <= self.entries@.len(),
                forall|j: int| 0 <= j < i ==> self.recs()[j].id != *id,
            decreases self.entries@.len() - i,
        {
            proof {
                assert(self.recs()[i as int] == self.entries@[i as int]@);
            }
            if self.entries[i].id == *id {
                return Some(i);
            }
            i += 1;
        }
        None
    }

    /// Looks a block up by identifier; `NotFound` exactly when absent.
    pub fn get_block(&self, id: &Id) -> (r: Result<(Block, Status), VmError>)
        requires
            self.wf(),
        ensures
            match r {
                Ok(p) => self.spec_contains(*id) && p.0@ == self.spec_record(*id).block && p.1
                    == self.spec_record(*id).status,
                Err(e) => e == VmError::NotFound && !self.spec_contains(*id),
            },
    {
        match self.find_index(id) {
            Some(i) => {
                proof {
                    lemma_idx(self.recs(), i as int, *id);
                    assert(self.recs()[i as int] == self.entries@[i as int]@);
                }
                let e = &self.entries[i];
                Ok((e.block.clone(), e.status))
            },
            None => Err(VmError::NotFound),
        }
    }

    /// The identifier the last-accepted pointer holds.
    pub fn get_last_accepted_block_id(&self) -> (r: Id)
        ensures
            r == self.spec_last_accepted(),
    {
        self.last_accepted
    }

    /// Idempotent upsert: stores the block as `Processing` if its identifier
    /// is new; accepts a byte-identical duplicate as a no-op; fails loudly
    /// when a different block already carries the same identifier.
    #[verifier::rlimit(100)]
    pub fn put_block(&mut self, block: Block) -> (r: Result<(), VmError>)
        requires
            old(self).wf(),
            block@.height == 0 ==> block@.parent_id == Id::spec_zero(),
            block@.height > 0 ==> old(self).spec_contains(block@.parent_id) && old(self).spec_record(block@.parent_id).block.height + 1 == block@.height,
        ensures
            final(self).wf(),
            final(self).spec_last_accepted() == old(self).spec_last_accepted(),
            match r {
                Ok(_) => if old(self).spec_contains(id_of(block@)) {
                    final(self).recs() == old(self).recs() && old(self).spec_record(
                        id_of(block@),
                    ).block == block@
                } else {
                    final(self).recs() == old(self).recs().push(
                        (RecordView {
                            id: id_of(block@),
                            block: block@,
                            status: Status::Processing,
                        }),
                    )
                },
                Err(e) => e == VmError::ValidationError(InvalidReason::ConflictingBlock) && final(self).recs() == old(self).recs() && old(self).spec_contains(id_of(block@)) && old(self).spec_record(id_of(block@)).block != block@,
            },
    {
        let id = block.id();
        let ghost bv = block@;
        match self.find_index(&id) {
            Some(i) => {
                proof {
                    lemma_idx(self.recs(), i as int, id);
                    assert(self.recs()[i as int] == self.entries@[i as int]@);
                }
                if block_eq(&self.entries[i].block, &block) {
                    Ok(())
                } else {
                    Err(VmError::ValidationError(InvalidReason::ConflictingBlock))
                }
            },
            None => {
                let ghost es = self.recs();
                let ghost r = (RecordView { id, block: bv, status: Status::Processing });
                self.entries.push(StoredBlock { id, block, status: Status::Processing });
                proof {
                    assert(self.recs() =~= es.push(r));
                    lemma_push(es, r);
                    assert(rec_linked(es, r)) by {
                        reveal(rec_linked);
                    }
                    lemma_push_linked(es, r);
                    assert(contains_id(es, old(self).last_accepted));
                }
                Ok(())
            },
        }
    }

    /// Moves the record carrying `id` to the terminal status `target`.
    /// Succeeds exactly when the record is present and either still
    /// `Processing` or already at `target` (a no-op); never silently
    /// changes a terminal status.
    fn set_status(&mut self, id: &Id, target: Status) -> (r: Result<(), VmError>)
        requires
            old(self).wf(),
            target != Status::Processing,
        ensures
            final(self).wf(),
            final(self).spec_last_accepted() == old(self).spec_last_accepted(),
            final(self).recs().len() == old(self).recs().len(),
            forall|other: Id|
                #[trigger] final(self).spec_contains(other) <==> old(self).spec_contains(other),
            match r {
                Ok(_) => old(self).spec_contains(*id) && (old(self).spec_record(*id).status
                    == Status::Processing || old(self).spec_record(*id).status == target) && final(self).spec_record(*id) == (RecordView {
                    id: old(self).spec_record(*id).id,
                    block: old(self).spec_record(*id).block,
                    status: target,
                }) && forall|other: Id|
                    old(self).spec_contains(other) && other != *id ==> #[trigger] final(self).spec_record(other) == old(self).spec_record(other),
                Err(e) => final(self).recs() == old(self).recs() && ((e == VmError::NotFound && !old(self).spec_contains(*id)) || (e == VmError::ValidationError(InvalidReason::AlreadyDecided)
                    && old(self).spec_contains(*id) && old(self).spec_record(*id).status
                    != Status::Processing && old(self).spec_record(*id).status != target)),
            },
    {
        match self.find_index(id) {
            None => Err(VmError::NotFound),
            Some(i) => {
                proof {
                    lemma_idx(self.recs(), i as int, *id);
                    assert(self.recs()[i as int] == self.entries@[i as int]@);
                }
                let cur = self.entries[i].status;
                if cur == target {
                    Ok(())
                } else if cur == Status::Processing {
                    let ghost es = self.recs();
                    let b = self.entries[i].block.clone();
                    let sid = self.entries[i].id;
                    let ghost r = (RecordView { id: sid, block: b@, status: target });
                    self.entries.set(i, StoredBlock { id: sid, block: b, status: target });
                    proof {
                        assert(self.recs() =~= es.update(i as int, r));
                        lemma_update(es, i as int, r);
                        let es2 = self.recs();
                        assert forall|k: int| 0 <= k < es2.len() implies rec_linked(
                            es2,
                            #[trigger] es2[k],
                        ) by {
                            reveal(rec_linked);
                            assert(rec_linked(es, es[k]));
                            assert(es2[k].id == es[k].id && es2[k].block == es[k].block);
                            if es[k].block.height > 0 {
                                let pid = es[k].block.parent_id;
                                assert(contains_id(es, pid));
                                assert(contains_id(es2, pid));
                                if pid == *id {
                                    assert(rec_at(es2, pid) == r);
                                    assert(rec_at(es, pid) == es[idx_of(es, pid)]);
                                    lemma_idx(es, i as int, *id);
                                    assert(rec_at(es, pid).block == r.block);
                                } else {
                                    assert(rec_at(es2, pid) == rec_at(es, pid));
                                }
                            }
                        }
                        // the last-accepted record was accepted, hence not the
                        // record just moved out of `Processing`
                        let la = old(self).last_accepted;
                        assert(contains_id(es2, la));
                        assert(rec_at(es, la).status == Status::Accepted);
                        if la == *id {
                            lemma_idx(es, i as int, *id);
                            assert(rec_at(es, la).status == Status::Processing);
                            assert(false);
                        } else {
                            assert(rec_at(es2, la) == rec_at(es, la));
                        }
                    }
                    Ok(())
                } else {
                    Err(VmError::ValidationError(InvalidReason::AlreadyDecided))
                }
            },
        }
    }

    /// Marks a `Processing` block `Accepted`; re-invoking on an accepted
    /// block is a no-op, on a rejected one a loud failure.
    pub fn mark_accepted(&mut self, id: &Id) -> (r: Result<(), VmError>)
        requires
            old(self).wf(),
        ensures
            final(self).wf(),
            final(self).spec_last_accepted() == old(self).spec_last_accepted(),
            final(self).recs().len() == old(self).recs().len(),
            forall|other: Id|
                #[trigger] final(self).spec_contains(other) <==> old(self).spec_contains(other),
            match r {
                Ok(_) => old(self).spec_contains(*id) && (old(self).spec_record(*id).status
                    == Status::Processing || old(self).spec_record(*id).status == Status::Accepted)
                    && final(self).spec_record(*id) == (RecordView {
                    id: old(self).spec_record(*id).id,
                    block: old(self).spec_record(*id).block,
                    status: Status::Accepted,
                }) && forall|other: Id|
                    old(self).spec_contains(other) && other != *id ==> #[trigger] final(self).spec_record(other) == old(self).spec_record(other),
                Err(e) => final(self).recs() == old(self).recs() && ((e == VmError::NotFound && !old(self).spec_contains(*id)) || (e == VmError::ValidationError(InvalidReason::AlreadyDecided)
                    && old(self).spec_contains(*id) && old(self).spec_record(*id).status
                    == Status::Rejected)),
            },
    {
        self.set_status(id, Status::Accepted)
    }

    /// Marks a `Processing` block `Rejected`; re-invoking on a rejected
    /// block is a no-op, on an accepted one a loud failure.
    pub fn mark_rejected(&mut self, id: &Id) -> (r: Result<(), VmError>)
        requires
            old(self).wf(),
        ensures
            final(self).wf(),
            final(self).spec_last_accepted() == old(self).spec_last_accepted(),
            final(self).recs().len() == old(self).recs().len(),
            forall|other: Id|
                #[trigger] final(self).spec_contains(other) <==> old(self).spec_contains(other),
            match r {
                Ok(_) => old(self).spec_contains(*id) && (old(self).spec_record(*id).status
                    == Status::Processing || old(self).spec_record(*id).status == Status::Rejected)
                    && final(self).spec_record(*id) == (RecordView {
                    id: old(self).spec_record(*id).id,
                    block: old(self).spec_record(*id).block,
                    status: Status::Rejected,
                }) && forall|other: Id|
                    old(self).spec_contains(other) && other != *id ==> #[trigger] final(self).spec_record(other) == old(self).spec_record(other),
                Err(e) => final(self).recs() == old(self).recs() && ((e == VmError::NotFound && !old(self).spec_contains(*id)) || (e == VmError::ValidationError(InvalidReason::AlreadyDecided)
                    && old(self).spec_contains(*id) && old(self).spec_record(*id).status
                    == Status::Accepted)),
            },
    {
        self.set_status(id, Status::Rejected)
    }

    /// Moves the last-accepted pointer to `id`. Succeeds exactly when `id`
    /// refers to a stored accepted block at or above the current
    /// last-accepted height, so the pointer never moves backward.
    pub fn set_last_accepted(&mut self, id: &Id) -> (r: Result<(), VmError>)
        requires
            old(self).wf(),
        ensures
            final(self).wf(),
            final(self).recs() == old(self).recs(),
            match r {
                Ok(_) => old(self).spec_contains(*id) && old(self).spec_record(*id).status
                    == Status::Accepted && old(self).spec_record(*id).block.height >= old(self).last_height() && final(self).spec_last_accepted() == *id,
                Err(e) => final(self).spec_last_accepted() == old(self).spec_last_accepted() && ((e
                    == VmError::NotFound && !old(self).spec_contains(*id)) || (e
                    == VmError::ValidationError(InvalidReason::NotAccepted) && old(self).spec_contains(*id) && old(self).spec_record(*id).status != Status::Accepted) || (e
                    == VmError::ValidationError(InvalidReason::BehindLastAccepted) && old(self).spec_contains(*id) && old(self).spec_record(*id).status == Status::Accepted && old(self).spec_record(*id).block.height < old(self).last_height())),
            },
    {
        match self.find_index(id) {
            None => Err(VmError::NotFound),
            Some(i) => {
                proof {
                    lemma_idx(self.recs(), i as int, *id);
                    assert(self.recs()[i as int] == self.entries@[i as int]@);
                }
                if !(self.entries[i].status == Status::Accepted) {
                    return Err(VmError::ValidationError(InvalidReason::NotAccepted));
                }
                let la = self.last_accepted;
                match self.find_index(&la) {
                    None => {
                        proof {
                            assert(false);
                        }
                        Err(VmError::InternalError)
                    },
                    Some(k) => {
                        proof {
                            lemma_idx(self.recs(), k as int, la);
                            assert(self.recs()[k as int] == self.entries@[k as int]@);
                        }
                        if self.entries[i].block.height < self.entries[k].block.height {
                            return Err(
                                VmError::ValidationError(InvalidReason::BehindLastAccepted),
                            );
                        }
                        self.last_accepted = *id;
                        Ok(())
                    },
                }
            },
        }
    }
}

/// Monotonic height, one step: every stored non-genesis block has its
/// parent stored exactly one height below, so along any stored chain the
/// height increases by exactly one per step up from genesis.
pub proof fn lemma_chain_step(s: State, id: Id)
    requires
        s.wf(),
        s.spec_contains(id),
        s.spec_record(id).block.height > 0,
    ensures
        s.spec_contains(s.spec_record(id).block.parent_id),
        s.spec_record(s.spec_record(id).block.parent_id).block.height + 1 == s.spec_record(
            id,
        ).block.height,
{
    reveal(rec_linked);
    let es = s.recs();
    let i = idx_of(es, id);
    assert(0 <= i < es.len() && es[i].id == id);
    assert(rec_linked(es, es[i]));
}

/// `chain` is the ancestor line of the record carrying `id`: it ends at
/// that record, every link is stored, the record at position `k` sits at
/// height `k`, and each one extends the one before it.
pub open spec fn is_chain_to(s: State, chain: Seq<RecordView>, id: Id) -> bool {
    &&& chain.len() > 0
    &&& chain.last() == s.spec_record(id)
    &&& forall|k: int| 0 <= k < chain.len() ==> (#[trigger] chain[k]).block.height == k
    &&& forall|k: int| 0 <= k < chain.len() ==> s.recs().contains(#[trigger] chain[k])
    &&& forall|k: int| 1 <= k < chain.len() ==> (#[trigger] chain[k]).block.parent_id == chain[
        k - 1
    ].id
}

/// Monotonic height, whole chains: every stored block stands on an
/// ancestor line that starts at a genesis block and climbs by exactly one
/// height per step — a block at height `h` has an ancestor line of length
/// `h + 1`.
#[verifier::rlimit(100)]
pub proof fn lemma_chain_from_genesis(s: State, id: Id) -> (chain: Seq<RecordView>)
    requires
        s.wf(),
        s.spec_contains(id),
    ensures
        is_chain_to(s, chain, id),
        chain.len() == s.spec_record(id).block.height + 1,
    decreases s.spec_record(id).block.height,
{
    let es = s.recs();
    let i = idx_of(es, id);
    assert(0 <= i < es.len() && es[i].id == id);
    let r = s.spec_record(id);
    assert(r.id == id);
    if r.block.height == 0 {
        let chain = seq![r];
        assert(chain.last() == r);
        assert(chain[0] == r);
        assert(es.contains(r)) by {
            assert(es[i] == r);
        }
        chain
    } else {
        lemma_chain_step(s, id);
        let pid = r.block.parent_id;
        let sub = lemma_chain_from_genesis(s, pid);
        let chain = sub.push(r);
        assert(sub.last() == s.spec_record(pid));
        assert(s.spec_record(pid).id == pid) by {
            let j = idx_of(es, pid);
            assert(0 <= j < es.len() && es[j].id == pid);
        }
        assert(chain.last() == r);
        assert(es.contains(r)) by {
            assert(es[i] == r);
        }
        assert forall|k: int| 0 <= k < chain.len() implies (#[trigger] chain[k]).block.height
            == k by {
            if k < sub.len() {
                assert(chain[k] == sub[k]);
            } else {
                assert(chain[k] == r);
            }
        }
        assert forall|k: int| 0 <= k < chain.len() implies s.recs().contains(
            #[trigger] chain[k],
        ) by {
            if k < sub.len() {
                assert(chain[k] == sub[k]);
            } else {
                assert(chain[k] == r);
            }
        }
        assert forall|k: int| 1 <= k < chain.len() implies (#[trigger] chain[k]).block.parent_id
            == chain[k - 1].id by {
            if k < sub.len() {
                assert(chain[k] == sub[k]);
            } else {
                assert(chain[k] == r);
                assert(chain[k - 1] == sub.last());
            }
        }
        chain
    }
}

} // verus!
