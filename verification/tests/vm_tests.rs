use timestampvm::api::{GetBlockArgs, ProposeBlockArgs, Service};
use timestampvm::block::{Block, Status};
use timestampvm::errors::{InvalidReason, VmError};
use timestampvm::ids::Id;
use timestampvm::state::State;
use timestampvm::vm::Vm;

fn ready_vm() -> (Vm, Id) {
    let mut vm = Vm::new();
    let gid = vm.initialize(b"genesis".to_vec(), 100).unwrap();
    (vm, gid)
}

#[test]
fn submit_build_accept_scenario() {
    let (mut vm, gid) = ready_vm();
    vm.propose_block(b"a".to_vec()).unwrap();
    let b = vm.build_block(200).unwrap();
    assert_eq!(b.height, 1);
    assert_eq!(b.payload, b"a".to_vec());
    assert_eq!(b.parent_id, gid);
    assert!(matches!(vm.build_block(200), Err(VmError::NoContentAvailable)));
    let bid = b.id();
    vm.accept(&bid).unwrap();
    assert_eq!(vm.last_accepted().unwrap(), bid);
    let (stored, status) = vm.get_block(&bid).unwrap();
    assert_eq!(status, Status::Accepted);
    assert_eq!(stored.payload, b"a".to_vec());
    assert_eq!(stored.height, 1);
}

#[test]
fn verify_rejects_wrong_height_and_block_is_not_stored() {
    let (mut vm, gid) = ready_vm();
    let wrong = Block::new(gid, 5, 200, b"x".to_vec());
    assert!(matches!(
        vm.verify(&wrong, 200),
        Err(VmError::ValidationError(InvalidReason::WrongHeight))
    ));
    let bytes = wrong.serialize();
    assert!(matches!(
        vm.parse_block(&bytes, 200),
        Err(VmError::ValidationError(InvalidReason::WrongHeight))
    ));
    let wid = wrong.id();
    assert!(matches!(vm.get_block(&wid), Err(VmError::NotFound)));
}

#[test]
fn verify_reports_first_failing_check() {
    let (vm, gid) = ready_vm();
    let unknown_parent = Id { w0: 1, w1: 1, w2: 1, w3: 1 };
    let orphan = Block::new(unknown_parent, 1, 200, b"x".to_vec());
    assert!(matches!(
        vm.verify(&orphan, 200),
        Err(VmError::ValidationError(InvalidReason::MissingParent))
    ));
    let behind = Block::new(gid, 1, 50, b"x".to_vec());
    assert!(matches!(
        vm.verify(&behind, 200),
        Err(VmError::ValidationError(InvalidReason::TimestampBehindParent))
    ));
    let ahead = Block::new(gid, 1, 200 + 3601, b"x".to_vec());
    assert!(matches!(
        vm.verify(&ahead, 200),
        Err(VmError::ValidationError(InvalidReason::TimestampTooFarAhead))
    ));
    let fine = Block::new(gid, 1, 200, b"x".to_vec());
    assert!(vm.verify(&fine, 200).is_ok());
    // exactly at the drift bound is still acceptable
    let at_bound = Block::new(gid, 1, 200 + 3600, b"x".to_vec());
    assert!(vm.verify(&at_bound, 200).is_ok());
}

#[test]
fn parse_block_stores_valid_peer_block() {
    let (mut vm, gid) = ready_vm();
    let peer = Block::new(gid, 1, 150, b"from a peer".to_vec());
    let bytes = peer.serialize();
    let parsed = vm.parse_block(&bytes, 200).unwrap();
    assert_eq!(parsed.id(), peer.id());
    let (stored, status) = vm.get_block(&peer.id()).unwrap();
    assert_eq!(status, Status::Processing);
    assert_eq!(stored.payload, b"from a peer".to_vec());
}

#[test]
fn parse_block_rejects_malformed_bytes() {
    let (mut vm, _gid) = ready_vm();
    let garbage = vec![1u8, 2u8, 3u8];
    assert!(matches!(vm.parse_block(&garbage, 200), Err(VmError::DecodeError)));
}

#[test]
fn terminal_status_never_silently_changes() {
    let (mut vm, _gid) = ready_vm();
    vm.propose_block(b"a".to_vec()).unwrap();
    let b = vm.build_block(200).unwrap();
    let bid = b.id();
    vm.accept(&bid).unwrap();
    // re-accepting is a no-op
    vm.accept(&bid).unwrap();
    assert_eq!(vm.get_block(&bid).unwrap().1, Status::Accepted);
    // rejecting an accepted block fails loudly and changes nothing
    assert!(matches!(
        vm.reject(&bid),
        Err(VmError::ValidationError(InvalidReason::AlreadyDecided))
    ));
    assert_eq!(vm.get_block(&bid).unwrap().1, Status::Accepted);
}

#[test]
fn rejected_block_stays_rejected() {
    let (mut vm, _gid) = ready_vm();
    vm.propose_block(b"a".to_vec()).unwrap();
    let b = vm.build_block(200).unwrap();
    let bid = b.id();
    vm.reject(&bid).unwrap();
    assert_eq!(vm.get_block(&bid).unwrap().1, Status::Rejected);
    // re-rejecting is a no-op
    vm.reject(&bid).unwrap();
    assert!(matches!(
        vm.accept(&bid),
        Err(VmError::ValidationError(InvalidReason::AlreadyDecided))
    ));
    assert_eq!(vm.get_block(&bid).unwrap().1, Status::Rejected);
}

#[test]
fn last_accepted_height_never_decreases() {
    let (mut vm, gid) = ready_vm();
    vm.propose_block(b"a".to_vec()).unwrap();
    let b1 = vm.build_block(200).unwrap();
    let b1id = b1.id();
    vm.accept(&b1id).unwrap();
    assert_eq!(vm.get_block(&vm.last_accepted().unwrap()).unwrap().0.height, 1);
    vm.set_preference(&b1id).unwrap();
    vm.propose_block(b"b".to_vec()).unwrap();
    let b2 = vm.build_block(300).unwrap();
    assert_eq!(b2.height, 2);
    let b2id = b2.id();
    vm.accept(&b2id).unwrap();
    assert_eq!(vm.get_block(&vm.last_accepted().unwrap()).unwrap().0.height, 2);
    // a processing sibling at a lower height cannot be accepted
    let sibling = Block::new(gid, 1, 150, b"s".to_vec());
    let sid = vm.parse_block(&sibling.serialize(), 300).unwrap().id();
    assert!(matches!(
        vm.accept(&sid),
        Err(VmError::ValidationError(InvalidReason::BehindLastAccepted))
    ));
    assert_eq!(vm.last_accepted().unwrap(), b2id);
    assert_eq!(vm.get_block(&vm.last_accepted().unwrap()).unwrap().0.height, 2);
}

#[test]
fn queue_is_fifo_and_conserves_payloads() {
    let (mut vm, _gid) = ready_vm();
    vm.propose_block(b"x".to_vec()).unwrap();
    vm.propose_block(b"y".to_vec()).unwrap();
    let bx = vm.build_block(200).unwrap();
    assert_eq!(bx.payload, b"x".to_vec());
    // the second payload is still pending, in exactly one place
    let by = vm.build_block(200).unwrap();
    assert_eq!(by.payload, b"y".to_vec());
    assert!(matches!(vm.build_block(200), Err(VmError::NoContentAvailable)));
    assert_eq!(vm.get_block(&bx.id()).unwrap().0.payload, b"x".to_vec());
    assert_eq!(vm.get_block(&by.id()).unwrap().0.payload, b"y".to_vec());
}

#[test]
fn queue_full_signals_backpressure() {
    let mut vm = Vm::with_config(1, 100, 10);
    vm.initialize(b"g".to_vec(), 0).unwrap();
    vm.propose_block(b"a".to_vec()).unwrap();
    assert!(matches!(vm.propose_block(b"b".to_vec()), Err(VmError::QueueFull)));
}

#[test]
fn oversize_payload_passes_submit_and_fails_verify() {
    let mut vm = Vm::with_config(10, 2, 10);
    vm.initialize(b"g".to_vec(), 0).unwrap();
    // submission acknowledges any payload; the size bound is a structural
    // check of verify
    vm.propose_block(b"abc".to_vec()).unwrap();
    let b = vm.build_block(5).unwrap();
    assert_eq!(b.payload, b"abc".to_vec());
    assert!(matches!(
        vm.verify(&b, 5),
        Err(VmError::ValidationError(InvalidReason::OversizePayload))
    ));
    vm.propose_block(b"ab".to_vec()).unwrap();
    let ok = vm.build_block(5).unwrap();
    assert!(vm.verify(&ok, 5).is_ok());
}

#[test]
fn build_keeps_timestamps_monotonic() {
    let (mut vm, _gid) = ready_vm();
    vm.propose_block(b"a".to_vec()).unwrap();
    // observation time behind the parent: the parent's timestamp wins
    let b = vm.build_block(50).unwrap();
    assert_eq!(b.timestamp, 100);
    vm.set_preference(&b.id()).unwrap();
    vm.propose_block(b"b".to_vec()).unwrap();
    let c = vm.build_block(300).unwrap();
    assert_eq!(c.timestamp, 300);
}

#[test]
fn operations_fail_before_initialization() {
    let mut vm = Vm::new();
    assert!(matches!(vm.propose_block(b"a".to_vec()), Err(VmError::InternalError)));
    assert!(matches!(vm.build_block(0), Err(VmError::InternalError)));
    assert!(matches!(vm.last_accepted(), Err(VmError::InternalError)));
    let id = Id::zero();
    assert!(matches!(vm.get_block(&id), Err(VmError::InternalError)));
    assert!(matches!(vm.accept(&id), Err(VmError::InternalError)));
    assert!(matches!(vm.reject(&id), Err(VmError::InternalError)));
    assert!(matches!(vm.set_preference(&id), Err(VmError::InternalError)));
}

#[test]
fn initialize_twice_fails() {
    let (mut vm, _gid) = ready_vm();
    assert!(matches!(vm.initialize(b"again".to_vec(), 0), Err(VmError::InternalError)));
}

#[test]
fn set_preference_requires_known_block() {
    let (mut vm, gid) = ready_vm();
    let unknown = Id { w0: 5, w1: 5, w2: 5, w3: 5 };
    assert!(matches!(vm.set_preference(&unknown), Err(VmError::NotFound)));
    vm.set_preference(&gid).unwrap();
}

#[test]
fn state_refuses_pointer_to_unaccepted_block() {
    let genesis = Block::new(Id::zero(), 0, 0, b"g".to_vec());
    let gid = genesis.id();
    let mut st = State::new(genesis);
    let child = Block::new(gid, 1, 5, b"c".to_vec());
    let cid = child.id();
    st.put_block(child).unwrap();
    assert!(matches!(
        st.set_last_accepted(&cid),
        Err(VmError::ValidationError(InvalidReason::NotAccepted))
    ));
    st.mark_accepted(&cid).unwrap();
    st.set_last_accepted(&cid).unwrap();
    assert_eq!(st.get_last_accepted_block_id(), cid);
}

#[test]
fn service_translates_external_calls() {
    let mut svc = Service::new(Vm::new());
    assert!(svc.ping().success);
    // uninitialized: every stateful operation surfaces an internal error
    assert!(matches!(
        svc.propose_block(ProposeBlockArgs { data: b"a".to_vec() }),
        Err(VmError::InternalError)
    ));
    assert!(matches!(svc.last_accepted(), Err(VmError::InternalError)));
    let gid = svc.vm.initialize(b"genesis".to_vec(), 100).unwrap();
    let resp = svc.propose_block(ProposeBlockArgs { data: b"a".to_vec() }).unwrap();
    assert!(resp.success);
    assert_eq!(svc.last_accepted().unwrap().id, gid);
    let b = svc.vm.build_block(200).unwrap();
    let got = svc.get_block(GetBlockArgs { id: b.id() }).unwrap();
    assert_eq!(got.status, Status::Processing);
    assert_eq!(got.block.payload, b"a".to_vec());
    let missing = Id { w0: 2, w1: 2, w2: 2, w3: 2 };
    assert!(matches!(svc.get_block(GetBlockArgs { id: missing }), Err(VmError::NotFound)));
}
