use vstd::prelude::*;

use crate::ids::Id;

verus! {

/// Finality status of a stored block. Owned and mutated only by the state
/// manager; a block is `Processing` from the moment it is first stored and
/// moves exactly once to a terminal status.
#[derive(Clone, Copy, Debug, PartialEq, Eq, Structural)]
pub enum Status {
    Processing,
    Accepted,
    Rejected,
}

/// One chain entry: an immutable value extending `parent_id` with an opaque
/// payload. The content identifier is computed, not stored: see [`Block::id`].
#[derive(Debug)]
pub struct Block {
    pub parent_id: Id,
    pub height: u64,
    pub timestamp: u64,
    pub payload: Vec<u8>,
}

/// Mathematical model of a [`Block`]: the same fields with the payload as a
/// byte sequence.
#[verifier::ext_equal]
pub ghost struct BlockView {
    pub parent_id: Id,
    pub height: u64,
    pub timestamp: u64,
    pub payload: Seq<u8>,
}

impl View for Block {
    type V = BlockView;

    open spec fn view(&self) -> BlockView {
        BlockView {
            parent_id: self.parent_id,
            height: self.height,
            timestamp: self.timestamp,
            payload: self.payload@,
        }
    }
}

impl Clone for Block {
    fn clone(&self) -> (r: Self)
        ensures
            r@ == self@,
    {
        Block {
            parent_id: self.parent_id,
            height: self.height,
            timestamp: self.timestamp,
            payload: clone_bytes(&self.payload),
        }
    }
}

/// Length of the fixed part of the encoding: a 32-byte parent identifier,
/// an 8-byte height and an 8-byte timestamp; the payload is the remainder.
pub const HEADER_LEN: usize = 48;

/// Multiplier of the 64-bit Fowler-Noll-Vo hash.
pub const FNV_PRIME: u64 = 0x100000001b3;

/// Offset bases for the four identifier words; the first is the standard
/// 64-bit Fowler-Noll-Vo basis, the others are fixed variants of it.
pub const FNV_BASIS0: u64 = 0xcbf29ce484222325;

pub const FNV_BASIS1: u64 = 0xcbf29ce484222326;

pub const FNV_BASIS2: u64 = 0xcbf29ce484222327;

pub const FNV_BASIS3: u64 = 0xcbf29ce484222328;

/// One step of the Fowler-Noll-Vo hash: fold a byte into the accumulator.
pub open spec fn fnv_mix(acc: u64, byte: u8) -> u64 {
    (acc ^ (byte as u64)).wrapping_mul(FNV_PRIME)
}

/// The Fowler-Noll-Vo hash of a byte sequence, folded left to right.
pub open spec fn fnv1a(acc: u64, s: Seq<u8>) -> u64
    decreases s.len(),
{
    if s.len() <= 0 {
        acc
    } else {
        fnv1a(fnv_mix(acc, s[0]), s.drop_first())
    }
}

/// The big-endian bytes of a 64-bit word.
pub open spec fn spec_word_bytes(w: u64) -> Seq<u8> {
    seq![
        (w >> 56) as u8,
        (w >> 48) as u8,
        (w >> 40) as u8,
        (w >> 32) as u8,
        (w >> 24) as u8,
        (w >> 16) as u8,
        (w >> 8) as u8,
        w as u8,
    ]
}

/// The 64-bit word read big-endian from eight bytes.
pub open spec fn spec_word_of(s: Seq<u8>) -> u64
    recommends
        s.len() == 8,
{
    (((s[0] as u64) << 56) | ((s[1] as u64) << 48) | ((s[2] as u64) << 40) | ((s[3] as u64) << 32)
        | ((s[4] as u64) << 24) | ((s[5] as u64) << 16) | ((s[6] as u64) << 8) | (s[7] as u64))
}

/// The 32-byte encoding of an identifier: its four words, big-endian.
pub open spec fn spec_id_bytes(id: Id) -> Seq<u8> {
    spec_word_bytes(id.w0) + spec_word_bytes(id.w1) + spec_word_bytes(id.w2) + spec_word_bytes(
        id.w3,
    )
}

/// The fixed-width prefix of a block's encoding.
pub open spec fn spec_header(b: BlockView) -> Seq<u8> {
    spec_id_bytes(b.parent_id) + spec_word_bytes(b.height) + spec_word_bytes(b.timestamp)
}

/// The canonical encoding of a block: header, then the raw payload.
pub open spec fn spec_serialize(b: BlockView) -> Seq<u8> {
    spec_header(b) + b.payload
}

/// The decoding of raw bytes: `None` exactly on inputs shorter than the
/// fixed header, otherwise the unique block the bytes encode.
pub open spec fn spec_deserialize(s: Seq<u8>) -> Option<BlockView> {
    if s.len() < HEADER_LEN {
        None
    } else {
        Some(
            BlockView {
                parent_id: Id {
                    w0: spec_word_of(s.subrange(0, 8)),
                    w1: spec_word_of(s.subrange(8, 16)),
                    w2: spec_word_of(s.subrange(16, 24)),
                    w3: spec_word_of(s.subrange(24, 32)),
                },
                height: spec_word_of(s.subrange(32, 40)),
                timestamp: spec_word_of(s.subrange(40, 48)),
                payload: s.subrange(48, s.len() as int),
            },
        )
    }
}

/// The deterministic content identifier of a block: four Fowler-Noll-Vo
/// hashes of its canonical encoding, one per word. A pure function of
/// (`parent_id`, `height`, `timestamp`, `payload`).
pub open spec fn id_of(b: BlockView) -> Id {
    let s = spec_serialize(b);
    Id {
        w0: fnv1a(FNV_BASIS0, s),
        w1: fnv1a(FNV_BASIS1, s),
        w2: fnv1a(FNV_BASIS2, s),
        w3: fnv1a(FNV_BASIS3, s),
    }
}

/// Copies a byte vector; the copy holds the same sequence.
pub fn clone_bytes(v: &Vec<u8>) -> (r: Vec<u8>)
    ensures
        r@ == v@,
{
    let mut r: Vec<u8> = Vec::new();
    let mut i: usize = 0;
    while i < v.len()
        invariant
            i <= v@.len(),
            r@ == v@.subrange(0, i as int),
        decreases v@.len() - i,
    {
        r.push(v[i]);
        proof {
            assert(r@ =~= v@.subrange(0, i as int + 1));
        }
        i += 1;
    }
    proof {
        assert(r@ =~= v@);
    }
    r
}

/// Appends the big-endian bytes of `w`.
fn push_word(out: &mut Vec<u8>, w: u64)
    ensures
        final(out)@ == old(out)@ + spec_word_bytes(w),
{
    out.push(#[verifier::truncate] ((w >> 56) as u8));
    out.push(#[verifier::truncate] ((w >> 48) as u8));
    out.push(#[verifier::truncate] ((w >> 40) as u8));
    out.push(#[verifier::truncate] ((w >> 32) as u8));
    out.push(#[verifier::truncate] ((w >> 24) as u8));
    out.push(#[verifier::truncate] ((w >> 16) as u8));
    out.push(#[verifier::truncate] ((w >> 8) as u8));
    out.push(#[verifier::truncate] (w as u8));
    proof {
        assert(out@ =~= old(out)@ + spec_word_bytes(w));
    }
}

/// Reads the big-endian word at `off`.
fn read_word(bytes: &Vec<u8>, off: usize) -> (r: u64)
    requires
        off + 8 <= bytes@.len(),
    ensures
        r == spec_word_of(bytes@.subrange(off as int, off as int + 8)),
{
    let n = bytes.len();
    proof {
        assert(off + 8 <= n);
    }
    let b0 = bytes[off];
    let b1 = bytes[off + 1];
    let b2 = bytes[off + 2];
    let b3 = bytes[off + 3];
    let b4 = bytes[off + 4];
    let b5 = bytes[off + 5];
    let b6 = bytes[off + 6];
    let b7 = bytes[off + 7];
    proof {
        let s = bytes@.subrange(off as int, off as int + 8);
        assert(s[0] == b0 && s[1] == b1 && s[2] == b2 && s[3] == b3 && s[4] == b4 && s[5] == b5
            && s[6] == b6 && s[7] == b7);
    }
    (((b0 as u64) << 56) | ((b1 as u64) << 48) | ((b2 as u64) << 40) | ((b3 as u64) << 32) | (
    (b4 as u64) << 24) | ((b5 as u64) << 16) | ((b6 as u64) << 8) | (b7 as u64))
}

/// The Fowler-Noll-Vo hash of `bytes`, starting from `seed`.
fn fnv_hash(seed: u64, bytes: &Vec<u8>) -> (r: u64)
    ensures
        r == fnv1a(seed, bytes@),
{
    let mut acc = seed;
    let mut i: usize = 0;
    proof {
        assert(bytes@.skip(0) =~= bytes@);
    }
    while i < bytes.len()
        invariant
            i <= bytes@.len(),
            fnv1a(seed, bytes@) == fnv1a(acc, bytes@.skip(i as int)),
        decreases bytes@.len() - i,
    {
        proof {
            let s = bytes@.skip(i as int);
            assert(s.len() > 0);
            assert(s[0] == bytes@[i as int]);
            assert(s.drop_first() =~= bytes@.skip(i as int + 1));
        }
        acc = (acc ^ (bytes[i] as u64)).wrapping_mul(FNV_PRIME);
        i += 1;
    }
    proof {
        assert(bytes@.skip(bytes@.len() as int) =~= Seq::<u8>::empty());
    }
    acc
}

impl Block {
    /// Constructs a block from its four fields; the identifier is a pure
    /// function of these, so equal fields always give an equal [`Block::id`].
    pub fn new(parent_id: Id, height: u64, timestamp: u64, payload: Vec<u8>) -> (r: Block)
        ensures
            r@ == (BlockView { parent_id, height, timestamp, payload: payload@ }),
    {
        Block { parent_id, height, timestamp, payload }
    }

    /// The deterministic content identifier of this block.
    pub fn id(&self) -> (r: Id)
        ensures
            r == id_of(self@),
    {
        let bytes = self.serialize();
        Id {
            w0: fnv_hash(FNV_BASIS0, &bytes),
            w1: fnv_hash(FNV_BASIS1, &bytes),
            w2: fnv_hash(FNV_BASIS2, &bytes),
            w3: fnv_hash(FNV_BASIS3, &bytes),
        }
    }

    /// Encodes this block; the exact inverse of [`Block::deserialize`].
    pub fn serialize(&self) -> (r: Vec<u8>)
        ensures
            r@ == spec_serialize(self@),
    {
        let mut out: Vec<u8> = Vec::new();
        push_word(&mut out, self.parent_id.w0);
        push_word(&mut out, self.parent_id.w1);
        push_word(&mut out, self.parent_id.w2);
        push_word(&mut out, self.parent_id.w3);
        push_word(&mut out, self.height);
        push_word(&mut out, self.timestamp);
        proof {
            assert(out@ =~= spec_header(self@));
        }
        let mut i: usize = 0;
        while i < self.payload.len()
            invariant
                i <= self.payload@.len(),
                out@ == spec_header(self@) + self.payload@.subrange(0, i as int),
            decreases self.payload@.len() - i,
        {
            out.push(self.payload[i]);
            proof {
                assert(out@ =~= spec_header(self@) + self.payload@.subrange(0, i as int + 1));
            }
            i += 1;
        }
        proof {
            assert(out@ =~= spec_serialize(self@));
        }
        out
    }

    /// Decodes raw bytes into a block. Fails exactly on inputs shorter than
    /// the fixed header; on success the block is the unique value whose
    /// encoding the input extends byte for byte.
    pub fn deserialize(bytes: &Vec<u8>) -> (r: Result<Block, crate::errors::VmError>)
        ensures
            match r {
                Ok(b) => spec_deserialize(bytes@) == Some(b@),
                Err(e) => e == crate::errors::VmError::DecodeError && spec_deserialize(bytes@)
                    is None,
            },
    {
        if bytes.len() < HEADER_LEN {
            return Err(crate::errors::VmError::DecodeError);
        }
        let parent_id = Id {
            w0: read_word(bytes, 0),
            w1: read_word(bytes, 8),
            w2: read_word(bytes, 16),
            w3: read_word(bytes, 24),
        };
        let height = read_word(bytes, 32);
        let timestamp = read_word(bytes, 40);
        let mut payload: Vec<u8> = Vec::new();
        let mut i: usize = HEADER_LEN;
        while i < bytes.len()
            invariant
                HEADER_LEN <= i <= bytes@.len(),
                payload@ == bytes@.subrange(HEADER_LEN as int, i as int),
            decreases bytes@.len() - i,
        {
            payload.push(bytes[i]);
            proof {
                assert(payload@ =~= bytes@.subrange(HEADER_LEN as int, i as int + 1));
            }
            i += 1;
        }
        let b = Block { parent_id, height, timestamp, payload };
        proof {
            assert(spec_deserialize(bytes@) == Some(b@));
        }
        Ok(b)
    }
}

/// Reading a word back from its big-endian bytes restores the word.
pub proof fn lemma_word_round_trip(w: u64)
    ensures
        spec_word_of(spec_word_bytes(w)) == w,
{
    let s = spec_word_bytes(w);
    assert(s[0] == (w >> 56) as u8);
    assert(s[1] == (w >> 48) as u8);
    assert(s[2] == (w >> 40) as u8);
    assert(s[3] == (w >> 32) as u8);
    assert(s[4] == (w >> 24) as u8);
    assert(s[5] == (w >> 16) as u8);
    assert(s[6] == (w >> 8) as u8);
    assert(s[7] == w as u8);
    assert(((((w >> 56) as u8 as u64) << 56) | (((w >> 48) as u8 as u64) << 48) | (((w >> 40) as u8
        as u64) << 40) | (((w >> 32) as u8 as u64) << 32) | (((w >> 24) as u8 as u64) << 24) | (((w
        >> 16) as u8 as u64) << 16) | (((w >> 8) as u8 as u64) << 8) | (w as u8 as u64)) == w)
        by (bit_vector);
}

/// Round trip: decoding the encoding of any block restores the block
/// exactly, whatever its fields and payload.
pub proof fn lemma_round_trip(b: BlockView)
    ensures
        spec_deserialize(spec_serialize(b)) == Some(b),
{
    let s = spec_serialize(b);
    assert(s.len() == 48 + b.payload.len());
    assert(s.subrange(0, 8) =~= spec_word_bytes(b.parent_id.w0));
    assert(s.subrange(8, 16) =~= spec_word_bytes(b.parent_id.w1));
    assert(s.subrange(16, 24) =~= spec_word_bytes(b.parent_id.w2));
    assert(s.subrange(24, 32) =~= spec_word_bytes(b.parent_id.w3));
    assert(s.subrange(32, 40) =~= spec_word_bytes(b.height));
    assert(s.subrange(40, 48) =~= spec_word_bytes(b.timestamp));
    assert(s.subrange(48, s.len() as int) =~= b.payload);
    lemma_word_round_trip(b.parent_id.w0);
    lemma_word_round_trip(b.parent_id.w1);
    lemma_word_round_trip(b.parent_id.w2);
    lemma_word_round_trip(b.parent_id.w3);
    lemma_word_round_trip(b.height);
    lemma_word_round_trip(b.timestamp);
    let d = spec_deserialize(s)->Some_0;
    assert(d =~= b);
}

/// Determinism: the content identifier depends on the four fields alone, so
/// two blocks built from the same fields carry the same identifier.
pub proof fn lemma_id_deterministic(a: BlockView, b: BlockView)
    requires
        a.parent_id == b.parent_id,
        a.height == b.height,
        a.timestamp == b.timestamp,
        a.payload == b.payload,
    ensures
        id_of(a) == id_of(b),
{
    assert(a =~= b);
}

/// Tests whether two blocks hold the same fields, payload included.
pub fn block_eq(a: &Block, b: &Block) -> (r: bool)
    ensures
        r == (a@ == b@),
{
    if !(a.parent_id == b.parent_id && a.height == b.height && a.timestamp == b.timestamp
        && a.payload.len() == b.payload.len()) {
        proof {
            assert(a@ != b@);
        }
        return false;
    }
    let mut i: usize = 0;
    while i < a.payload.len()
        invariant
            i <= a.payload@.len(),
            a.payload@.len() == b.payload@.len(),
            a.parent_id == b.parent_id,
            a.height == b.height,
            a.timestamp == b.timestamp,
            forall|j: int| 0 <= j < i ==> a.payload@[j] == b.payload@[j],
        decreases a.payload@.len() - i,
    {
        if a.payload[i] != b.payload[i] {
            return false;
        }
        i += 1;
    }
    proof {
        assert(a.payload@ =~= b.payload@);
        assert(a@ =~= b@);
    }
    true
}

} // verus!
