//! Identities shared by every subsystem, and the frames that subsystems
//! exchange.
use crate::bytes::{byte_range, le_bytes, le_value, lemma_le_bytes_len, lemma_le_bytes_of_value, lemma_le_value_of_bytes};
use vstd::prelude::*;

verus! {

broadcast use lemma_le_bytes_len;

/// A node of the cluster: sixteen opaque bytes, held as one number with the
/// first byte the most significant. Nodes are ordered as their bytes are.
#[derive(Copy, Clone, Debug, PartialEq, Eq, PartialOrd, Ord, Hash, Structural)]
pub struct NodeId(pub u128);

/// A mailbox on one node.
#[derive(Copy, Clone, Debug, PartialEq, Eq, PartialOrd, Ord, Hash, Structural)]
pub struct MboxId(pub u64);

/// A mailbox anywhere in the cluster.
#[derive(Copy, Clone, Debug, PartialEq, Eq, PartialOrd, Ord, Hash, Structural)]
pub struct NetId {
    pub node: NodeId,
    pub mbox: MboxId,
}

/// The kinds of frame that the runtime's subsystems own.
#[derive(Copy, Clone, Debug, PartialEq, Eq, Structural)]
pub enum FrameKind {
    NodeAd,
    AdGossip,
    AdRequest,
    MailSend,
    MailDeliveryFailure,
    ServiceAd,
    ServiceForget,
    ServiceSync,
    ServiceSyncResponse,
    NineReq,
    NineRsp,
}

impl FrameKind {
    /// The number of the kind on the wire.
    pub open spec fn number(self) -> u16 {
        match self {
            FrameKind::NodeAd => 0x0100,
            FrameKind::AdGossip => 0x0101,
            FrameKind::AdRequest => 0x0102,
            FrameKind::MailSend => 0x0200,
            FrameKind::MailDeliveryFailure => 0x0201,
            FrameKind::ServiceAd => 0x0210,
            FrameKind::ServiceForget => 0x0211,
            FrameKind::ServiceSync => 0x0212,
            FrameKind::ServiceSyncResponse => 0x0213,
            FrameKind::NineReq => 0x0400,
            FrameKind::NineRsp => 0x0401,
        }
    }

    pub fn code(self) -> (n: u16)
        ensures
            n == self.number(),
    {
        match self {
            FrameKind::NodeAd => 0x0100,
            FrameKind::AdGossip => 0x0101,
            FrameKind::AdRequest => 0x0102,
            FrameKind::MailSend => 0x0200,
            FrameKind::MailDeliveryFailure => 0x0201,
            FrameKind::ServiceAd => 0x0210,
            FrameKind::ServiceForget => 0x0211,
            FrameKind::ServiceSync => 0x0212,
            FrameKind::ServiceSyncResponse => 0x0213,
            FrameKind::NineReq => 0x0400,
            FrameKind::NineRsp => 0x0401,
        }
    }
}

/// One frame: its kind's number and its payload.
#[derive(Clone, Debug, PartialEq, Eq)]
pub struct Frame {
    pub kind: u16,
    pub payload: Vec<u8>,
}

/// What a [`Frame`] says.
pub struct FrameView {
    pub kind: u16,
    pub payload: Seq<u8>,
}

impl View for Frame {
    type V = FrameView;

    open spec fn view(&self) -> FrameView {
        FrameView { kind: self.kind, payload: self.payload@ }
    }
}

impl Frame {
    pub fn new(kind: u16, payload: Vec<u8>) -> (f: Self)
        ensures
            f.kind == kind,
            f.payload == payload,
    {
        Frame { kind, payload }
    }
}

impl NodeId {
    /// The sixteen bytes of the id.
    pub open spec fn bytes(self) -> Seq<u8> {
        le_bytes(self.0 as nat, 16).reverse()
    }

    /// The node with the given bytes.
    pub fn from_bytes(b: [u8; 16]) -> (id: NodeId)
        ensures
            id.bytes() == b@,
    {
        let mut v: u128 = 0;
        let mut i: usize = 0;
        proof {
            reveal_with_fuel(byte_range, 17);
            assert(b@.take(0).reverse() =~= Seq::<u8>::empty());
        }
        while i < 16
            invariant
                i <= 16,
                v as nat == le_value(b@.take(i as int).reverse()),
            decreases 16 - i,
        {
            proof {
                let before = b@.take(i as int).reverse();
                let after = b@.take(i + 1).reverse();
                assert(after.skip(1) =~= before);
                assert(after[0] == b@[i as int]);
                lemma_le_bytes_of_value(before);
                lemma_small(i as nat);
            }
            v = v * 256 + b[i] as u128;
            i = i + 1;
        }
        proof {
            assert(b@.take(16) =~= b@);
            lemma_le_bytes_of_value(b@.reverse());
            assert(b@.reverse().reverse() =~= b@);
        }
        NodeId(v)
    }

    /// The number is the value of the bytes.
    pub proof fn lemma_of_bytes(self)
        ensures
            self.bytes().len() == 16,
            le_value(self.bytes().reverse()) == self.0,
    {
        let x = le_bytes(self.0 as nat, 16);
        assert(x.reverse().reverse() =~= x);
        reveal_with_fuel(byte_range, 17);
        lemma_le_value_of_bytes(self.0 as nat, 16);
    }

    /// Any sixteen bytes are those of a node.
    pub proof fn lemma_bytes_of(b: Seq<u8>)
        requires
            b.len() == 16,
        ensures
            NodeId(le_value(b.reverse()) as u128).bytes() == b,
    {
        reveal_with_fuel(byte_range, 17);
        lemma_le_bytes_of_value(b.reverse());
        assert(b.reverse().reverse() =~= b);
    }

    /// The bytes of the node as an array.
    pub fn to_array(&self) -> (b: [u8; 16])
        ensures
            b@ == self.bytes(),
    {
        let v = self.to_bytes();
        let mut b: [u8; 16] = [0u8; 16];
        let mut i: usize = 0;
        proof {
            self.lemma_of_bytes();
        }
        while i < 16
            invariant
                i <= 16,
                v@.len() == 16,
                forall|k: int| 0 <= k < i ==> b@[k] == v@[k],
            decreases 16 - i,
        {
            b[i] = v[i];
            i = i + 1;
        }
        assert(b@ =~= v@);
        b
    }

    /// The bytes of the node.
    pub fn to_bytes(&self) -> (b: Vec<u8>)
        ensures
            b@ == self.bytes(),
    {
        let mut b: Vec<u8> = Vec::new();
        let mut rest: u128 = self.0;
        let mut i: usize = 0;
        while i < 16
            invariant
                i <= 16,
                le_bytes(rest as nat, (16 - i) as nat).reverse() + b@ =~= self.bytes(),
            decreases 16 - i,
        {
            proof {
                let low = seq![(rest % 256) as u8];
                let high = le_bytes(rest as nat / 256, (16 - i - 1) as nat);
                assert((low + high).reverse() =~= high.reverse() + low);
            }
            b.insert(0, (rest % 256) as u8);
            rest = rest / 256;
            i = i + 1;
        }
        assert(le_bytes(rest as nat, 0).reverse() =~= Seq::<u8>::empty());
        b
    }
}

proof fn lemma_small(n: nat)
    requires
        n < 16,
    ensures
        byte_range(n) * 256 <= 0x1_0000_0000_0000_0000_0000_0000_0000_0000,
{
    reveal_with_fuel(byte_range, 17);
}

/// Two nodes with the same bytes are the same node.
pub proof fn law_node_bytes(a: NodeId, b: NodeId)
    requires
        a.bytes() == b.bytes(),
    ensures
        a == b,
{
    let x = le_bytes(a.0 as nat, 16);
    let y = le_bytes(b.0 as nat, 16);
    assert(x =~= x.reverse().reverse());
    assert(y =~= y.reverse().reverse());
    reveal_with_fuel(byte_range, 17);
    lemma_le_value_of_bytes(a.0 as nat, 16);
    lemma_le_value_of_bytes(b.0 as nat, 16);
}

} // verus!
