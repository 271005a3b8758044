//! Identities used by the raft layer: nodes (agents), raft instances and ops.

use vstd::prelude::*;

verus! {

/// The three prefix bytes that mark a 39-byte hash as an agent public key.
pub open spec fn agent_prefix() -> Seq<u8> {
    seq![0x84u8, 0x20u8, 0x24u8]
}

/// A 39-byte agent key: prefix, 32 core bytes, 4 location bytes.
pub open spec fn is_agent_key(bytes: Seq<u8>) -> bool {
    &&& bytes.len() == 39
    &&& bytes.subrange(0, 3) == agent_prefix()
}

/// A raft node: the agent public key of a conductor's cell, kept as its
/// full 39 raw bytes.
#[derive(Debug)]
pub struct HcNode {
    raw: Vec<u8>,
}

impl View for HcNode {
    type V = Seq<u8>;

    closed spec fn view(&self) -> Seq<u8> {
        self.raw@
    }
}

impl Clone for HcNode {
    fn clone(&self) -> (res: HcNode)
        ensures
            res@ == self@,
    {
        proof { use_type_invariant(self); }
        let raw = self.raw.clone();
        assert(raw@ =~= self.raw@);
        HcNode { raw }
    }
}

impl Default for HcNode {
    /// The placeholder node: the agent whose core key is all zeros.
    fn default() -> (res: HcNode)
        ensures
            res@ == agent_key_from_core(Seq::new(32, |i: int| 0u8)),
            res@.subrange(3, 35) == Seq::new(32, |i: int| 0u8),
            is_agent_key(res@),
    {
        let mut core: Vec<u8> = Vec::new();
        let mut i: usize = 0;
        while i < 32
            invariant
                i <= 32,
                core@ == Seq::new(i as nat, |j: int| 0u8),
            decreases 32 - i,
        {
            core.push(0u8);
            i = i + 1;
        }
        let res = HcNode::from_core(core);
        proof { use_type_invariant(&res); }
        res
    }
}

impl HcNode {
    /// Every node carries a well-formed agent key.
    #[verifier::type_invariant]
    spec fn well_formed(self) -> bool {
        is_agent_key(self.raw@)
    }

    /// Accepts raw bytes as a node when they form an agent key.
    pub fn try_from_raw(raw: Vec<u8>) -> (res: Option<HcNode>)
        ensures
            res is Some <==> is_agent_key(raw@),
            res matches Some(n) ==> n@ == raw@,
    {
        if raw.len() == 39 && raw[0] == 0x84u8 && raw[1] == 0x20u8 && raw[2] == 0x24u8 {
            assert(raw@.subrange(0, 3) =~= agent_prefix());
            Some(HcNode { raw })
        } else {
            proof {
                if raw@.len() == 39 {
                    assert(raw@.subrange(0, 3)[0] == raw@[0]);
                    assert(raw@.subrange(0, 3)[1] == raw@[1]);
                    assert(raw@.subrange(0, 3)[2] == raw@[2]);
                }
            }
            None
        }
    }

    /// The node of the agent whose 32 core key bytes are given.
    pub fn from_core(core: Vec<u8>) -> (res: HcNode)
        requires
            core@.len() == 32,
        ensures
            res@ == agent_key_from_core(core@),
            res@.subrange(3, 35) == core@,
    {
        let raw = agent_raw_39_from_core(core);
        HcNode { raw }
    }

    /// The raw 39 bytes of the agent key.
    pub fn raw(&self) -> (res: &Vec<u8>)
        ensures
            res@ == self@,
            is_agent_key(res@),
    {
        proof { use_type_invariant(self); }
        &self.raw
    }

    /// Whether two nodes are the same agent.
    pub fn same_as(&self, other: &HcNode) -> (res: bool)
        ensures
            res == (self@ == other@),
    {
        bytes_equal(&self.raw, &other.raw)
    }

    /// The base-64 text form of the node, as it is displayed and serialized.
    pub fn to_b64_string(&self) -> (res: String)
        ensures
            res@ == holo_hash_text(self@),
            res@.len() == 53,
            res@[0] == 'u',
    {
        proof {
            use_type_invariant(self);
            lemma_b64_len(self.raw@);
        }
        holo_hash_encode_text(&self.raw)
    }
}

/// The agent keys that occur in a sequence of nodes.
pub open spec fn node_keys(s: Seq<HcNode>) -> Set<Seq<u8>> {
    Set::new(|k: Seq<u8>| exists|i: int| 0 <= i < s.len() && #[trigger] s[i]@ == k)
}

/// No agent occurs twice in a sequence of nodes.
pub open spec fn distinct_nodes(s: Seq<HcNode>) -> bool {
    forall|i: int, j: int| 0 <= i < j < s.len() ==> #[trigger] s[i]@ != #[trigger] s[j]@
}

/// Whether a node occurs in a list.
pub fn contains_node(nodes: &Vec<HcNode>, node: &HcNode) -> (res: bool)
    ensures
        res == node_keys(nodes@).contains(node@),
{
    let mut i: usize = 0;
    while i < nodes.len()
        invariant
            i <= nodes.len(),
            forall|j: int| 0 <= j < i ==> #[trigger] nodes@[j]@ != node@,
        decreases nodes.len() - i,
    {
        if nodes[i].same_as(node) {
            assert(nodes@[i as int]@ == node@);
            return true;
        }
        i = i + 1;
    }
    false
}

/// The nodes of a list other than `node`, in their order.
pub fn without(nodes: &Vec<HcNode>, node: &HcNode) -> (res: Vec<HcNode>)
    ensures
        node_keys(res@) == node_keys(nodes@).remove(node@),
        distinct_nodes(nodes@) ==> distinct_nodes(res@),
{
    let mut res: Vec<HcNode> = Vec::new();
    let ghost mut from: Seq<int> = Seq::empty();
    let mut i: usize = 0;
    while i < nodes.len()
        invariant
            i <= nodes.len(),
            from.len() == res@.len(),
            forall|m: int| 0 <= m < res@.len() ==> 0 <= #[trigger] from[m] < i && res@[m]@ == nodes@[from[m]]@,
            forall|a: int, b: int| 0 <= a < b < from.len() ==> #[trigger] from[a] < #[trigger] from[b],
            node_keys(res@) == node_keys(nodes@.subrange(0, i as int)).remove(node@),
        decreases nodes.len() - i,
    {
        let ghost before = res@;
        let ghost prefix = nodes@.subrange(0, i as int);
        let ghost next = nodes@.subrange(0, i + 1);
        if !nodes[i].same_as(node) {
            res.push(nodes[i].clone());
            proof { from = from.push(i as int); }
        }
        assert(node_keys(res@) =~= node_keys(next).remove(node@)) by {
            assert forall|k: Seq<u8>| node_keys(next).remove(node@).contains(k) implies node_keys(res@).contains(k) by {
                let j = choose|j: int| 0 <= j < next.len() && #[trigger] next[j]@ == k;
                if j < i {
                    assert(prefix[j]@ == k);
                    assert(node_keys(prefix).remove(node@).contains(k));
                    let m = choose|m: int| 0 <= m < before.len() && #[trigger] before[m]@ == k;
                    assert(res@[m]@ == k);
                } else {
                    assert(res@[res@.len() - 1]@ == k);
                }
            }
            assert forall|k: Seq<u8>| node_keys(res@).contains(k) implies node_keys(next).remove(node@).contains(k) by {
                let m = choose|m: int| 0 <= m < res@.len() && #[trigger] res@[m]@ == k;
                if m < before.len() {
                    assert(before[m]@ == k);
                    assert(node_keys(before).contains(k));
                    let j = choose|j: int| 0 <= j < prefix.len() && #[trigger] prefix[j]@ == k;
                    assert(next[j]@ == k);
                } else {
                    assert(next[i as int]@ == k);
                }
            }
        }
        i = i + 1;
    }
    assert(nodes@.subrange(0, nodes@.len() as int) =~= nodes@);
    proof {
        if distinct_nodes(nodes@) {
            assert forall|a: int, b: int| 0 <= a < b < res@.len() implies #[trigger] res@[a]@ != #[trigger] res@[b]@ by {
                assert(from[a] < from[b]);
            }
        }
    }
    res
}

/// The nodes of a list with every later repetition of an agent dropped.
pub fn distinct(nodes: &Vec<HcNode>) -> (res: Vec<HcNode>)
    ensures
        node_keys(res@) == node_keys(nodes@),
        distinct_nodes(res@),
{
    let mut res: Vec<HcNode> = Vec::new();
    let mut i: usize = 0;
    while i < nodes.len()
        invariant
            i <= nodes.len(),
            node_keys(res@) == node_keys(nodes@.subrange(0, i as int)),
            distinct_nodes(res@),
        decreases nodes.len() - i,
    {
        let n = &nodes[i];
        let ghost before = res@;
        if !contains_node(&res, n) {
            res.push(n.clone());
            assert forall|a: int, b: int| 0 <= a < b < res@.len() implies #[trigger] res@[a]@ != #[trigger] res@[b]@ by {
                if b == res@.len() - 1 {
                    assert(before[a]@ == res@[a]@);
                    assert(node_keys(before).contains(before[a]@));
                }
            }
        }
        assert(node_keys(res@) =~= node_keys(nodes@.subrange(0, i + 1))) by {
            assert forall|k: Seq<u8>| node_keys(nodes@.subrange(0, i + 1)).contains(k) implies node_keys(res@).contains(k) by {
                let j = choose|j: int| 0 <= j < i + 1 && #[trigger] nodes@.subrange(0, i + 1)[j]@ == k;
                if j < i {
                    assert(nodes@.subrange(0, i as int)[j]@ == k);
                    assert(node_keys(nodes@.subrange(0, i as int)).contains(k));
                    assert(node_keys(before).contains(k));
                    let m = choose|m: int| 0 <= m < before.len() && #[trigger] before[m]@ == k;
                    assert(res@[m]@ == k);
                } else {
                    if node_keys(before).contains(n@) {
                        let m = choose|m: int| 0 <= m < before.len() && #[trigger] before[m]@ == n@;
                        assert(res@[m]@ == k);
                    } else {
                        assert(res@[res@.len() - 1]@ == k);
                    }
                }
            }
            assert forall|k: Seq<u8>| node_keys(res@).contains(k) implies node_keys(nodes@.subrange(0, i + 1)).contains(k) by {
                let m = choose|m: int| 0 <= m < res@.len() && #[trigger] res@[m]@ == k;
                if m < before.len() {
                    assert(before[m]@ == k);
                    assert(node_keys(before).contains(k));
                    assert(node_keys(nodes@.subrange(0, i as int)).contains(k));
                    let j = choose|j: int| 0 <= j < i && #[trigger] nodes@.subrange(0, i as int)[j]@ == k;
                    assert(nodes@.subrange(0, i + 1)[j]@ == k);
                } else {
                    assert(nodes@.subrange(0, i + 1)[i as int]@ == k);
                }
            }
        }
        i = i + 1;
    }
    assert(nodes@.subrange(0, nodes@.len() as int) =~= nodes@);
    res
}

/// Byte-wise equality of two byte strings.
pub fn bytes_equal(a: &Vec<u8>, b: &Vec<u8>) -> (res: bool)
    ensures
        res == (a@ == b@),
{
    if a.len() != b.len() {
        return false;
    }
    let mut i: usize = 0;
    while i < a.len()
        invariant
            i <= a.len(),
            a.len() == b.len(),
            forall|j: int| 0 <= j < i ==> a@[j] == b@[j],
        decreases a.len() - i,
    {
        if a[i] != b[i] {
            return false;
        }
        i = i + 1;
    }
    assert(a@ =~= b@);
    true
}

/// Identifies one raft instance: the workspace entry hash it coordinates,
/// kept as its raw 39 bytes.
#[derive(Clone, Debug)]
pub struct RaftId {
    pub workspace: Vec<u8>,
}

impl View for RaftId {
    type V = Seq<u8>;

    open spec fn view(&self) -> Seq<u8> {
        self.workspace@
    }
}

impl RaftId {
    /// The raft instance of a workspace.
    pub fn from_workspace(workspace: Vec<u8>) -> (res: RaftId)
        ensures
            res@ == workspace@,
    {
        RaftId { workspace }
    }

    /// Whether two ids name the same raft instance.
    pub fn same_as(&self, other: &RaftId) -> (res: bool)
        ensures
            res == (self@ == other@),
    {
        bytes_equal(&self.workspace, &other.workspace)
    }
}

/// An application operation proposed to the replicated log.
#[derive(Clone, Debug)]
pub struct RaftOp(pub Vec<u8>);

impl View for RaftOp {
    type V = Seq<u8>;

    open spec fn view(&self) -> Seq<u8> {
        self.0@
    }
}

impl RaftOp {
    /// Wraps operation bytes.
    pub fn from_bytes(bytes: Vec<u8>) -> (res: RaftOp)
        ensures
            res@ == bytes@,
    {
        RaftOp(bytes)
    }

    /// The operation bytes.
    pub fn into_bytes(self) -> (res: Vec<u8>)
        ensures
            res@ == self@,
    {
        self.0
    }

    /// Borrows the operation bytes.
    pub fn bytes(&self) -> (res: &Vec<u8>)
        ensures
            res@ == self@,
    {
        &self.0
    }
}

/// The full 39-byte agent key that holo_hash derives from 32 core bytes.
pub uninterp spec fn agent_key_from_core(core: Seq<u8>) -> Seq<u8>;

/// The letter of a 6-bit value in the URL-safe base-64 alphabet
/// (`A`-`Z`, `a`-`z`, `0`-`9`, `-`, `_`).
pub open spec fn b64_letter(v: int) -> char {
    if v < 26 {
        (65 + v) as char
    } else if v < 52 {
        (97 + v - 26) as char
    } else if v < 62 {
        (48 + v - 52) as char
    } else if v == 62 {
        '-'
    } else {
        '_'
    }
}

/// URL-safe base-64 without padding: each group of 3 bytes becomes 4
/// letters, a trailing group of 2 bytes 3 letters, of 1 byte 2 letters.
pub open spec fn b64_url_nopad(bytes: Seq<u8>) -> Seq<char>
    decreases bytes.len(),
{
    if bytes.len() == 0 {
        Seq::empty()
    } else if bytes.len() == 1 {
        seq![b64_letter((bytes[0] as int) / 4), b64_letter(((bytes[0] as int) % 4) * 16)]
    } else if bytes.len() == 2 {
        seq![
            b64_letter((bytes[0] as int) / 4),
            b64_letter(((bytes[0] as int) % 4) * 16 + (bytes[1] as int) / 16),
            b64_letter(((bytes[1] as int) % 16) * 4),
        ]
    } else {
        seq![
            b64_letter((bytes[0] as int) / 4),
            b64_letter(((bytes[0] as int) % 4) * 16 + (bytes[1] as int) / 16),
            b64_letter(((bytes[1] as int) % 16) * 4 + (bytes[2] as int) / 64),
            b64_letter((bytes[2] as int) % 64),
        ] + b64_url_nopad(bytes.subrange(3, bytes.len() as int))
    }
}

/// The text holo_hash encodes a raw hash into: `u`, then the URL-safe
/// unpadded base-64 of the bytes.
pub open spec fn holo_hash_text(raw: Seq<u8>) -> Seq<char> {
    seq!['u'] + b64_url_nopad(raw)
}

/// Every 3 bytes make 4 letters.
proof fn lemma_b64_len(bytes: Seq<u8>)
    requires
        bytes.len() % 3 == 0,
    ensures
        b64_url_nopad(bytes).len() == bytes.len() / 3 * 4,
    decreases bytes.len(),
{
    if bytes.len() > 0 {
        lemma_b64_len(bytes.subrange(3, bytes.len() as int));
    }
}

/// Calls `holo_hash::AgentPubKey::from_raw_32` and reads back `get_raw_39`.
/// Per holo_hash's source the result is the agent prefix `84 20 24`, then the
/// 32 core bytes, then 4 location bytes computed from the core; the location
/// bytes are named, not described.
#[verifier::external_body]
fn agent_raw_39_from_core(core: Vec<u8>) -> (res: Vec<u8>)
    requires
        core@.len() == 32,
    ensures
        res@ == agent_key_from_core(core@),
        is_agent_key(res@),
        res@.subrange(3, 35) == core@,
{
    holo_hash::AgentPubKey::from_raw_32(core).get_raw_39().to_vec()
}

/// Calls `holo_hash::holo_hash_encode`, which writes `u` followed by the
/// unpadded URL-safe base-64 text of the bytes.
#[verifier::external_body]
fn holo_hash_encode_text(raw: &Vec<u8>) -> (res: String)
    ensures
        res@ == holo_hash_text(raw@),
{
    holo_hash::holo_hash_encode(raw)
}

} // verus!
