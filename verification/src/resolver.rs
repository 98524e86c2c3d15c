use vstd::prelude::*;

use crate::ecs::{edited_metrics, node_index, NodeId, SvpPointer, UastRegistry};
use crate::lines::nl_count;
use crate::minimap::count_newlines;

verus! {

/// How soon a read is wanted.
#[derive(Debug, Clone, Copy, PartialEq, Eq, Structural)]
pub enum RequestPriority {
    /// The text is on screen: it is stored in the node once read.
    High,
    /// A background scan that only counts the node's lines.
    Low,
}

/// A read of a leaf's bytes from its storage device.
pub struct SvpRequest {
    pub node_id: NodeId,
    pub pointer: SvpPointer,
    pub priority: RequestPriority,
    pub last_node_id: Option<NodeId>,
}

/// What a read in flight carries to its completion: the node, whether it is on screen,
/// the buffer it lands in, and for a scan one past the index of the last node to read.
#[derive(Debug, Clone, Copy, PartialEq, Eq, Structural)]
pub struct DmaTag {
    pub node_index: u32,
    pub viewport: bool,
    pub buffer_index: u8,
    pub last_index_plus_one: u32,
}

/// The 64-bit word that tags a read: node index in bits 0..32, the on-screen flag in
/// bit 32, the buffer index from bit 33 and the scan end from bit 40 (bits shifted past
/// the top are lost).
pub open spec fn tag_word(t: DmaTag) -> u64 {
    (t.node_index as u64) | ((if t.viewport {
        1u64
    } else {
        0u64
    }) << 32u64) | ((t.buffer_index as u64) << 33u64) | ((t.last_index_plus_one as u64) << 40u64)
}

/// The tag that a 64-bit word stands for.
pub open spec fn word_tag(w: u64) -> DmaTag {
    DmaTag {
        node_index: (w & 0xffff_ffffu64) as u32,
        viewport: (w >> 32u64) & 1u64 == 1u64,
        buffer_index: ((w >> 33u64) & 0x7fu64) as u8,
        last_index_plus_one: (w >> 40u64) as u32,
    }
}

/// Packs a tag into the word that travels with the read.
pub fn encode_dma_tag(tag: DmaTag) -> (r: u64)
    ensures
        r == tag_word(tag),
{
    let flag: u64 = if tag.viewport {
        1
    } else {
        0
    };
    (tag.node_index as u64) | (flag << 32u64) | ((tag.buffer_index as u64) << 33u64) | ((
    tag.last_index_plus_one as u64) << 40u64)
}

/// Unpacks the word of a finished read.
pub fn decode_dma_tag(word: u64) -> (r: DmaTag)
    ensures
        r == word_tag(word),
{
    DmaTag {
        node_index: (word & 0xffff_ffff) as u32,
        viewport: (word >> 32u64) & 1 == 1,
        buffer_index: ((word >> 33u64) & 0x7f) as u8,
        last_index_plus_one: (word >> 40u64) as u32,
    }
}

/// A tag survives the trip through its word when the buffer index fits in 7 bits and
/// the scan end in 24.
pub proof fn lemma_tag_round_trip(tag: DmaTag)
    requires
        tag.buffer_index < 128,
        tag.last_index_plus_one < 0x100_0000,
    ensures
        word_tag(tag_word(tag)) == tag,
{
    let n = tag.node_index as u64;
    let f: u64 = if tag.viewport {
        1
    } else {
        0
    };
    let b = tag.buffer_index as u64;
    let l = tag.last_index_plus_one as u64;
    let w = n | (f << 32u64) | (b << 33u64) | (l << 40u64);
    assert(w == tag_word(tag));
    assert(w & 0xffff_ffffu64 == n) by (bit_vector)
        requires
            n < 0x1_0000_0000u64,
            f <= 1u64,
            b < 128u64,
            l < 0x100_0000u64,
            w == n | (f << 32u64) | (b << 33u64) | (l << 40u64),
    ;
    assert((w >> 32u64) & 1u64 == f) by (bit_vector)
        requires
            n < 0x1_0000_0000u64,
            f <= 1u64,
            b < 128u64,
            l < 0x100_0000u64,
            w == n | (f << 32u64) | (b << 33u64) | (l << 40u64),
    ;
    assert((w >> 33u64) & 0x7fu64 == b) by (bit_vector)
        requires
            n < 0x1_0000_0000u64,
            f <= 1u64,
            b < 128u64,
            l < 0x100_0000u64,
            w == n | (f << 32u64) | (b << 33u64) | (l << 40u64),
    ;
    assert(w >> 40u64 == l) by (bit_vector)
        requires
            n < 0x1_0000_0000u64,
            f <= 1u64,
            b < 128u64,
            l < 0x100_0000u64,
            w == n | (f << 32u64) | (b << 33u64) | (l << 40u64),
    ;
}

/// Byte offset on the device at which a leaf's bytes start: its 512-byte block and the
/// bytes trimmed off the block's head.
pub fn read_offset(pointer: SvpPointer) -> (r: u64)
    requires
        pointer.lba * 512 + pointer.head_trim <= u64::MAX,
    ensures
        r == pointer.lba * 512 + pointer.head_trim,
{
    pointer.lba * 512 + pointer.head_trim as u64
}

/// The request that continues a scan after the read tagged `tag`: the next node, when
/// the scan has not reached its end and that node has bytes on a device.
pub open spec fn next_scan_request_for(reg: UastRegistry, tag: DmaTag, r: Option<SvpRequest>) -> bool {
    let next = tag.node_index + 1;
    if tag.last_index_plus_one > 0 && next < tag.last_index_plus_one {
        match reg.spans@[next as int] {
            Some(p) => {
                &&& r matches Some(q)
                &&& node_index(r->0.node_id) == next
                &&& r->0.pointer == p
                &&& r->0.priority == RequestPriority::Low
                &&& r->0.last_node_id matches Some(l)
                &&& node_index(r->0.last_node_id->0) == tag.last_index_plus_one - 1
            },
            None => r is None,
        }
    } else {
        r is None
    }
}

/// Applies a finished read, tagged `tag`, that returned `result` (bytes read, or a
/// negative error) into `buffer`: the node's line count is added up its ancestors the
/// first time it is read, its text is kept when it is on screen, it is no longer in
/// flight, and a scan goes on with the next node. Returns the read that continues the
/// scan, if any.
pub fn complete_read(registry: &mut UastRegistry, tag: DmaTag, result: i32, buffer: &[u8]) -> (r:
    Option<SvpRequest>)
    requires
        old(registry).wf(),
        tag.node_index < old(registry).capacity,
        tag.last_index_plus_one <= old(registry).capacity,
        result >= 0 ==> result <= buffer@.len(),
    ensures
        final(registry).wf(),
        final(registry).capacity == old(registry).capacity,
        final(registry).next_id == old(registry).next_id,
        final(registry).kinds == old(registry).kinds && final(registry).spans == old(registry).spans
            && final(registry).edges == old(registry).edges
            && final(registry).child_tails == old(registry).child_tails,
        final(registry).dma_in_flight@ == old(registry).dma_in_flight@.update(
            tag.node_index as int,
            false,
        ),
        result < 0 ==> {
            &&& r is None
            &&& final(registry).metrics == old(registry).metrics
            &&& final(registry).metrics_inflated == old(registry).metrics_inflated
            &&& final(registry).virtual_data == old(registry).virtual_data
        },
        result >= 0 ==> {
            let idx = tag.node_index as int;
            let data = buffer@.take(result as int);
            &&& final(registry).metrics_inflated@ == old(registry).metrics_inflated@.update(
                idx,
                true,
            )
            &&& final(registry).metrics@ == if old(registry).metrics_inflated@[idx] {
                old(registry).metrics@
            } else {
                edited_metrics(
                    old(registry).metrics@,
                    old(registry).edges@,
                    idx,
                    0,
                    nl_count(data) as i32,
                    old(registry).capacity as nat,
                )
            }
            &&& final(registry).virtual_data@.len() == old(registry).virtual_data@.len()
            &&& forall|j: int|
                0 <= j < old(registry).virtual_data@.len() && j != idx
                    ==> final(registry).virtual_data@[j] == old(registry).virtual_data@[j]
            &&& if tag.viewport {
                final(registry).virtual_data@[idx] matches Some(v) && v@ == data
            } else {
                final(registry).virtual_data@[idx] == old(registry).virtual_data@[idx]
            }
            &&& next_scan_request_for(*old(registry), tag, r)
        },
{
    let idx = tag.node_index as usize;
    let node = NodeId::from_index(idx);
    if result < 0 {
        registry.dma_in_flight.set(idx, false);
        proof {
            assert(registry.edges@ == old(registry).edges@);
            assert(registry.child_tails@ == old(registry).child_tails@);
        }
        return None;
    }
    let byte_count = result as usize;
    let data = &buffer[0..byte_count];
    assert(data@ =~= buffer@.take(result as int));
    let newlines = count_newlines(data);
    proof {
        crate::lines::lemma_nl_count_bound(data@);
    }
    let ghost spans = registry.spans@;
    if !registry.metrics_inflated[idx] {
        registry.metrics_inflated.set(idx, true);
        proof {
            assert(registry.edges@ == old(registry).edges@);
            assert(registry.child_tails@ == old(registry).child_tails@);
        }
        registry.apply_edit(node, 0, newlines as i32);
    } else {
        registry.metrics_inflated.set(idx, true);
        proof {
            assert(registry.edges@ == old(registry).edges@);
            assert(registry.child_tails@ == old(registry).child_tails@);
        }
    }
    assert(registry.wf());
    if tag.viewport {
        let mut copy: Vec<u8> = Vec::new();
        let mut i: usize = 0;
        while i < byte_count
            invariant
                i <= byte_count,
                byte_count == data@.len(),
                copy@ == data@.take(i as int),
            decreases byte_count - i,
        {
            copy.push(data[i]);
            proof {
                assert(data@.take(i + 1) =~= data@.take(i as int).push(data@[i as int]));
            }
            i = i + 1;
        }
        assert(copy@ =~= data@);
        registry.hot_swap_virtual_data(node, copy);
    }
    assert(registry.wf());
    registry.dma_in_flight.set(idx, false);
    proof {
        assert(registry.edges@ == old(registry).edges@);
        assert(registry.child_tails@ == old(registry).child_tails@);
    }
    let next_idx = idx + 1;
    if tag.last_index_plus_one > 0 && next_idx < tag.last_index_plus_one as usize {
        match registry.spans[next_idx] {
            Some(pointer) => Some(
                SvpRequest {
                    node_id: NodeId::from_index(next_idx),
                    pointer,
                    priority: RequestPriority::Low,
                    last_node_id: Some(
                        NodeId::from_index((tag.last_index_plus_one - 1) as usize),
                    ),
                },
            ),
            None => None,
        }
    } else {
        None
    }
}

} // verus!
