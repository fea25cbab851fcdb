//! The mathematical model of the indirection scheme: a stream body is a
//! span tree. A level-1 node is a contiguous run of sectors; the node of a
//! level `k >= 2` span is an array of 32-byte `VolumeSpan` entries filling
//! the span's sectors, each describing a child of level `k - 1`. The bytes
//! of a stream are the depth-first, left-to-right concatenation of its
//! level-1 runs, truncated to the stream's logical length.

use vstd::prelude::*;
use vstd::bytes::*;
use crate::object::{span_matches_bytes, Object, StreamListing, VolumeSpan, SPAN_SIZE};

verus! {

/// The byte of `disk` at absolute offset `i`, taking bytes outside the
/// volume as zero.
pub open spec fn byte_at(disk: Seq<u8>, i: int) -> u8 {
    if 0 <= i < disk.len() {
        disk[i]
    } else {
        0u8
    }
}

/// `n` bytes of `disk` starting at absolute offset `pos`.
pub open spec fn bytes_at(disk: Seq<u8>, pos: int, n: nat) -> Seq<u8> {
    Seq::new(n, |j: int| byte_at(disk, pos + j))
}

/// The span stored at absolute byte position `pos`.
pub open spec fn spec_span_abs(disk: Seq<u8>, pos: int) -> VolumeSpan {
    VolumeSpan {
        base_sector: spec_u128_from_le_bytes(bytes_at(disk, pos, 16)),
        extent: spec_u64_from_le_bytes(bytes_at(disk, pos + 16, 8)),
        reserved: spec_u64_from_le_bytes(bytes_at(disk, pos + 24, 8)),
    }
}

/// A span decoded from the 32 bytes at absolute position `pos` is the span
/// the model sees there.
pub proof fn lemma_span_abs_bytes(disk: Seq<u8>, pos: int, s: VolumeSpan)
    requires
        span_matches_bytes(s, bytes_at(disk, pos, SPAN_SIZE as nat)),
    ensures
        s == spec_span_abs(disk, pos),
{
    let b = bytes_at(disk, pos, SPAN_SIZE as nat);
    assert(b.subrange(0, 16) =~= bytes_at(disk, pos, 16));
    assert(b.subrange(16, 24) =~= bytes_at(disk, pos + 16, 8));
    assert(b.subrange(24, 32) =~= bytes_at(disk, pos + 24, 8));
}

/// The `i`-th span of the array stored in the sectors starting at `base`.
pub open spec fn spec_span_at(disk: Seq<u8>, base: u128, i: int) -> VolumeSpan {
    spec_span_abs(disk, base * 1024 + i * SPAN_SIZE)
}

/// A span decoded from the 32 bytes at array position `i` is the span the
/// model sees there.
pub proof fn lemma_span_at_bytes(disk: Seq<u8>, base: u128, i: int, s: VolumeSpan)
    requires
        span_matches_bytes(s, bytes_at(disk, base * 1024 + i * SPAN_SIZE, SPAN_SIZE as nat)),
    ensures
        s == spec_span_at(disk, base, i),
{
    lemma_span_abs_bytes(disk, base * 1024 + i * SPAN_SIZE, s);
}

/// The bytes below the subtree described by `span` at depth `level`.
pub open spec fn spec_child_bytes(disk: Seq<u8>, span: VolumeSpan, level: int) -> Seq<u8>
    decreases level, 1int, 0int,
{
    if level <= 1 {
        bytes_at(disk, span.base_sector * 1024, (span.extent * 1024) as nat)
    } else {
        spec_children_bytes(disk, span.base_sector, span.extent * 32, level)
    }
}

/// The concatenated bytes below the first `count` children of the interior
/// node whose span array starts at sector `base`, at depth `level >= 2`.
pub open spec fn spec_children_bytes(disk: Seq<u8>, base: u128, count: int, level: int) -> Seq<u8>
    decreases level, 0int, count,
{
    if count <= 0 || level <= 1 {
        Seq::empty()
    } else {
        spec_children_bytes(disk, base, count - 1, level) + spec_child_bytes(
            disk,
            spec_span_at(disk, base, count - 1),
            level - 1,
        )
    }
}

/// Fewer children give a prefix of the bytes of more children.
pub proof fn lemma_children_prefix(disk: Seq<u8>, base: u128, i: int, j: int, level: int)
    requires
        0 <= i <= j,
    ensures
        spec_children_bytes(disk, base, i, level).len() <= spec_children_bytes(
            disk,
            base,
            j,
            level,
        ).len(),
        forall|k: int|
            0 <= k < spec_children_bytes(disk, base, i, level).len() ==> #[trigger] spec_children_bytes(
                disk,
                base,
                j,
                level,
            )[k] == spec_children_bytes(disk, base, i, level)[k],
    decreases j - i,
{
    if i < j {
        lemma_children_prefix(disk, base, i, j - 1, level);
    }
}

/// Child `i`'s bytes form the segment of the parent's bytes that starts at
/// the length of the first `i` children.
pub proof fn lemma_children_segment(disk: Seq<u8>, base: u128, i: int, count: int, level: int)
    requires
        0 <= i < count,
        level >= 2,
    ensures
        spec_children_bytes(disk, base, i, level).len() + spec_child_bytes(
            disk,
            spec_span_at(disk, base, i),
            level - 1,
        ).len() <= spec_children_bytes(disk, base, count, level).len(),
        forall|t: int|
            0 <= t < spec_child_bytes(disk, spec_span_at(disk, base, i), level - 1).len()
                ==> #[trigger] spec_children_bytes(disk, base, count, level)[spec_children_bytes(
                disk,
                base,
                i,
                level,
            ).len() + t] == spec_child_bytes(disk, spec_span_at(disk, base, i), level - 1)[t],
{
    let child = spec_child_bytes(disk, spec_span_at(disk, base, i), level - 1);
    let off = spec_children_bytes(disk, base, i, level).len() as int;
    assert(spec_children_bytes(disk, base, i + 1, level) == spec_children_bytes(disk, base, i, level)
        + child);
    lemma_children_prefix(disk, base, i + 1, count, level);
    assert forall|t: int| 0 <= t < child.len() implies #[trigger] spec_children_bytes(
        disk,
        base,
        count,
        level,
    )[off + t] == child[t] by {
        assert(spec_children_bytes(disk, base, i + 1, level)[off + t] == child[t]);
        assert(spec_children_bytes(disk, base, count, level)[off + t] == spec_children_bytes(
            disk,
            base,
            i + 1,
            level,
        )[off + t]);
    }
}

/// Every level-1 run below the subtree lies within the volume, and so does
/// every interior span array.
pub open spec fn spec_child_in_bounds(disk: Seq<u8>, span: VolumeSpan, level: int) -> bool
    decreases level, 1int, 0int,
{
    if level <= 1 {
        span.base_sector * 1024 + span.extent * 1024 <= disk.len()
    } else {
        &&& span.base_sector * 1024 + span.extent * 1024 <= disk.len()
        &&& spec_children_in_bounds(disk, span.base_sector, span.extent * 32, level)
    }
}

/// In-bounds condition for the first `count` children of an interior node.
pub open spec fn spec_children_in_bounds(disk: Seq<u8>, base: u128, count: int, level: int) -> bool
    decreases level, 0int, count,
{
    if count <= 0 || level <= 1 {
        true
    } else {
        spec_children_in_bounds(disk, base, count - 1, level) && spec_child_in_bounds(
            disk,
            spec_span_at(disk, base, count - 1),
            level - 1,
        )
    }
}

/// Each of the first `count` children of an in-bounds node is in bounds.
pub proof fn lemma_children_in_bounds_at(
    disk: Seq<u8>,
    base: u128,
    count: int,
    level: int,
    i: int,
)
    requires
        0 <= i < count,
        level >= 2,
        spec_children_in_bounds(disk, base, count, level),
    ensures
        spec_child_in_bounds(disk, spec_span_at(disk, base, i), level - 1),
    decreases count,
{
    if i < count - 1 {
        lemma_children_in_bounds_at(disk, base, count - 1, level, i);
    }
}


/// The end, in subtree-local byte coordinates, of the level-1 run that
/// contains local offset `inner` of the subtree `(span, level)`: a single
/// read starting inside a run is never served past this point.
pub open spec fn spec_run_end_in_child(disk: Seq<u8>, span: VolumeSpan, level: int, inner: int) -> int
    decreases level, 1int, 0int,
{
    if level <= 1 {
        span.extent * 1024
    } else {
        spec_run_end_in_node(disk, span.base_sector, span.extent * 32, level, inner)
    }
}

/// The run end for local offset `inner` within the concatenation of the
/// first `count` children of an interior node at depth `level`.
pub open spec fn spec_run_end_in_node(
    disk: Seq<u8>,
    base: u128,
    count: int,
    level: int,
    inner: int,
) -> int
    decreases level, 0int, count,
{
    if count <= 0 || level <= 1 {
        inner
    } else {
        let prev = spec_children_bytes(disk, base, count - 1, level).len() as int;
        if inner < prev {
            spec_run_end_in_node(disk, base, count - 1, level, inner)
        } else {
            prev + spec_run_end_in_child(
                disk,
                spec_span_at(disk, base, count - 1),
                level - 1,
                inner - prev,
            )
        }
    }
}

/// For an offset lying under child `i`, the node's run end is the child's
/// run end shifted by the bytes of the children before it.
pub proof fn lemma_run_end_locate(
    disk: Seq<u8>,
    base: u128,
    count: int,
    level: int,
    i: int,
    inner: int,
)
    requires
        level >= 2,
        0 <= i < count,
        spec_children_bytes(disk, base, i, level).len() <= inner < spec_children_bytes(
            disk,
            base,
            i + 1,
            level,
        ).len(),
    ensures
        spec_run_end_in_node(disk, base, count, level, inner) == spec_children_bytes(
            disk,
            base,
            i,
            level,
        ).len() + spec_run_end_in_child(
            disk,
            spec_span_at(disk, base, i),
            level - 1,
            inner - spec_children_bytes(disk, base, i, level).len(),
        ),
    decreases count,
{
    if i < count - 1 {
        lemma_children_prefix(disk, base, i + 1, count - 1, level);
        lemma_run_end_locate(disk, base, count - 1, level, i, inner);
    }
}

/// The root of an indirection chain of level two or more is treated as a
/// span of unbounded extent: its array is bounded only by the stream's
/// logical length.
pub open spec fn spec_root_span(base: u128) -> VolumeSpan {
    VolumeSpan { base_sector: base, extent: 0xFFFFFFFFFFFFFFFFu64, reserved: 0 }
}

/// The logical bytes of a stream body `(base, indirection, len)`: at level
/// 1 the `len` bytes at sector `base`; at deeper levels the depth-first
/// concatenation of the span tree's runs, truncated to `len`.
pub open spec fn spec_stream_content(disk: Seq<u8>, base: u128, indirection: int, len: u64) -> Seq<
    u8,
> {
    if indirection <= 1 {
        bytes_at(disk, base * 1024, len as nat)
    } else {
        let t = spec_child_bytes(disk, spec_root_span(base), indirection);
        if t.len() <= len {
            t
        } else {
            t.take(len as int)
        }
    }
}

/// The content of a listed stream: inline bytes (up to the recorded size,
/// clamped to the 32-byte inline area) at indirection 0, else the stream
/// body the listing points at.
pub open spec fn spec_listing_content(disk: Seq<u8>, l: StreamListing) -> Seq<u8> {
    if l.flags.spec_indirection() == 0 {
        if l.size <= 32 {
            l.inline_data@.take(l.size as int)
        } else {
            l.inline_data@
        }
    } else {
        spec_stream_content(disk, l.content_ref, l.flags.spec_indirection() as int, l.size)
    }
}

/// The stream-listing array of an object, as bytes.
pub open spec fn spec_obj_streams_content(disk: Seq<u8>, obj: Object) -> Seq<u8> {
    spec_stream_content(disk, obj.streams_ref, obj.streams_indirection as int, obj.streams_size)
}

} // verus!
