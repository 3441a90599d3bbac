//! Laws of the allocator that relate several operations, proved from the
//! operations' contracts and the allocator's invariant.

use vstd::prelude::*;

use crate::compressor::{generate_step, take_step, IdCompressor, IdRange};
use crate::id_types::{AllocatorError, SessionSpaceId, StableId};
use crate::session_space::{lemma_chain_cluster_bounds, ClusterRef};
use crate::uuid_space::{lemma_pred_exists, lemma_uuid_sorted};

verus! {

/// Law: every cluster's finalized count stays within its capacity, its base
/// generation count is positive, and its base final ID is non-negative.
pub proof fn lemma_cluster_bounds(c: IdCompressor, x: ClusterRef)
    requires
        c.wf(),
        c.sessions.valid_cref(x),
    ensures
        c.sessions.cluster_at(x).count <= c.sessions.cluster_at(x).capacity,
        c.sessions.cluster_at(x).base_gen() >= 1,
        c.sessions.cluster_at(x).base_final_id.id >= 0,
{
    let s = c.sessions.table()[x.session_space_ref.index as int];
    assert(s.wf());
    assert(s.chain()[x.cluster_index as int].wf());
    lemma_chain_cluster_bounds(s, x.cluster_index as int);
}

/// Law: within a session, the cluster chain is gapless in local-ID space:
/// each cluster starts where the previous one's reserved capacity ends.
pub proof fn lemma_chain_gapless(c: IdCompressor, si: int, j: int)
    requires
        c.wf(),
        c.sessions.valid_sref(si),
        0 <= j < c.sessions.table()[si].chain().len() - 1,
    ensures
        c.sessions.table()[si].chain()[j + 1].base_gen() == c.sessions.table()[si].chain()[j].base_gen()
            + c.sessions.table()[si].chain()[j].capacity,
{
    assert(c.sessions.table()[si].wf());
}

/// Law: the final space is gapless and monotone: each cluster's base final ID
/// is the previous cluster's base plus its reserved capacity, starting at 0.
pub proof fn lemma_final_space_gapless(c: IdCompressor, k: int)
    requires
        c.wf(),
        0 <= k < c.final_space.refs().len() - 1,
    ensures
        c.sessions.cluster_at(c.final_space.refs()[k + 1]).base_final_id.id == c.sessions.cluster_at(
            c.final_space.refs()[k],
        ).base_final_id.id + c.sessions.cluster_at(c.final_space.refs()[k]).capacity,
        c.sessions.cluster_at(c.final_space.refs()[0]).base_final_id.id == 0,
{
}

/// Law: clusters of distinct sessions never overlap in stable space.
pub proof fn lemma_no_stable_overlap(c: IdCompressor, x: ClusterRef, y: ClusterRef)
    requires
        c.wf(),
        c.sessions.valid_cref(x),
        c.sessions.valid_cref(y),
        x.session_space_ref != y.session_space_ref,
    ensures
        c.sessions.cluster_max_stable(x) < c.sessions.cluster_base_stable(y)
            || c.sessions.cluster_max_stable(y) < c.sessions.cluster_base_stable(x),
{
}

/// Law: the cached final-ID limit is one past the finalized count of the
/// final space's tail cluster, and 0 while nothing is finalized.
pub proof fn lemma_final_id_limit(c: IdCompressor)
    requires
        c.wf(),
    ensures
        c.final_space.refs().len() > 0 ==> c.final_id_limit.id == c.sessions.cluster_at(
            c.final_space.refs().last(),
        ).base_final_id.id + c.sessions.cluster_at(c.final_space.refs().last()).count,
        c.final_space.refs().len() == 0 ==> c.final_id_limit.id == 0,
{
}

/// Law: the first ID generated before any finalize is the local with
/// generation count one.
pub proof fn lemma_first_generated_is_minus_one(c0: IdCompressor, c1: IdCompressor, r: SessionSpaceId)
    requires
        c0.wf(),
        c0.generated_id_count == 0,
        c0.local_session().chain().len() == 0,
        generate_step(c0, c1, r),
    ensures
        r.id == -1,
{
}

/// Law: a `take_next_range` made immediately after another returns no range;
/// the first takes every ID generated so far.
pub proof fn lemma_take_next_range_twice(
    c0: IdCompressor,
    c1: IdCompressor,
    r1: IdRange,
    c2: IdCompressor,
    r2: IdRange,
)
    requires
        c0.wf(),
        take_step(c0, c1, r1),
        take_step(c1, c2, r2),
    ensures
        r2.range is None,
        c2 == c1,
{
}

/// Law: an ID returned by `generate_next_id` decompresses to a stable ID that
/// recompresses to the very same ID, in the state right after generation.
/// This fails only when another session's cluster already covers this
/// session's stable point — a collision in 128-bit space that finalization
/// has not yet had a chance to reject — so that state is left out.
#[verifier::rlimit(100)]
#[verifier::spinoff_prover]
pub proof fn lemma_generate_round_trip(pre: IdCompressor, post: IdCompressor, r: SessionSpaceId)
    requires
        pre.wf(),
        post.wf(),
        pre.generated_id_count < i64::MAX,
        pre.chain_within_generated(),
        generate_step(pre, post, r),
        post.session_id.id + post.generated_id_count <= u128::MAX,
        forall|x: ClusterRef|
            post.sessions.valid_cref(x) && x.session_space_ref.index
                != post.local_session_ref.index ==> !(#[trigger] post.sessions.cluster_base_stable(
                x,
            ) <= post.session_id.id + post.generated_id_count - 1
                <= post.sessions.cluster_max_stable(x)),
    ensures
        post.decompress_spec(r) is Ok,
        ({
            let stable = post.decompress_spec(r)->Ok_0;
            post.recompress_spec(stable.id as int) == Ok::<SessionSpaceId, AllocatorError>(r)
        }),
{
    let g = pre.generated_id_count + 1;
    let sid = post.session_id.id;
    let q = sid + g - 1;
    if pre.next_is_eager_final() {
        let si = post.local_session_ref.index as int;
        let s = post.local_session();
        let chain = s.chain();
        let ci = chain.len() - 1;
        let tail = chain.last();
        assert(s.wf());
        assert(tail.wf());
        assert(tail.base_gen() <= g < tail.end_gen_allocated());
        assert(tail.covers_final(r.id as int));
        crate::compressor::lemma_chain_cover_is_fs_cover(post, si, ci, r.id as int);
        let cref = crate::compressor::cref_at(si, ci);
        assert(post.sessions.cluster_sid(cref) == sid);
        assert(tail.gen_of_final(r.id as int) == g);
        assert(!post.session_space_normalizer.contains_gen(g)) by {
            if post.session_space_normalizer.contains_gen(g) {
                let i = choose|i: int|
                    0 <= i < post.session_space_normalizer.runs().len() && (
                    #[trigger] post.session_space_normalizer.runs()[i]).0.gen() <= g
                        < post.session_space_normalizer.runs()[i].0.gen()
                        + post.session_space_normalizer.runs()[i].1;
                crate::normalizer::lemma_normalizer_run_bound(post.session_space_normalizer, i);
            }
        }
        assert(post.decompress_spec(r) == Ok::<StableId, AllocatorError>(
            StableId { id: q as u128 },
        ));
        // Recompression: the predecessor of `q` in stable space is the tail.
        assert(post.sessions.cluster_base_stable(cref) == sid + tail.base_gen() - 1);
        assert(post.sessions.cluster_base_stable(cref) <= q);
        assert(q < post.sessions.cluster_base_stable(cref) + tail.capacity);
        crate::compressor::lemma_valid_cref_indexed(post, cref);
        let i0 = choose|k: int|
            0 <= k < post.uuid_space.entries().len() && (#[trigger] post.uuid_space.entries()[k]).1
                == cref;
        assert(post.uuid_space.cref(i0) == cref);
        assert(post.uuid_space.key(i0) == post.sessions.cluster_base_stable(cref));
        lemma_pred_exists(post.uuid_space, post.sessions, q, i0);
        let p = choose|p: int| #[trigger] post.uuid_space.is_pred_idx(q, p);
        assert(post.uuid_space.is_pred_idx(q, p));
        let pc = post.uuid_space.cref(p);
        assert(post.sessions.valid_cref(pc) && post.uuid_space.key(p)
            == post.sessions.cluster_base_stable(pc));
        // The tail's entry is at or before the predecessor.
        if i0 > p {
            assert(p < post.uuid_space.entries().len() - 1);
            if p + 1 < i0 {
                lemma_uuid_sorted(post.uuid_space, post.sessions, p + 1, i0);
            }
            assert(post.uuid_space.key(p + 1) <= post.uuid_space.key(i0));
            assert(false);
        }
        // And no entry between them can exist.
        if i0 < p {
            lemma_uuid_sorted(post.uuid_space, post.sessions, i0, p);
            assert(post.sessions.cluster_base_stable(cref) < post.sessions.cluster_base_stable(pc)
                <= q);
            if pc.session_space_ref.index as int == si {
                // A later own cluster would follow the tail in the chain.
                let pci = pc.cluster_index as int;
                assert(0 <= pci < chain.len());
                if pci < ci {
                    crate::session_space::lemma_chain_disjoint(s, pci, ci);
                    assert(chain[pci].wf());
                }
                assert(false);
            } else {
                // A foreign cluster based inside the tail's extent overlaps it.
                assert(post.sessions.cluster_max_stable(pc) >= post.sessions.cluster_base_stable(
                    pc,
                ));
                assert(post.sessions.cluster_max_stable(cref) < post.sessions.cluster_base_stable(
                    pc,
                ) || post.sessions.cluster_max_stable(pc) < post.sessions.cluster_base_stable(
                    cref,
                ));
                assert(false);
            }
        }
        assert(pc == cref);
        assert(q <= post.sessions.cluster_max_stable(cref));
        assert(post.stable_containing_cluster(q as int) == Some(cref));
        assert(post.recompress_spec(q as int) == Ok::<SessionSpaceId, AllocatorError>(
            SessionSpaceId { id: tail.final_of_gen(g) as i64 },
        ));
        assert(r == SessionSpaceId { id: tail.final_of_gen(g) as i64 });
    } else {
        assert(r.id == -g && r.id < 0);
        assert(post.session_space_normalizer.contains_gen(g));
        assert(post.decompress_spec(r) == Ok::<StableId, AllocatorError>(
            StableId { id: q as u128 },
        ));
        match post.stable_containing_cluster(q as int) {
            None => {
                assert(q >= sid && q - sid + 1 == g <= post.generated_id_count);
                assert(post.recompress_spec(q as int) == Ok::<SessionSpaceId, AllocatorError>(
                    SessionSpaceId { id: (-g) as i64 },
                ));
            },
            Some(cref) => {
                let p = choose|p: int| #[trigger] post.uuid_space.is_pred_idx(q as int, p);
                assert(post.uuid_space.is_pred_idx(q as int, p) && cref == post.uuid_space.cref(
                    p,
                ));
                assert(post.sessions.valid_cref(cref));
                assert(post.sessions.cluster_base_stable(cref) <= q
                    <= post.sessions.cluster_max_stable(cref));
                assert(cref.session_space_ref.index == post.local_session_ref.index);
                assert(post.sessions.cluster_sid(cref) == sid);
                assert(post.session_space_normalizer.contains_gen(q - sid + 1));
                assert(post.recompress_spec(q as int) == Ok::<SessionSpaceId, AllocatorError>(
                    SessionSpaceId { id: (-g) as i64 },
                ));
            },
        }
        assert(r == SessionSpaceId { id: (-g) as i64 });
    }
}

/// Two allocators built from one table update agree on their tables.
proof fn lemma_tables_agree(
    pre: IdCompressor,
    post1: IdCompressor,
    post2: IdCompressor,
    sid: crate::id_types::SessionId,
    si: int,
    chain2: Seq<crate::session_space::IdCluster>,
)
    requires
        crate::compressor::table_updated(pre, post1, sid, si, chain2),
        crate::compressor::table_updated(pre, post2, sid, si, chain2),
    ensures
        post1.sessions.table().len() == post2.sessions.table().len(),
        forall|k: int|
            0 <= k < post1.sessions.table().len() ==> (#[trigger] post1.sessions.table()[k]).session_id
                == post2.sessions.table()[k].session_id && post1.sessions.table()[k].chain()
                == post2.sessions.table()[k].chain(),
{
    assert forall|k: int|
        0 <= k < post1.sessions.table().len() implies (#[trigger] post1.sessions.table()[k]).session_id
        == post2.sessions.table()[k].session_id && post1.sessions.table()[k].chain()
        == post2.sessions.table()[k].chain() by {
        if k != si {
            assert(post1.sessions.table()[k] == pre.sessions.table()[k]);
            assert(post2.sessions.table()[k] == pre.sessions.table()[k]);
        }
    }
}

/// A new entry has one sorted position, so two insertions of it into one
/// index agree.
proof fn lemma_uuid_insert_unique(
    pre: crate::uuid_space::UuidSpace,
    a: crate::uuid_space::UuidSpace,
    b: crate::uuid_space::UuidSpace,
    key: int,
    cref: ClusterRef,
)
    requires
        crate::uuid_space::uuid_inserted(pre, a, key, cref),
        crate::uuid_space::uuid_inserted(pre, b, key, cref),
    ensures
        a.entries() == b.entries(),
{
    let e = (crate::id_types::StableId { id: key as u128 }, cref);
    let pa = choose|p: int|
        {
            &&& 0 <= p <= pre.entries().len()
            &&& a.entries() == #[trigger] pre.entries().insert(p, e)
            &&& forall|k: int| 0 <= k < p ==> #[trigger] pre.key(k) < key
            &&& forall|k: int| p <= k < pre.entries().len() ==> #[trigger] pre.key(k) > key
        };
    let pb = choose|p: int|
        {
            &&& 0 <= p <= pre.entries().len()
            &&& b.entries() == #[trigger] pre.entries().insert(p, e)
            &&& forall|k: int| 0 <= k < p ==> #[trigger] pre.key(k) < key
            &&& forall|k: int| p <= k < pre.entries().len() ==> #[trigger] pre.key(k) > key
        };
    if pa < pb {
        assert(pre.key(pa) < key && pre.key(pa) > key);
    } else if pb < pa {
        assert(pre.key(pb) < key && pre.key(pb) > key);
    }
}

/// Two allocators whose tables agree pointwise and whose indices hold the
/// same references agree on all cluster records.
proof fn lemma_records_eq(a: IdCompressor, b: IdCompressor)
    requires
        a.inv_structural(),
        a.final_space.refs() == b.final_space.refs(),
        a.uuid_space.entries() == b.uuid_space.entries(),
        a.sessions.table().len() == b.sessions.table().len(),
        forall|k: int|
            0 <= k < a.sessions.table().len() ==> (#[trigger] a.sessions.table()[k]).session_id
                == b.sessions.table()[k].session_id && a.sessions.table()[k].chain()
                == b.sessions.table()[k].chain(),
    ensures
        a.final_space.records(a.sessions) == b.final_space.records(b.sessions),
        a.uuid_space.keyed_records(a.sessions) == b.uuid_space.keyed_records(b.sessions),
{
    assert forall|i: int|
        0 <= i < a.final_space.refs().len() implies a.final_space.records(a.sessions)[i]
        == b.final_space.records(b.sessions)[i] by {
        let cref = a.final_space.refs()[i];
        assert(a.sessions.valid_cref(cref));
        assert(a.sessions.table()[cref.session_space_ref.index as int].session_id
            == b.sessions.table()[cref.session_space_ref.index as int].session_id);
    }
    assert(a.final_space.records(a.sessions) =~= b.final_space.records(b.sessions));
    assert forall|i: int|
        0 <= i < a.uuid_space.entries().len() implies a.uuid_space.keyed_records(a.sessions)[i]
        == b.uuid_space.keyed_records(b.sessions)[i] by {
        let cref = a.uuid_space.cref(i);
        assert(a.sessions.valid_cref(cref));
        assert(a.sessions.table()[cref.session_space_ref.index as int].session_id
            == b.sessions.table()[cref.session_space_ref.index as int].session_id);
        assert(b.uuid_space.cref(i) == cref);
    }
    assert(a.uuid_space.keyed_records(a.sessions) =~= b.uuid_space.keyed_records(b.sessions));
}

/// Two well-formed allocators with one final space and pointwise-equal
/// tables cache one final-ID limit.
proof fn lemma_limits_agree(post1: IdCompressor, post2: IdCompressor)
    requires
        post1.wf(),
        post2.wf(),
        post1.final_space.refs() == post2.final_space.refs(),
        post1.final_space.refs().len() > 0,
        post1.sessions.table().len() == post2.sessions.table().len(),
        forall|k: int|
            0 <= k < post1.sessions.table().len() ==> (#[trigger] post1.sessions.table()[k]).session_id
                == post2.sessions.table()[k].session_id && post1.sessions.table()[k].chain()
                == post2.sessions.table()[k].chain(),
    ensures
        post1.final_id_limit == post2.final_id_limit,
{
    let last = post1.final_space.refs().last();
    assert(post1.sessions.valid_cref(last));
    assert(post1.sessions.table()[last.session_space_ref.index as int].chain()
        == post2.sessions.table()[last.session_space_ref.index as int].chain());
    assert(post1.sessions.cluster_at(last) == post2.sessions.cluster_at(last));
}

/// Law: `finalize_range` is deterministic. Two allocators in one state that
/// receive the same range return the same result and agree on all finalized
/// state after, so allocators fed one finalize sequence stay in step.
#[verifier::rlimit(100)]
#[verifier::spinoff_prover]
pub proof fn lemma_finalize_deterministic(
    pre: IdCompressor,
    post1: IdCompressor,
    r1: Result<(), AllocatorError>,
    post2: IdCompressor,
    r2: Result<(), AllocatorError>,
    sid: crate::id_types::SessionId,
    range: Option<(u64, u64)>,
)
    requires
        pre.wf(),
        post1.wf(),
        post2.wf(),
        crate::compressor::finalize_step(pre, post1, sid, range, r1),
        crate::compressor::finalize_step(pre, post2, sid, range, r2),
    ensures
        r1 == r2,
        crate::compressor::finalized_eq(post1, post2),
{
    match range {
        None => {},
        Some((b, c)) => {
            if c == 0 {
            } else {
                let base = sid.id + b - 1;
                let max = base + c + pre.cluster_capacity;
                let chain = pre.session_chain(sid);
                if pre.collision_check(sid, base, max) {
                } else if chain.len() == 0 {
                    if b != 1 {
                        if pre.sessions.has_session(sid) {
                        } else {
                            lemma_tables_agree(
                                pre,
                                post1,
                                post2,
                                sid,
                                pre.sessions.table().len() as int,
                                Seq::empty(),
                            );
                            lemma_records_eq(post1, post2);
                        }
                    } else {
                        let si = pre.session_index_for(sid);
                        let newc = crate::session_space::IdCluster {
                            session_creator: crate::session_space::SessionSpaceRef {
                                index: si as usize,
                            },
                            base_local_id: crate::id_types::LocalId { id: -1i64 },
                            base_final_id: crate::id_types::FinalId { id: pre.fs_end() as u64 },
                            capacity: (pre.cluster_capacity + c) as u64,
                            count: c,
                        };
                        lemma_tables_agree(pre, post1, post2, sid, si, chain.push(newc));
                        lemma_uuid_insert_unique(
                            pre.uuid_space,
                            post1.uuid_space,
                            post2.uuid_space,
                            sid.id as int,
                            crate::compressor::cref_at(si, 0),
                        );
                        lemma_records_eq(post1, post2);
                        assert(post1.final_id_limit == post2.final_id_limit);
                    }
                } else {
                    let si = pre.sessions.index_of(sid);
                    let tail = chain.last();
                    if b != tail.end_gen_finalized() {
                    } else if tail.capacity - tail.count >= c {
                        let tail2 = crate::session_space::IdCluster {
                            count: (tail.count + c) as u64,
                            ..tail
                        };
                        lemma_tables_agree(
                            pre,
                            post1,
                            post2,
                            sid,
                            si,
                            chain.update(chain.len() - 1, tail2),
                        );
                        lemma_records_eq(post1, post2);
                        assert(pre.sessions.valid_sref(si));
                        crate::compressor::lemma_valid_cref_indexed(
                            pre,
                            crate::compressor::cref_at(si, 0),
                        );
                        assert(post1.final_space.refs().len() > 0);
                        lemma_limits_agree(post1, post2);
                    } else if pre.tail_is_global_last(tail) {
                        let claimed = c - (tail.capacity - tail.count) + pre.cluster_capacity;
                        let tail2 = crate::session_space::IdCluster {
                            capacity: (tail.capacity + claimed) as u64,
                            count: (tail.count + c) as u64,
                            ..tail
                        };
                        lemma_tables_agree(
                            pre,
                            post1,
                            post2,
                            sid,
                            si,
                            chain.update(chain.len() - 1, tail2),
                        );
                        lemma_records_eq(post1, post2);
                        assert(pre.sessions.valid_sref(si));
                        crate::compressor::lemma_valid_cref_indexed(
                            pre,
                            crate::compressor::cref_at(si, 0),
                        );
                        assert(post1.final_space.refs().len() > 0);
                        lemma_limits_agree(post1, post2);
                    } else {
                        let remaining = tail.capacity - tail.count;
                        let overflow = c - remaining;
                        let claimed = overflow + pre.cluster_capacity;
                        let tail2 = crate::session_space::IdCluster { count: tail.capacity, ..tail };
                        let newc = crate::session_space::IdCluster {
                            session_creator: crate::session_space::SessionSpaceRef {
                                index: si as usize,
                            },
                            base_local_id: crate::id_types::LocalId {
                                id: (tail.base_local_id.id - tail.capacity) as i64,
                            },
                            base_final_id: crate::id_types::FinalId { id: pre.fs_end() as u64 },
                            capacity: claimed as u64,
                            count: overflow as u64,
                        };
                        lemma_tables_agree(
                            pre,
                            post1,
                            post2,
                            sid,
                            si,
                            chain.update(chain.len() - 1, tail2).push(newc),
                        );
                        lemma_uuid_insert_unique(
                            pre.uuid_space,
                            post1.uuid_space,
                            post2.uuid_space,
                            sid.id + tail.base_gen() + tail.capacity - 1,
                            crate::compressor::cref_at(si, chain.len() as int),
                        );
                        lemma_records_eq(post1, post2);
                        assert(pre.sessions.valid_sref(si));
                        crate::compressor::lemma_valid_cref_indexed(
                            pre,
                            crate::compressor::cref_at(si, 0),
                        );
                        assert(post1.final_space.refs().len() > 0);
                        lemma_limits_agree(post1, post2);
                    }
                }
            }
        },
    }
}

/// Law: normalizing a finalized session-space ID to op space does not change
/// what it decompresses to. A local counts as finalized when a cluster of
/// this session covers its slot's finalized extent.
pub proof fn lemma_normalize_preserves_decompress(c: IdCompressor, id: SessionSpaceId)
    requires
        c.wf(),
        id.wf(),
        id.is_local_spec() ==> c.session_space_normalizer.contains_gen(-(id.id as int))
            && c.local_session().some_cluster_covers(-(id.id as int), false),
        id.is_local_spec() ==> c.session_id.id + c.generated_id_count <= u128::MAX,
    ensures
        c.normalize_to_op_space_spec(id) is Ok,
        ({
            let o = c.normalize_to_op_space_spec(id)->Ok_0;
            c.decompress_spec(SessionSpaceId { id: o.id }) == c.decompress_spec(id)
        }),
{
    if id.is_local_spec() {
        let g = -(id.id as int);
        let si = c.local_session_ref.index as int;
        let s = c.local_session();
        let chain = s.chain();
        assert(s.wf());
        let j = choose|j: int| 0 <= j < chain.len() && (#[trigger] chain[j]).covers_gen(g, false);
        assert(chain[j].wf());
        let o = c.normalize_to_op_space_spec(id)->Ok_0;
        let f = chain[j].final_of_gen(g);
        assert(o.id == f);
        assert(0 <= f <= i64::MAX);
        assert(chain[j].covers_final(f));
        crate::compressor::lemma_chain_cover_is_fs_cover(c, si, j, f);
        let cref = crate::compressor::cref_at(si, j);
        assert(c.some_fs_cluster_covers(f));
        assert(c.fs_cluster_covering(f) == cref);
        assert(c.sessions.cluster_at(cref) == chain[j]);
        assert(c.sessions.cluster_sid(cref) == c.session_id.id);
        assert(chain[j].gen_of_final(f) == g);
        assert(g < chain[j].base_gen() + chain[j].count);
        let fid = SessionSpaceId { id: f as i64 };
        assert(!fid.is_local_spec());
        assert(c.decompress_spec(fid) == Ok::<StableId, AllocatorError>(
            StableId { id: (c.session_id.id + g - 1) as u128 },
        ));
        assert(c.decompress_spec(id) == Ok::<StableId, AllocatorError>(
            StableId { id: (c.session_id.id + g - 1) as u128 },
        ));
        assert(SessionSpaceId { id: o.id } == fid);
    } else {
        assert(c.normalize_to_op_space_spec(id) == Ok::<
            crate::id_types::OpSpaceId,
            AllocatorError,
        >(crate::id_types::OpSpaceId { id: id.id }));
    }
}

} // verus!
