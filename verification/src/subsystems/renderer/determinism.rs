//! The CPU manifest does not depend on the order in which instances were
//! extracted: its sorted instances and its batches are functions of the set
//! of instances alone.
use vstd::prelude::*;
use vstd::multiset::Multiset;

use crate::subsystems::renderer::frame::{
    batch_end, batches_cover, draw_order_le, same_draw, sorted_for_draw, DrawBatch,
    RenderInstance,
};

verus! {

broadcast use {
    vstd::seq_lib::to_multiset_contains,
    vstd::seq_lib::to_multiset_remove,
    vstd::seq_lib::to_multiset_len,
};

/// No two different instances in `m` belong to the same entity.
pub open spec fn one_instance_per_entity(m: Multiset<RenderInstance>) -> bool {
    forall|x: RenderInstance, y: RenderInstance|
        #[trigger] m.contains(x) && #[trigger] m.contains(y) && x.entity == y.entity ==> x == y
}

/// Draw order ties only on the same entity.
proof fn lemma_draw_order_tie(a: RenderInstance, b: RenderInstance)
    requires
        draw_order_le(a, b),
        draw_order_le(b, a),
    ensures
        a.entity == b.entity,
{
}

/// Two sequences sorted for drawing that hold the same instances, at most
/// one per entity, are the same sequence.
proof fn lemma_sorted_permutations_equal(s1: Seq<RenderInstance>, s2: Seq<RenderInstance>)
    requires
        s1.to_multiset() == s2.to_multiset(),
        one_instance_per_entity(s1.to_multiset()),
        sorted_for_draw(s1),
        sorted_for_draw(s2),
    ensures
        s1 == s2,
    decreases s1.len(),
{
    assert(s1.len() == s2.len()) by {
        assert(s1.len() == s1.to_multiset().len());
        assert(s2.len() == s2.to_multiset().len());
    }
    if s1.len() == 0 {
        assert(s1 =~= s2);
    } else {
        let a = s1[0];
        let b = s2[0];
        let m = s1.to_multiset();
        assert(s2.contains(b));
        assert(s2.to_multiset().count(b) > 0);
        assert(s1.contains(b));
        let k = choose|k: int| 0 <= k < s1.len() && s1[k] == b;
        if k > 0 {
            assert(draw_order_le(s1[0], s1[k]));
        }
        assert(draw_order_le(a, b));
        assert(s1.contains(a));
        assert(s1.to_multiset().count(a) > 0);
        assert(s2.contains(a));
        let j = choose|j: int| 0 <= j < s2.len() && s2[j] == a;
        if j > 0 {
            assert(draw_order_le(s2[0], s2[j]));
        }
        assert(draw_order_le(b, a));
        lemma_draw_order_tie(a, b);
        assert(m.contains(a) && m.contains(b));
        assert(a == b);
        let r1 = s1.remove(0);
        let r2 = s2.remove(0);
        assert(r1.to_multiset() == m.remove(a));
        assert(r2.to_multiset() == s2.to_multiset().remove(b));
        assert forall|x: RenderInstance, y: RenderInstance|
            #[trigger] r1.to_multiset().contains(x) && #[trigger] r1.to_multiset().contains(y) && x.entity
                == y.entity implies x == y by {
            assert(m.contains(x) && m.contains(y));
        }
        assert forall|p: int, q: int| 0 <= p < q < r1.len() implies draw_order_le(
            #[trigger] r1[p],
            #[trigger] r1[q],
        ) by {
            assert(r1[p] == s1[p + 1] && r1[q] == s1[q + 1]);
        }
        assert forall|p: int, q: int| 0 <= p < q < r2.len() implies draw_order_le(
            #[trigger] r2[p],
            #[trigger] r2[q],
        ) by {
            assert(r2[p] == s2[p + 1] && r2[q] == s2[q + 1]);
        }
        lemma_sorted_permutations_equal(r1, r2);
        assert(s1 =~= s2) by {
            assert forall|p: int| 0 <= p < s1.len() implies s1[p] == s2[p] by {
                if p > 0 {
                    assert(s1[p] == r1[p - 1] && s2[p] == r2[p - 1]);
                }
            }
        }
    }
}

/// Every batch of a covering starts before the end of the covered prefix.
proof fn lemma_cover_batches_start_inside(s: Seq<RenderInstance>, b: Seq<DrawBatch>, n: int, k: int)
    requires
        batches_cover(s, b, n),
        0 <= k < b.len(),
    ensures
        b[k].first_instance < n,
        batch_end(b[k]) <= n,
    decreases b.len() - k,
{
    assert(b[k].instance_count > 0);
    if k + 1 < b.len() {
        lemma_cover_batches_start_inside(s, b, n, k + 1);
        assert(batch_end(b[k]) == b[k + 1].first_instance);
    } else {
        assert(b[k] == b.last());
    }
}

/// Two coverings of the same instances agree on their first `k` batches.
proof fn lemma_covers_agree_prefix(
    s: Seq<RenderInstance>,
    b1: Seq<DrawBatch>,
    b2: Seq<DrawBatch>,
    n: int,
    k: int,
)
    requires
        n <= s.len(),
        batches_cover(s, b1, n),
        batches_cover(s, b2, n),
        0 <= k <= b1.len(),
        k <= b2.len(),
    ensures
        forall|j: int| 0 <= j < k ==> b1[j] == b2[j],
    decreases k,
{
    if k > 0 {
        lemma_covers_agree_prefix(s, b1, b2, n, k - 1);
        let j = k - 1;
        let f = if j == 0 {
            0
        } else {
            batch_end(b1[j - 1])
        };
        if j > 0 {
            assert(b1[j - 1] == b2[j - 1]);
            assert(batch_end(b1[j - 1]) == b1[j].first_instance);
            assert(batch_end(b2[j - 1]) == b2[j].first_instance);
        }
        assert(b1[j].first_instance == f && b2[j].first_instance == f);
        lemma_cover_batches_start_inside(s, b1, n, j);
        lemma_cover_batches_start_inside(s, b2, n, j);
        let e1 = batch_end(b1[j]);
        let e2 = batch_end(b2[j]);
        // The batches' keys are those of their first instance.
        assert(b1[j].first_instance <= f < e1);
        assert(s[f].mesh_id == b1[j].mesh_id && s[f].material_id == b1[j].material_id);
        assert(b2[j].first_instance <= f < e2);
        assert(s[f].mesh_id == b2[j].mesh_id && s[f].material_id == b2[j].material_id);
        if e1 < e2 {
            // `e1` ends batch `j` of `b1`, so a new run starts there; yet both
            // sides of it lie inside batch `j` of `b2`.
            assert(j + 1 < b1.len());
            assert(b1[j + 1].first_instance == e1);
            lemma_cover_batches_start_inside(s, b1, n, j + 1);
            assert(b1[j + 1].first_instance <= e1 < batch_end(b1[j + 1]));
            assert(s[e1].mesh_id == b1[j + 1].mesh_id && s[e1].material_id == b1[j + 1].material_id);
            assert(b2[j].first_instance <= e1 < e2);
            assert(s[e1].mesh_id == b2[j].mesh_id && s[e1].material_id == b2[j].material_id);
            assert(false);
        }
        if e2 < e1 {
            assert(j + 1 < b2.len());
            assert(b2[j + 1].first_instance == e2);
            lemma_cover_batches_start_inside(s, b2, n, j + 1);
            assert(b2[j + 1].first_instance <= e2 < batch_end(b2[j + 1]));
            assert(s[e2].mesh_id == b2[j + 1].mesh_id && s[e2].material_id == b2[j + 1].material_id);
            assert(b1[j].first_instance <= e2 < e1);
            assert(s[e2].mesh_id == b1[j].mesh_id && s[e2].material_id == b1[j].material_id);
            assert(false);
        }
        assert(b1[j] == b2[j]);
    }
}

/// The batches covering a sequence of instances are unique.
proof fn lemma_cover_unique(s: Seq<RenderInstance>, b1: Seq<DrawBatch>, b2: Seq<DrawBatch>, n: int)
    requires
        n <= s.len(),
        batches_cover(s, b1, n),
        batches_cover(s, b2, n),
    ensures
        b1 == b2,
{
    if b1.len() <= b2.len() {
        lemma_covers_agree_prefix(s, b1, b2, n, b1.len() as int);
        if b1.len() < b2.len() {
            let k = b1.len() as int;
            if k == 0 {
                assert(n == 0);
                lemma_cover_batches_start_inside(s, b2, n, 0);
            } else {
                assert(b1[k - 1] == b2[k - 1]);
                assert(batch_end(b1.last()) == n);
                assert(b2[k].first_instance == batch_end(b2[k - 1]));
                lemma_cover_batches_start_inside(s, b2, n, k);
            }
        }
    } else {
        lemma_covers_agree_prefix(s, b1, b2, n, b2.len() as int);
        let k = b2.len() as int;
        if k == 0 {
            assert(n == 0);
            lemma_cover_batches_start_inside(s, b1, n, 0);
        } else {
            assert(b1[k - 1] == b2[k - 1]);
            assert(batch_end(b2.last()) == n);
            assert(b1[k].first_instance == batch_end(b1[k - 1]));
            lemma_cover_batches_start_inside(s, b1, n, k);
        }
    }
    assert(b1 =~= b2);
}

/// Building the manifest is deterministic: two render worlds holding the
/// same instances (at most one per entity), in whatever order they were
/// extracted, give the same sorted instances and the same batches. The
/// premises are what `CpuRenderManifest::build` ensures on success.
pub proof fn lemma_manifest_is_order_independent(
    world_a: Seq<RenderInstance>,
    world_b: Seq<RenderInstance>,
    instances_a: Seq<RenderInstance>,
    batches_a: Seq<DrawBatch>,
    instances_b: Seq<RenderInstance>,
    batches_b: Seq<DrawBatch>,
)
    requires
        world_a.to_multiset() == world_b.to_multiset(),
        one_instance_per_entity(world_a.to_multiset()),
        instances_a.to_multiset() == world_a.to_multiset(),
        sorted_for_draw(instances_a),
        batches_cover(instances_a, batches_a, instances_a.len() as int),
        instances_b.to_multiset() == world_b.to_multiset(),
        sorted_for_draw(instances_b),
        batches_cover(instances_b, batches_b, instances_b.len() as int),
    ensures
        instances_a == instances_b,
        batches_a == batches_b,
{
    lemma_sorted_permutations_equal(instances_a, instances_b);
    lemma_cover_unique(instances_a, batches_a, batches_b, instances_a.len() as int);
}

} // verus!
