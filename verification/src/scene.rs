//! Scenes: the crumbs and groups of an illustration, and the layers that
//! stack its top-level groups.
use vstd::prelude::*;
use kurbo::{Arc, Circle, Line, Rect, RoundedRect, Size, TranslateScale};
use crate::crumb::{Crumb, CrumbId, CrumbItem};
use crate::error::{InnerError, VisError};
use crate::geometry::{compose, ts_product};
use crate::group::{Group, GroupId, GroupItem, GroupView, identity_items};
use crate::style::StyleId;

verus! {

/// A top-level group of a scene, with its visibility and stacking index.
#[derive(Clone, Copy, PartialEq, Eq, Structural, Debug)]
pub struct Layer {
    pub group_id: GroupId,
    pub is_visible: bool,
    pub z_index: i64,
}

impl Layer {
    /// A visible layer at stacking index zero.
    pub fn new(group_id: GroupId) -> (l: Self)
        ensures
            l == (Layer { group_id, is_visible: true, z_index: 0 }),
    {
        Layer { group_id, is_visible: true, z_index: 0 }
    }
}

/// A scene: its size, its crumbs and groups (each found by its index),
/// and its layers.
#[derive(Clone, Debug)]
pub struct Scene {
    size: Size,
    crumbs: Vec<Crumb>,
    groups: Vec<Group>,
    layers: Vec<Layer>,
}

/// What a scene is, as contracts see it.
pub struct SceneView {
    pub size: Size,
    pub crumbs: Seq<Crumb>,
    pub groups: Seq<GroupView>,
    pub layers: Seq<Layer>,
}

/// The views of a list of groups.
pub open spec fn group_views(groups: Seq<Group>) -> Seq<GroupView> {
    groups.map_values(|g: Group| g@)
}

impl View for Scene {
    type V = SceneView;

    closed spec fn view(&self) -> SceneView {
        SceneView {
            size: self.size,
            crumbs: self.crumbs@,
            groups: group_views(self.groups@),
            layers: self.layers@,
        }
    }
}

/// The index of the first layer showing group `group_id`, or the number of
/// layers where none does.
pub open spec fn layer_index(layers: Seq<Layer>, group_id: GroupId) -> int
    decreases layers.len(),
{
    if layers.len() == 0 {
        0
    } else if layers[0].group_id == group_id {
        0
    } else {
        1 + layer_index(layers.drop_first(), group_id)
    }
}

proof fn lemma_layer_index(layers: Seq<Layer>, group_id: GroupId)
    ensures
        0 <= layer_index(layers, group_id) <= layers.len(),
        layer_index(layers, group_id) < layers.len() ==> layers[layer_index(layers, group_id)].group_id
            == group_id,
        forall|i: int| 0 <= i < layer_index(layers, group_id) ==> layers[i].group_id != group_id,
    decreases layers.len(),
{
    if layers.len() > 0 && layers[0].group_id != group_id {
        lemma_layer_index(layers.drop_first(), group_id);
        assert forall|i: int| 0 <= i < layer_index(layers, group_id) implies layers[i].group_id
            != group_id by {
            if i > 0 {
                assert(layers[i] == layers.drop_first()[i - 1]);
            }
        }
    }
}

/// Two layer lists that show the same groups in the same places find a
/// group at the same index.
proof fn lemma_layer_index_same(a: Seq<Layer>, b: Seq<Layer>, group_id: GroupId)
    requires
        a.len() == b.len(),
        forall|i: int| 0 <= i < a.len() ==> #[trigger] a[i].group_id == b[i].group_id,
    ensures
        layer_index(a, group_id) == layer_index(b, group_id),
    decreases a.len(),
{
    if a.len() > 0 {
        assert(a[0].group_id == b[0].group_id);
        assert forall|i: int| 0 <= i < a.len() - 1 implies #[trigger] a.drop_first()[i].group_id == b.drop_first()[i].group_id by {
            assert(a[i + 1].group_id == b[i + 1].group_id);
        }
        lemma_layer_index_same(a.drop_first(), b.drop_first(), group_id);
    }
}

/// Layer `a` is stacked above layer `b`: it has the higher stacking index,
/// or the same one and came first.
pub open spec fn above(layers: Seq<Layer>, a: int, b: int) -> bool {
    layers[a].z_index > layers[b].z_index || (layers[a].z_index == layers[b].z_index && a < b)
}

/// `order` lists the indices of all of `layers` from the top of the stack
/// down: higher stacking indices first, layers of equal index in the order
/// they were added.
pub open spec fn is_stacking_order(layers: Seq<Layer>, order: Seq<int>) -> bool {
    &&& order.len() == layers.len()
    &&& forall|i: int| 0 <= i < order.len() ==> 0 <= #[trigger] order[i] < layers.len()
    &&& forall|i: int, j: int| 0 <= i < j < order.len() ==> above(layers, #[trigger] order[i], #[trigger] order[j])
}

/// A stacking order lists every layer: each index below the number of
/// layers occurs in it.
proof fn lemma_stacking_order_covers(layers: Seq<Layer>, order: Seq<int>, a: int)
    requires
        is_stacking_order(layers, order),
        0 <= a < layers.len(),
    ensures
        order.contains(a),
{
    assert(order.no_duplicates()) by {
        assert forall|i: int, j: int| 0 <= i < order.len() && 0 <= j < order.len() && i != j implies order[i] != order[j] by {
            if i < j {
                assert(above(layers, order[i], order[j]));
            } else {
                assert(above(layers, order[j], order[i]));
            }
        }
    }
    order.unique_seq_to_set();
    let range = vstd::set_lib::set_int_range(0, layers.len() as int);
    vstd::set_lib::lemma_int_range(0, layers.len() as int);
    assert(order.to_set().subset_of(range)) by {
        assert forall|x: int| order.to_set().contains(x) implies range.contains(x) by {
            let i = choose|i: int| 0 <= i < order.len() && order[i] == x;
            assert(0 <= order[i] < layers.len());
        }
    }
    vstd::seq_lib::seq_to_set_is_finite(order);
    vstd::set_lib::lemma_subset_equality(order.to_set(), range);
    assert(range.contains(a));
    assert(order.to_set().contains(a));
}

/// The stacking order of a list of layers is unique: any two orders that
/// list all layers from the top of the stack down are the same, so the
/// layers are always listed alike.
pub proof fn law_stacking_order_unique(layers: Seq<Layer>, o1: Seq<int>, o2: Seq<int>)
    requires
        is_stacking_order(layers, o1),
        is_stacking_order(layers, o2),
    ensures
        o1 == o2,
{
    assert forall|i: int| 0 <= i < o1.len() implies o1[i] == o2[i] by {
        lemma_stacking_positions_agree(layers, o1, o2, i);
    }
    assert(o1 =~= o2);
}

/// A stacking order (what `get_layers` lists) is a permutation of the
/// layers sorted by stacking index, highest first, layers of equal index
/// in the order they were added: every layer occurs in it exactly once.
pub proof fn law_stacking_order_sorts_layers(layers: Seq<Layer>, order: Seq<int>)
    requires
        is_stacking_order(layers, order),
    ensures
        forall|a: int| 0 <= a < layers.len() ==> #[trigger] order.contains(a),
        order.no_duplicates(),
        forall|i: int, j: int|
            0 <= i < j < order.len() ==> layers[#[trigger] order[i]].z_index >= layers[#[trigger] order[j]].z_index,
        forall|i: int, j: int|
            0 <= i < j < order.len() && layers[#[trigger] order[i]].z_index == layers[#[trigger] order[j]].z_index
                ==> order[i] < order[j],
{
    assert forall|a: int| 0 <= a < layers.len() implies #[trigger] order.contains(a) by {
        lemma_stacking_order_covers(layers, order, a);
    }
    assert forall|i: int, j: int| 0 <= i < order.len() && 0 <= j < order.len() && i != j implies order[i] != order[j] by {
        if i < j {
            assert(above(layers, order[i], order[j]));
        } else {
            assert(above(layers, order[j], order[i]));
        }
    }
    assert forall|i: int, j: int| 0 <= i < j < order.len() implies layers[#[trigger] order[i]].z_index >= layers[#[trigger] order[j]].z_index by {
        assert(above(layers, order[i], order[j]));
    }
}

/// Two stacking orders agree at each position, by induction on it.
proof fn lemma_stacking_positions_agree(layers: Seq<Layer>, o1: Seq<int>, o2: Seq<int>, i: int)
    requires
        is_stacking_order(layers, o1),
        is_stacking_order(layers, o2),
        0 <= i < o1.len(),
    ensures
        o1[i] == o2[i],
    decreases i,
{
    assert forall|j: int| 0 <= j < i implies #[trigger] o1[j] == o2[j] by {
        lemma_stacking_positions_agree(layers, o1, o2, j);
    }
    let a = o1[i];
    let b = o2[i];
    if a != b {
        assert(0 <= a < layers.len());
        assert(0 <= b < layers.len());
        if above(layers, a, b) {
            lemma_stacking_order_covers(layers, o2, a);
            let p = choose|p: int| 0 <= p < o2.len() && o2[p] == a;
            if p < i {
                assert(o1[p] == o2[p]);
                assert(above(layers, o1[p], o1[i]));
            } else {
                assert(p != i);
                assert(above(layers, o2[i], o2[p]));
            }
        } else {
            assert(above(layers, b, a));
            lemma_stacking_order_covers(layers, o1, b);
            let p = choose|p: int| 0 <= p < o1.len() && o1[p] == b;
            if p < i {
                assert(o2[p] == o1[p]);
                assert(above(layers, o2[p], o2[i]));
            } else {
                assert(p != i);
                assert(above(layers, o1[i], o1[p]));
            }
        }
    }
}

/// The number of visible layers among the first `i`.
pub open spec fn visible_before(layers: Seq<Layer>, i: int) -> int {
    visible(layers.take(i)).len() as int
}

/// The layer indices of `order` whose layers are visible, in order.
pub open spec fn visible_indices(layers: Seq<Layer>, order: Seq<int>) -> Seq<int>
    decreases order.len(),
{
    if order.len() == 0 {
        Seq::empty()
    } else {
        (if layers[order[0]].is_visible {
            seq![order[0]]
        } else {
            Seq::empty()
        }) + visible_indices(layers, order.drop_first())
    }
}

/// `s` lists layer indices from the top of the stack down.
pub open spec fn sorted_above(layers: Seq<Layer>, s: Seq<int>) -> bool {
    forall|i: int, j: int| 0 <= i < j < s.len() ==> above(layers, #[trigger] s[i], #[trigger] s[j])
}

/// The visible layers of the first `j` are those of the first `i`, then
/// those between.
proof fn lemma_visible_prefix(layers: Seq<Layer>, i: int, j: int)
    requires
        0 <= i <= j <= layers.len(),
    ensures
        visible(layers.take(i)).len() <= visible(layers.take(j)).len(),
        forall|k: int| 0 <= k < visible(layers.take(i)).len() ==> #[trigger] visible(layers.take(j))[k] == visible(layers.take(i))[k],
    decreases j - i,
{
    reveal(Seq::filter);
    if i < j {
        lemma_visible_prefix(layers, i, j - 1);
        assert(layers.take(j).drop_last() =~= layers.take(j - 1));
    }
}

/// A visible layer is found among the visible layers at the count of
/// visible layers before it.
proof fn lemma_visible_at(layers: Seq<Layer>, i: int)
    requires
        0 <= i < layers.len(),
        layers[i].is_visible,
    ensures
        visible_before(layers, i) < visible(layers).len(),
        visible(layers)[visible_before(layers, i)] == layers[i],
        visible_before(layers, i + 1) == visible_before(layers, i) + 1,
{
    reveal(Seq::filter);
    assert(layers.take(i + 1).drop_last() =~= layers.take(i));
    assert(visible(layers.take(i + 1)) == visible(layers.take(i)).push(layers[i]));
    lemma_visible_prefix(layers, i + 1, layers.len() as int);
    assert(layers.take(layers.len() as int) =~= layers);
}

/// Counting visible layers never goes down, and goes up past a visible one.
proof fn lemma_visible_before_grows(layers: Seq<Layer>, i: int, j: int)
    requires
        0 <= i < j <= layers.len(),
    ensures
        visible_before(layers, i) <= visible_before(layers, j),
        layers[i].is_visible ==> visible_before(layers, i) < visible_before(layers, j),
{
    lemma_visible_prefix(layers, i + 1, j);
    reveal(Seq::filter);
    assert(layers.take(i + 1).drop_last() =~= layers.take(i));
}

/// Each visible layer is found at some count: the index of the `k`-th
/// visible layer.
proof fn lemma_visible_index(layers: Seq<Layer>, k: int) -> (i: int)
    requires
        0 <= k < visible(layers).len(),
    ensures
        0 <= i < layers.len(),
        layers[i].is_visible,
        visible_before(layers, i) == k,
    decreases layers.len(),
{
    reveal(Seq::filter);
    let n = layers.len() as int;
    assert(layers.take(n) =~= layers);
    let front = layers.drop_last();
    if layers.last().is_visible && k == visible(front).len() {
        assert(front =~= layers.take(n - 1));
        n - 1
    } else {
        assert(k < visible(front).len());
        let i = lemma_visible_index(front, k);
        assert(front.take(i) =~= layers.take(i));
        i
    }
}

/// The visible indices of an order are those of its layers that are
/// visible.
proof fn lemma_visible_indices(layers: Seq<Layer>, order: Seq<int>)
    ensures
        forall|x: int|
            #![trigger visible_indices(layers, order).contains(x)]
            #![trigger order.contains(x)]
            visible_indices(layers, order).contains(x) <==> order.contains(x) && layers[x].is_visible,
        forall|p: int| 0 <= p < visible_indices(layers, order).len() ==> #[trigger] order.contains(visible_indices(layers, order)[p]),
        sorted_above(layers, order) ==> sorted_above(layers, visible_indices(layers, order)),
    decreases order.len(),
{
    if order.len() > 0 {
        let rest = order.drop_first();
        lemma_visible_indices(layers, rest);
        let head: Seq<int> = if layers[order[0]].is_visible {
            seq![order[0]]
        } else {
            Seq::empty()
        };
        let v = visible_indices(layers, order);
        let vr = visible_indices(layers, rest);
        assert(v == head + vr);
        assert forall|x: int|
            #![trigger v.contains(x)]
            #![trigger order.contains(x)]
            v.contains(x) <==> order.contains(x) && layers[x].is_visible by {
            if v.contains(x) {
                let p = choose|p: int| 0 <= p < v.len() && v[p] == x;
                if p < head.len() {
                    assert(order[0] == x);
                } else {
                    assert(vr[p - head.len()] == x);
                    assert(vr.contains(x));
                    let q = choose|q: int| 0 <= q < rest.len() && rest[q] == x;
                    assert(order[q + 1] == x);
                }
            }
            if order.contains(x) && layers[x].is_visible {
                let q = choose|q: int| 0 <= q < order.len() && order[q] == x;
                if q == 0 {
                    assert(v[0] == x);
                } else {
                    assert(rest[q - 1] == x);
                    assert(rest.contains(x));
                    let p = choose|p: int| 0 <= p < vr.len() && vr[p] == x;
                    assert(v[p + head.len()] == x);
                }
            }
        }
        assert forall|p: int| 0 <= p < v.len() implies #[trigger] order.contains(v[p]) by {
            if p < head.len() {
                assert(order[0] == v[p]);
            } else {
                assert(v[p] == vr[p - head.len()]);
                assert(rest.contains(vr[p - head.len()]));
                let q = choose|q: int| 0 <= q < rest.len() && rest[q] == vr[p - head.len()];
                assert(order[q + 1] == v[p]);
            }
        }
        if sorted_above(layers, order) {
            assert(sorted_above(layers, rest)) by {
                assert forall|i: int, j: int| 0 <= i < j < rest.len() implies above(layers, #[trigger] rest[i], #[trigger] rest[j]) by {
                    assert(above(layers, order[i + 1], order[j + 1]));
                }
            }
            assert forall|i: int, j: int| 0 <= i < j < v.len() implies above(layers, #[trigger] v[i], #[trigger] v[j]) by {
                if i < head.len() {
                    assert(v[i] == order[0]);
                    assert(v[j] == vr[j - head.len()]);
                    assert(rest.contains(vr[j - head.len()]));
                    let q = choose|q: int| 0 <= q < rest.len() && rest[q] == vr[j - head.len()];
                    assert(above(layers, order[0], order[q + 1]));
                } else {
                    assert(v[i] == vr[i - head.len()]);
                    assert(v[j] == vr[j - head.len()]);
                }
            }
        }
    }
}

/// Two lists of layer indices, each from the top of the stack down, that
/// hold the same indices are the same list.
proof fn lemma_sorted_same_members(layers: Seq<Layer>, s1: Seq<int>, s2: Seq<int>, i: int)
    requires
        sorted_above(layers, s1),
        sorted_above(layers, s2),
        forall|x: int| s1.contains(x) <==> s2.contains(x),
        0 <= i < s1.len(),
        i < s2.len(),
    ensures
        s1[i] == s2[i],
    decreases i,
{
    assert forall|j: int| 0 <= j < i implies #[trigger] s1[j] == s2[j] by {
        lemma_sorted_same_members(layers, s1, s2, j);
    }
    let a = s1[i];
    let b = s2[i];
    if a != b {
        assert(s1.contains(a));
        assert(s2.contains(b));
        if above(layers, a, b) {
            assert(s2.contains(a));
            let p = choose|p: int| 0 <= p < s2.len() && s2[p] == a;
            if p < i {
                assert(s1[p] == s2[p]);
                assert(above(layers, s1[p], s1[i]));
            } else {
                assert(p != i);
                assert(above(layers, s2[i], s2[p]));
            }
        } else {
            assert(above(layers, b, a));
            assert(s1.contains(b));
            let p = choose|p: int| 0 <= p < s1.len() && s1[p] == b;
            if p < i {
                assert(s2[p] == s1[p]);
                assert(above(layers, s2[p], s2[i]));
            } else {
                assert(p != i);
                assert(above(layers, s1[i], s1[p]));
            }
        }
    }
}

/// Two lists as in `lemma_sorted_same_members` have the same length.
proof fn lemma_sorted_same_length(layers: Seq<Layer>, s1: Seq<int>, s2: Seq<int>)
    requires
        sorted_above(layers, s1),
        sorted_above(layers, s2),
        forall|x: int| s1.contains(x) <==> s2.contains(x),
    ensures
        s1.len() == s2.len(),
{
    if s1.len() < s2.len() {
        let x = s2[s1.len() as int];
        assert(s2.contains(x));
        assert(s1.contains(x));
        let p = choose|p: int| 0 <= p < s1.len() && s1[p] == x;
        lemma_sorted_same_members(layers, s1, s2, p);
        assert(above(layers, s2[p], s2[s1.len() as int]));
    } else if s2.len() < s1.len() {
        let x = s1[s2.len() as int];
        assert(s1.contains(x));
        assert(s2.contains(x));
        let p = choose|p: int| 0 <= p < s2.len() && s2[p] == x;
        lemma_sorted_same_members(layers, s1, s2, p);
        assert(above(layers, s1[p], s1[s2.len() as int]));
    }
}

/// The index of the `k`-th visible layer.
pub open spec fn visible_index(layers: Seq<Layer>, k: int) -> int {
    choose|i: int| 0 <= i < layers.len() && layers[i].is_visible && visible_before(layers, i) == k
}

/// Hiding layers does not reorder the others: the stacking order of the
/// visible layers lists the groups that the stacking order of all the
/// layers lists for its visible layers, in the same order.
pub proof fn law_visible_stacking_keeps_order(layers: Seq<Layer>, o: Seq<int>, ov: Seq<int>)
    requires
        is_stacking_order(layers, o),
        is_stacking_order(visible(layers), ov),
    ensures
        ids_in_order(visible(layers), ov) == ids_in_order(layers, visible_indices(layers, o)),
{
    let vis = visible(layers);
    let n = layers.len() as int;
    assert forall|k: int| 0 <= k < vis.len() implies {
        let i = #[trigger] visible_index(layers, k);
        0 <= i < n && layers[i].is_visible && visible_before(layers, i) == k && vis[k] == layers[i]
    } by {
        let i = lemma_visible_index(layers, k);
        let j = visible_index(layers, k);
        lemma_visible_at(layers, j);
    }
    let ov_idx = Seq::new(ov.len(), |p: int| visible_index(layers, ov[p]));
    let f = visible_indices(layers, o);
    assert(sorted_above(layers, ov_idx)) by {
        assert forall|p: int, q: int| 0 <= p < q < ov_idx.len() implies above(layers, #[trigger] ov_idx[p], #[trigger] ov_idx[q]) by {
            let a = ov[p];
            let b = ov[q];
            assert(above(vis, a, b));
            let ia = visible_index(layers, a);
            let ib = visible_index(layers, b);
            if ia < ib {
                lemma_visible_before_grows(layers, ia, ib);
            } else if ib < ia {
                lemma_visible_before_grows(layers, ib, ia);
            }
        }
    }
    lemma_visible_indices(layers, o);
    assert(sorted_above(layers, o));
    assert forall|x: int|
        #![trigger ov_idx.contains(x)]
        #![trigger f.contains(x)]
        ov_idx.contains(x) <==> f.contains(x) by {
        if ov_idx.contains(x) {
            let p = choose|p: int| 0 <= p < ov_idx.len() && ov_idx[p] == x;
            assert(0 <= ov[p] < vis.len());
            lemma_stacking_order_covers(layers, o, x);
        }
        if f.contains(x) {
            assert(o.contains(x));
            let q = choose|q: int| 0 <= q < o.len() && o[q] == x;
            assert(0 <= x < n);
            lemma_visible_at(layers, x);
            let k = visible_before(layers, x);
            lemma_stacking_order_covers(vis, ov, k);
            let p = choose|p: int| 0 <= p < ov.len() && ov[p] == k;
            let i = visible_index(layers, k);
            if i < x {
                lemma_visible_before_grows(layers, i, x);
            } else if x < i {
                lemma_visible_before_grows(layers, x, i);
            }
            assert(ov_idx[p] == x);
        }
    }
    lemma_sorted_same_length(layers, ov_idx, f);
    assert forall|p: int| 0 <= p < ov_idx.len() implies ov_idx[p] == f[p] by {
        lemma_sorted_same_members(layers, ov_idx, f, p);
    }
    assert(ids_in_order(vis, ov) =~= ids_in_order(layers, f)) by {
        assert forall|p: int| 0 <= p < ov.len() implies ids_in_order(vis, ov)[p] == ids_in_order(layers, f)[p] by {
            assert(0 <= ov[p] < vis.len());
            assert(ov_idx[p] == f[p]);
        }
    }
}

/// The group ids of the layers listed by `order`.
pub open spec fn ids_in_order(layers: Seq<Layer>, order: Seq<int>) -> Seq<GroupId> {
    order.map_values(|i: int| layers[i].group_id)
}

/// No stacking index is the one that cannot be negated.
pub open spec fn z_negatable(layers: Seq<Layer>) -> bool {
    forall|i: int| 0 <= i < layers.len() ==> #[trigger] layers[i].z_index != i64::MIN
}

/// The visible layers, in the order they were added.
pub open spec fn visible(layers: Seq<Layer>) -> Seq<Layer> {
    layers.filter(|l: Layer| l.is_visible)
}

/// Lists the entries of `e` bottom-up, level by level (see `levels_up`).
fn by_levels(e: &Vec<(usize, GroupId)>) -> (out: Vec<(usize, GroupId)>)
    ensures
        out@ == levels_up(e@, deepest(e@), 1),
{
    let mut top: usize = 0;
    let mut k: usize = 0;
    while k < e.len()
        invariant
            k <= e@.len(),
            top == deepest(e@.subrange(0, k as int)),
        decreases e@.len() - k,
    {
        proof {
            let h = e@.subrange(0, k + 1);
            assert(h.drop_last() =~= e@.subrange(0, k as int));
            assert(h.last() == e@[k as int]);
        }
        if top < e[k].0 {
            top = e[k].0;
        }
        k += 1;
    }
    assert(e@.subrange(0, e@.len() as int) =~= e@);
    let mut out: Vec<(usize, GroupId)> = Vec::new();
    let mut d: usize = top;
    assert(levels_up(e@, top as int, top + 1) =~= Seq::<(usize, GroupId)>::empty());
    while d >= 1
        invariant
            d <= top,
            top == deepest(e@),
            out@ == levels_up(e@, top as int, d + 1),
        decreases d,
    {
        let ghost base = out@;
        let mut k: usize = 0;
        assert(e@.subrange(0, 0) =~= Seq::<(usize, GroupId)>::empty());
        while k < e.len()
            invariant
                1 <= d,
                k <= e@.len(),
                out@ == base + at_level(e@.subrange(0, k as int), d as int),
            decreases e@.len() - k,
        {
            proof {
                let h = e@.subrange(0, k + 1);
                assert(h.drop_last() =~= e@.subrange(0, k as int));
                assert(h.last() == e@[k as int]);
            }
            if e[k].0 == d {
                out.push(e[k]);
            }
            k += 1;
        }
        assert(e@.subrange(0, e@.len() as int) =~= e@);
        assert(levels_up(e@, top as int, d as int) == levels_up(e@, top as int, d + 1) + at_level(e@, d as int));
        d -= 1;
    }
    out
}

/// The group ids of `layers`, in the order they were added.
fn layer_roots(layers: &Vec<Layer>) -> (ids: Vec<GroupId>)
    ensures
        ids@ == Scene::layer_ids(layers@),
{
    let mut ids: Vec<GroupId> = Vec::new();
    let mut i: usize = 0;
    while i < layers.len()
        invariant
            i <= layers@.len(),
            ids@ == Scene::layer_ids(layers@.subrange(0, i as int)),
        decreases layers@.len() - i,
    {
        ids.push(layers[i].group_id);
        assert(layers@.subrange(0, i + 1) =~= layers@.subrange(0, i as int).push(layers@[i as int]));
        assert(Scene::layer_ids(layers@.subrange(0, i + 1)) =~= Scene::layer_ids(layers@.subrange(0, i as int)).push(layers@[i as int].group_id));
        i += 1;
    }
    assert(layers@.subrange(0, layers@.len() as int) =~= layers@);
    ids
}

/// The visible ones of `layers`, in the order they were added.
fn visible_layers(layers: &Vec<Layer>) -> (shown: Vec<Layer>)
    ensures
        shown@ == visible(layers@),
{
    let mut shown: Vec<Layer> = Vec::new();
    let mut i: usize = 0;
    while i < layers.len()
        invariant
            i <= layers@.len(),
            shown@ == visible(layers@.subrange(0, i as int)),
        decreases layers@.len() - i,
    {
        let layer = layers[i];
        proof {
            reveal(Seq::filter);
            assert(layers@.subrange(0, i + 1).drop_last() =~= layers@.subrange(0, i as int));
        }
        if layer.is_visible {
            shown.push(layer);
        }
        i += 1;
    }
    assert(layers@.subrange(0, layers@.len() as int) =~= layers@);
    shown
}

/// Lists the group ids of `layers` from the top of the stack down.
fn stack_order(layers: &Vec<Layer>) -> (ids: Vec<GroupId>)
    ensures
        exists|order: Seq<int>| is_stacking_order(layers@, order) && ids@ == ids_in_order(layers@, order),
{
    let mut order: Vec<usize> = Vec::new();
    let mut k: usize = 0;
    while k < layers.len()
        invariant
            k <= layers@.len(),
            order@.len() == k,
            forall|i: int| 0 <= i < order@.len() ==> #[trigger] order@[i] < k,
            forall|i: int, j: int| 0 <= i < j < order@.len() ==> above(layers@, #[trigger] order@[i] as int, #[trigger] order@[j] as int),
        decreases layers@.len() - k,
    {
        let mut p: usize = 0;
        while p < order.len() && layers[order[p]].z_index >= layers[k].z_index
            invariant
                p <= order@.len(),
                k < layers@.len(),
                forall|i: int| 0 <= i < order@.len() ==> #[trigger] order@[i] < k,
                forall|q: int| 0 <= q < p ==> above(layers@, #[trigger] order@[q] as int, k as int),
            decreases order@.len() - p,
        {
            p += 1;
        }
        let ghost old_order = order@;
        proof {
            assert forall|q: int| p <= q < old_order.len() implies above(layers@, k as int, #[trigger] old_order[q] as int) by {
                assert(!above(layers@, old_order[p as int] as int, k as int));
                if q > p {
                    assert(above(layers@, old_order[p as int] as int, old_order[q] as int));
                }
            }
        }
        order.insert(p, k);
        proof {
            assert forall|i: int, j: int| 0 <= i < j < order@.len() implies above(layers@, #[trigger] order@[i] as int, #[trigger] order@[j] as int) by {
                if j < p {
                    assert(order@[i] == old_order[i] && order@[j] == old_order[j]);
                } else if j == p {
                    assert(order@[i] == old_order[i]);
                } else if i == p {
                    assert(order@[j] == old_order[j - 1]);
                } else if i < p {
                    assert(order@[i] == old_order[i] && order@[j] == old_order[j - 1]);
                } else {
                    assert(order@[i] == old_order[i - 1] && order@[j] == old_order[j - 1]);
                }
            }
            assert forall|i: int| 0 <= i < order@.len() implies #[trigger] order@[i] < k + 1 by {
                if i < p {
                    assert(order@[i] == old_order[i]);
                } else if i > p {
                    assert(order@[i] == old_order[i - 1]);
                }
            }
        }
        k += 1;
    }
    let mut ids: Vec<GroupId> = Vec::new();
    let mut i: usize = 0;
    while i < order.len()
        invariant
            i <= order@.len(),
            order@.len() == layers@.len(),
            forall|q: int| 0 <= q < order@.len() ==> #[trigger] order@[q] < layers@.len(),
            ids@ == ids_in_order(layers@, order@.map_values(|u: usize| u as int).subrange(0, i as int)),
        decreases order@.len() - i,
    {
        ids.push(layers[order[i]].group_id);
        assert(order@.map_values(|u: usize| u as int).subrange(0, i + 1) =~= order@.map_values(|u: usize| u as int).subrange(0, i as int).push(order@[i as int] as int));
        i += 1;
    }
    let ghost ord = order@.map_values(|u: usize| u as int);
    assert(ord.subrange(0, ord.len() as int) =~= ord);
    assert(is_stacking_order(layers@, ord));
    ids
}

/// One step of the depth-first walk over a scene's groups: a group found
/// at a level under a transform, or a reference to a group that is missing.
pub enum Visit {
    Group(usize, usize, TranslateScale),
    Missing(GroupId),
}

impl SceneView {
    /// The index of the `k`-th group placed by group `g`.
    pub open spec fn child(self, g: int, k: int) -> int {
        self.groups[g].groups[k].0.0 as int
    }

    /// `rank` numbers the groups it reaches (those it ranks below their
    /// count) so that each group placed by a reached group, where the scene
    /// has it, is reached too and ranked below the group placing it.
    pub open spec fn ranked_by(self, rank: spec_fn(int) -> nat) -> bool {
        forall|g: int, k: int|
            0 <= g < self.groups.len() && rank(g) < self.groups.len() && 0 <= k < self.groups[g].groups.len()
                && self.child(g, k) < self.groups.len() ==> #[trigger] rank(self.child(g, k)) < rank(g)
    }

    /// `rank` reaches every group of `roots` that the scene has.
    pub open spec fn ranks_roots(self, rank: spec_fn(int) -> nat, roots: Seq<GroupId>) -> bool {
        forall|i: int|
            #![trigger roots[i]]
            0 <= i < roots.len() && (roots[i].0 as int) < self.groups.len() ==> rank(roots[i].0 as int) < self.groups.len()
    }

    /// No group reachable from `roots` places itself, directly or through
    /// other groups.
    pub open spec fn well_founded_from(self, roots: Seq<GroupId>) -> bool {
        exists|rank: spec_fn(int) -> nat| self.ranked_by(rank) && self.ranks_roots(rank, roots)
    }

    /// A ranking of the groups reachable from `roots`, where none of them
    /// places itself.
    pub open spec fn rank_from(self, roots: Seq<GroupId>) -> spec_fn(int) -> nat {
        choose|rank: spec_fn(int) -> nat| self.ranked_by(rank) && self.ranks_roots(rank, roots)
    }

    /// The walk from group `g`, entered at `level` under transform `ts`: the
    /// group itself one level deeper, then the walks of the groups it
    /// places, in order, each under `ts` composed with its placement.
    pub open spec fn visit_group(self, rank: spec_fn(int) -> nat, g: int, level: int, ts: TranslateScale) -> Seq<Visit>
        decreases rank(g), self.groups[g].groups.len() + 1,
        when self.ranked_by(rank) && 0 <= g < self.groups.len() && rank(g) < self.groups.len()
    {
        seq![Visit::Group((level + 1) as usize, g as usize, ts)] + self.visit_items(rank, g, 0, level + 1, ts)
    }

    /// The walks of the groups that group `g` places from the `k`-th on.
    pub open spec fn visit_items(self, rank: spec_fn(int) -> nat, g: int, k: int, level: int, ts: TranslateScale) -> Seq<Visit>
        decreases rank(g), self.groups[g].groups.len() - k,
        when self.ranked_by(rank) && 0 <= g < self.groups.len() && rank(g) < self.groups.len() && 0 <= k
    {
        if k >= self.groups[g].groups.len() {
            Seq::empty()
        } else {
            self.visit_placed(rank, g, k, level, ts) + self.visit_items(rank, g, k + 1, level, ts)
        }
    }

    /// The walk of the `k`-th group placed by `g`.
    pub open spec fn visit_placed(self, rank: spec_fn(int) -> nat, g: int, k: int, level: int, ts: TranslateScale) -> Seq<Visit>
        decreases rank(g), 0int,
        when self.ranked_by(rank) && 0 <= g < self.groups.len() && rank(g) < self.groups.len() && 0 <= k
            < self.groups[g].groups.len()
    {
        let item = self.groups[g].groups[k];
        if self.child(g, k) < self.groups.len() {
            self.visit_group(rank, self.child(g, k), level, ts_product(ts, item.1))
        } else {
            seq![Visit::Missing(item.0)]
        }
    }

    /// The walks from the root groups `roots`, from the `i`-th on, each
    /// entered at level zero under `ts`.
    pub open spec fn visit_roots(self, rank: spec_fn(int) -> nat, roots: Seq<GroupId>, i: int, ts: TranslateScale) -> Seq<Visit>
        decreases roots.len() - i,
        when 0 <= i
    {
        if i >= roots.len() {
            Seq::empty()
        } else {
            let g = roots[i].0 as int;
            (if g < self.groups.len() {
                self.visit_group(rank, g, 0, ts)
            } else {
                seq![Visit::Missing(roots[i])]
            }) + self.visit_roots(rank, roots, i + 1, ts)
        }
    }

    /// The walk of the scene from the given roots.
    pub open spec fn walk(self, roots: Seq<GroupId>, ts: TranslateScale) -> Seq<Visit> {
        self.visit_roots(self.rank_from(roots), roots, 0, ts)
    }

    /// The crumbs a visited group contributes: each of its placements,
    /// at the group's level, under the placement's transform composed with
    /// the group's.
    pub open spec fn crumbs_of_visit(self, v: Visit) -> Seq<(usize, CrumbItem)> {
        match v {
            Visit::Group(level, g, ts) => self.groups[g as int].crumbs.map_values(
                |it: CrumbItem| (level, CrumbItem(it.0, ts_product(it.1, ts), it.2)),
            ),
            Visit::Missing(_) => Seq::empty(),
        }
    }

    /// The crumbs of a walk, listed from the last visited group back to
    /// the first, each group's own crumbs in order.
    pub open spec fn crumb_listing(self, w: Seq<Visit>) -> Seq<(usize, CrumbItem)>
        decreases w.len(),
    {
        if w.len() == 0 {
            Seq::empty()
        } else {
            self.crumb_listing(w.drop_first()) + self.crumbs_of_visit(w[0])
        }
    }

    /// The group placements a visited group contributes, at its level.
    pub open spec fn groups_of_visit(self, v: Visit) -> Seq<(usize, GroupId)> {
        match v {
            Visit::Group(level, g, ts) => self.groups[g as int].groups.map_values(
                |it: GroupItem| (level, it.0),
            ),
            Visit::Missing(_) => Seq::empty(),
        }
    }

    /// The group placements of a walk, in the order the walk reaches the
    /// groups that make them, each group's placements in order.
    pub open spec fn placements(self, w: Seq<Visit>) -> Seq<(usize, GroupId)>
        decreases w.len(),
    {
        if w.len() == 0 {
            Seq::empty()
        } else {
            self.placements(w.drop_last()) + self.groups_of_visit(w.last())
        }
    }
}

/// The entries of `e` at level `d`, in order.
pub open spec fn at_level(e: Seq<(usize, GroupId)>, d: int) -> Seq<(usize, GroupId)>
    decreases e.len(),
{
    if e.len() == 0 {
        Seq::empty()
    } else if e.last().0 == d {
        at_level(e.drop_last(), d).push(e.last())
    } else {
        at_level(e.drop_last(), d)
    }
}

/// The deepest level of the entries of `e` (zero where there are none).
pub open spec fn deepest(e: Seq<(usize, GroupId)>) -> int
    decreases e.len(),
{
    if e.len() == 0 {
        0
    } else if deepest(e.drop_last()) < e.last().0 {
        e.last().0 as int
    } else {
        deepest(e.drop_last())
    }
}

/// The entries of `e` from level `top` up to level `d`, deepest first:
/// those at level `top`, in order, then those at `top - 1`, and so on
/// down to level `d`.
pub open spec fn levels_up(e: Seq<(usize, GroupId)>, top: int, d: int) -> Seq<(usize, GroupId)>
    decreases top + 1 - d,
{
    if d > top {
        Seq::empty()
    } else {
        levels_up(e, top, d + 1) + at_level(e, d)
    }
}

proof fn lemma_at_level(e: Seq<(usize, GroupId)>, d: int)
    ensures
        forall|i: int| 0 <= i < at_level(e, d).len() ==> #[trigger] at_level(e, d)[i].0 == d,
        forall|x: (usize, GroupId)| e.contains(x) && x.0 == d ==> #[trigger] at_level(e, d).contains(x),
    decreases e.len(),
{
    if e.len() > 0 {
        lemma_at_level(e.drop_last(), d);
        assert forall|x: (usize, GroupId)| e.contains(x) && x.0 == d implies #[trigger] at_level(e, d).contains(x) by {
            let i = choose|i: int| 0 <= i < e.len() && e[i] == x;
            if i < e.len() - 1 {
                assert(e.drop_last()[i] == x);
                assert(e.drop_last().contains(x));
                let r = at_level(e.drop_last(), d);
                assert(r.contains(x));
                let j = choose|j: int| 0 <= j < r.len() && r[j] == x;
                if e.last().0 == d {
                    assert(at_level(e, d) == r.push(e.last()));
                    assert(at_level(e, d)[j] == x);
                } else {
                    assert(at_level(e, d) == r);
                }
            } else {
                assert(e.last() == x);
                assert(at_level(e, d) == at_level(e.drop_last(), d).push(e.last()));
                assert(at_level(e, d).last() == x);
            }
        }
    }
}

proof fn lemma_deepest(e: Seq<(usize, GroupId)>)
    ensures
        forall|x: (usize, GroupId)| e.contains(x) ==> x.0 <= deepest(e),
    decreases e.len(),
{
    if e.len() > 0 {
        lemma_deepest(e.drop_last());
        assert forall|x: (usize, GroupId)| e.contains(x) implies x.0 <= deepest(e) by {
            let i = choose|i: int| 0 <= i < e.len() && e[i] == x;
            if i < e.len() - 1 {
                assert(e.drop_last()[i] == x);
                assert(e.drop_last().contains(x));
            } else {
                assert(e.last() == x);
            }
        }
    }
}

proof fn lemma_levels_up(e: Seq<(usize, GroupId)>, top: int, d: int)
    ensures
        forall|i: int| 0 <= i < levels_up(e, top, d).len() ==> d <= #[trigger] levels_up(e, top, d)[i].0 <= top,
        forall|i: int, j: int|
            0 <= i < j < levels_up(e, top, d).len() ==> #[trigger] levels_up(e, top, d)[i].0 >= #[trigger] levels_up(
                e,
                top,
                d,
            )[j].0,
        forall|x: (usize, GroupId)| e.contains(x) && d <= x.0 <= top ==> #[trigger] levels_up(e, top, d).contains(x),
    decreases top + 1 - d,
{
    if d <= top {
        lemma_levels_up(e, top, d + 1);
        lemma_at_level(e, d);
        let a = levels_up(e, top, d + 1);
        let b = at_level(e, d);
        let r = levels_up(e, top, d);
        assert(r == a + b);
        assert forall|i: int| 0 <= i < r.len() implies d <= #[trigger] r[i].0 <= top by {
            if i < a.len() {
                assert(r[i] == a[i]);
            } else {
                assert(r[i] == b[i - a.len()]);
            }
        }
        assert forall|i: int, j: int| 0 <= i < j < r.len() implies #[trigger] r[i].0 >= #[trigger] r[j].0 by {
            if j < a.len() {
                assert(r[i] == a[i] && r[j] == a[j]);
            } else if i < a.len() {
                assert(r[i] == a[i] && r[j] == b[j - a.len()]);
            } else {
                assert(r[i] == b[i - a.len()] && r[j] == b[j - a.len()]);
            }
        }
        assert forall|x: (usize, GroupId)| e.contains(x) && d <= x.0 <= top implies #[trigger] r.contains(x) by {
            if x.0 == d {
                assert(b.contains(x));
                let j = choose|j: int| 0 <= j < b.len() && b[j] == x;
                assert(r[a.len() + j] == x);
            } else {
                assert(a.contains(x));
                let j = choose|j: int| 0 <= j < a.len() && a[j] == x;
                assert(r[j] == x);
            }
        }
    }
}

/// `all_groups` lists groups in bottom-up level order: every entry of a
/// deeper level comes before every entry of a shallower one, the layers'
/// own groups (level zero) last; and every placement made by a walked
/// group at level one or deeper is listed.
pub proof fn law_all_groups_bottom_up(s: SceneView, w: Seq<Visit>)
    ensures
        forall|i: int, j: int|
            0 <= i < j < Scene::spec_all_groups(s, w).len() ==> #[trigger] Scene::spec_all_groups(s, w)[i].0
                >= #[trigger] Scene::spec_all_groups(s, w)[j].0,
        forall|x: (usize, GroupId)|
            s.placements(w).contains(x) && 1 <= x.0 ==> #[trigger] Scene::spec_all_groups(s, w).contains(x),
{
    let e = s.placements(w);
    let top = deepest(e);
    lemma_levels_up(e, top, 1);
    lemma_deepest(e);
    let a = levels_up(e, top, 1);
    let b = s.layers.map_values(|l: Layer| (0usize, l.group_id));
    let r = Scene::spec_all_groups(s, w);
    assert(r == a + b);
    assert forall|i: int, j: int| 0 <= i < j < r.len() implies #[trigger] r[i].0 >= #[trigger] r[j].0 by {
        if j < a.len() {
            assert(r[i] == a[i] && r[j] == a[j]);
        } else {
            assert(r[j] == b[j - a.len()]);
            if i < a.len() {
                assert(r[i] == a[i]);
            } else {
                assert(r[i] == b[i - a.len()]);
            }
        }
    }
    assert forall|x: (usize, GroupId)| e.contains(x) && 1 <= x.0 implies #[trigger] r.contains(x) by {
        assert(a.contains(x));
        let j = choose|j: int| 0 <= j < a.len() && a[j] == x;
        assert(r[j] == x);
    }
}

/// Each crumb placement of each group a walk reaches is listed with the
/// level the group was reached at and with its effective transform: the
/// placement's own transform followed by the group's, that is `kurbo`'s
/// product `item_ts * group_ts`, its crumb id and style kept.
pub proof fn law_listing_places_crumbs(
    s: SceneView,
    w: Seq<Visit>,
    i: int,
    level: usize,
    g: usize,
    ts: TranslateScale,
    k: int,
)
    requires
        0 <= i < w.len(),
        w[i] == Visit::Group(level, g, ts),
        g < s.groups.len(),
        0 <= k < s.groups[g as int].crumbs.len(),
    ensures
        s.crumb_listing(w).contains(
            (
                level,
                CrumbItem(
                    s.groups[g as int].crumbs[k].0,
                    ts_product(s.groups[g as int].crumbs[k].1, ts),
                    s.groups[g as int].crumbs[k].2,
                ),
            ),
        ),
    decreases w.len(),
{
    let item = s.groups[g as int].crumbs[k];
    let x = (level, CrumbItem(item.0, ts_product(item.1, ts), item.2));
    let rest = s.crumb_listing(w.drop_first());
    let own = s.crumbs_of_visit(w[0]);
    assert(s.crumb_listing(w) == rest + own);
    if i == 0 {
        assert(own[k] == x);
        assert((rest + own)[rest.len() + k] == x);
    } else {
        assert(w.drop_first()[i - 1] == w[i]);
        law_listing_places_crumbs(s, w.drop_first(), i - 1, level, g, ts, k);
        let j = choose|j: int| 0 <= j < rest.len() && rest[j] == x;
        assert((rest + own)[j] == x);
    }
}

/// The crumbs of two walks one after the other are those of the second
/// walk, then those of the first: the listing runs the walk backwards.
pub proof fn law_listing_runs_backwards(s: SceneView, a: Seq<Visit>, b: Seq<Visit>)
    ensures
        s.crumb_listing(a + b) == s.crumb_listing(b) + s.crumb_listing(a),
    decreases a.len(),
{
    if a.len() == 0 {
        assert(a + b =~= b);
        assert(s.crumb_listing(b) + s.crumb_listing(a) =~= s.crumb_listing(b));
    } else {
        assert((a + b).drop_first() =~= a.drop_first() + b);
        assert((a + b)[0] == a[0]);
        law_listing_runs_backwards(s, a.drop_first(), b);
        assert(s.crumb_listing(a + b) =~= s.crumb_listing(b) + s.crumb_listing(a));
    }
}

/// A group's own crumbs are listed after those of every group below it
/// (post-order): the listing of the walk from a group is the listing of
/// the walks of the groups it places, then the group's own crumbs, in the
/// order it holds them.
pub proof fn law_group_after_descendants(s: SceneView, rank: spec_fn(int) -> nat, g: int, level: int, ts: TranslateScale)
    requires
        s.ranked_by(rank),
        0 <= g < s.groups.len(),
        rank(g) < s.groups.len(),
    ensures
        s.crumb_listing(s.visit_group(rank, g, level, ts)) == s.crumb_listing(s.visit_items(rank, g, 0, level + 1, ts))
            + s.crumbs_of_visit(Visit::Group((level + 1) as usize, g as usize, ts)),
{
    let head = seq![Visit::Group((level + 1) as usize, g as usize, ts)];
    let rest = s.visit_items(rank, g, 0, level + 1, ts);
    assert(s.visit_group(rank, g, level, ts) == head + rest);
    law_listing_runs_backwards(s, head, rest);
    assert(head.drop_first() =~= Seq::<Visit>::empty());
    assert(s.crumb_listing(head) =~= s.crumb_listing(Seq::<Visit>::empty()) + s.crumbs_of_visit(head[0]));
}

/// Layers listed later in the roots have their crumbs listed earlier: the
/// listing of the walk from the roots is that of the walks from the later
/// roots, then that of the walk from the first (so, walking the layers
/// top-down, the bottom layer's crumbs come first and the top layer's
/// last).
pub proof fn law_later_roots_first(s: SceneView, rank: spec_fn(int) -> nat, roots: Seq<GroupId>, i: int, ts: TranslateScale)
    requires
        0 <= i < roots.len(),
    ensures
        s.crumb_listing(s.visit_roots(rank, roots, i, ts)) == s.crumb_listing(s.visit_roots(rank, roots, i + 1, ts))
            + s.crumb_listing(
            if (roots[i].0 as int) < s.groups.len() {
                s.visit_group(rank, roots[i].0 as int, 0, ts)
            } else {
                seq![Visit::Missing(roots[i])]
            },
        ),
{
    let piece = if (roots[i].0 as int) < s.groups.len() {
        s.visit_group(rank, roots[i].0 as int, 0, ts)
    } else {
        seq![Visit::Missing(roots[i])]
    };
    law_listing_runs_backwards(s, piece, s.visit_roots(rank, roots, i + 1, ts));
}

/// A walk fails exactly where it meets a missing group: the first missing
/// group named is one the walk met, and where none is named every step of
/// the walk reached a group.
pub proof fn law_walk_fails_on_missing(w: Seq<Visit>)
    ensures
        first_missing(w) matches Some(id) ==> w.contains(Visit::Missing(id)),
        first_missing(w) is None <==> forall|i: int| 0 <= i < w.len() ==> #[trigger] w[i] is Group,
    decreases w.len(),
{
    if w.len() > 0 {
        law_walk_fails_on_missing(w.drop_first());
        match w[0] {
            Visit::Missing(id) => {
                assert(w[0] == Visit::Missing(id));
            },
            Visit::Group(..) => {
                if let Some(id) = first_missing(w) {
                    let j = choose|j: int| 0 <= j < w.drop_first().len() && w.drop_first()[j] == Visit::Missing(id);
                    assert(w[j + 1] == Visit::Missing(id));
                }
                if first_missing(w) is None {
                    assert forall|i: int| 0 <= i < w.len() implies #[trigger] w[i] is Group by {
                        if i > 0 {
                            assert(w[i] == w.drop_first()[i - 1]);
                        }
                    }
                } else {
                    let id = first_missing(w.drop_first()).unwrap();
                    let j = choose|j: int| 0 <= j < w.drop_first().len() && w.drop_first()[j] == Visit::Missing(id);
                    assert(w[j + 1] == Visit::Missing(id));
                    assert(!(w[j + 1] is Group));
                }
            },
        }
    }
}

impl SceneView {
    /// The walk from one root group, entered at level zero under `ts`.
    pub open spec fn root_walk(self, rank: spec_fn(int) -> nat, id: GroupId, ts: TranslateScale) -> Seq<Visit> {
        if (id.0 as int) < self.groups.len() {
            self.visit_group(rank, id.0 as int, 0, ts)
        } else {
            seq![Visit::Missing(id)]
        }
    }

    /// The walks from each of the layers listed by `order`, one after the
    /// other, the walk of each hidden layer left out.
    pub open spec fn shown_walk(self, rank: spec_fn(int) -> nat, order: Seq<int>, ts: TranslateScale) -> Seq<Visit>
        decreases order.len(),
    {
        if order.len() == 0 {
            Seq::empty()
        } else {
            (if self.layers[order[0]].is_visible {
                self.root_walk(rank, self.layers[order[0]].group_id, ts)
            } else {
                Seq::empty()
            }) + self.shown_walk(rank, order.drop_first(), ts)
        }
    }

    /// The walks from each of the layers listed by `order`, one after the
    /// other.
    pub open spec fn layers_walk(self, rank: spec_fn(int) -> nat, order: Seq<int>, ts: TranslateScale) -> Seq<Visit>
        decreases order.len(),
    {
        if order.len() == 0 {
            Seq::empty()
        } else {
            self.root_walk(rank, self.layers[order[0]].group_id, ts) + self.layers_walk(rank, order.drop_first(), ts)
        }
    }
}

proof fn lemma_roots_walk(s: SceneView, rank: spec_fn(int) -> nat, layers: Seq<Layer>, o: Seq<int>, i: int, ts: TranslateScale)
    requires
        layers == s.layers,
        0 <= i <= o.len(),
    ensures
        s.visit_roots(rank, ids_in_order(layers, o), i, ts) == s.layers_walk(rank, o.subrange(i, o.len() as int), ts),
    decreases o.len() - i,
{
    let roots = ids_in_order(layers, o);
    if i < o.len() {
        lemma_roots_walk(s, rank, layers, o, i + 1, ts);
        let rest = o.subrange(i, o.len() as int);
        assert(rest.drop_first() =~= o.subrange(i + 1, o.len() as int));
        assert(rest[0] == o[i]);
        assert(roots[i] == layers[o[i]].group_id);
    } else {
        assert(o.subrange(i, o.len() as int) =~= Seq::<int>::empty());
    }
}

proof fn lemma_shown_roots(s: SceneView, rank: spec_fn(int) -> nat, layers: Seq<Layer>, o: Seq<int>, ts: TranslateScale)
    requires
        layers == s.layers,
    ensures
        s.layers_walk(rank, visible_indices(layers, o), ts) == s.shown_walk(rank, o, ts),
    decreases o.len(),
{
    if o.len() > 0 {
        lemma_shown_roots(s, rank, layers, o.drop_first(), ts);
        let rest = visible_indices(layers, o.drop_first());
        if layers[o[0]].is_visible {
            let v = seq![o[0]] + rest;
            assert(visible_indices(layers, o) == v);
            assert(v.drop_first() =~= rest);
            assert(v[0] == o[0]);
        } else {
            assert(visible_indices(layers, o) =~= rest);
            assert(s.shown_walk(rank, o, ts) =~= s.shown_walk(rank, o.drop_first(), ts));
        }
    }
}

proof fn lemma_group_walk_same(s: SceneView, r1: spec_fn(int) -> nat, r2: spec_fn(int) -> nat, g: int, level: int, ts: TranslateScale)
    requires
        s.ranked_by(r1),
        s.ranked_by(r2),
        0 <= g < s.groups.len(),
        r1(g) < s.groups.len(),
        r2(g) < s.groups.len(),
    ensures
        s.visit_group(r1, g, level, ts) == s.visit_group(r2, g, level, ts),
    decreases r1(g), s.groups[g].groups.len() + 1,
{
    lemma_items_walk_same(s, r1, r2, g, 0, level + 1, ts);
}

proof fn lemma_items_walk_same(
    s: SceneView,
    r1: spec_fn(int) -> nat,
    r2: spec_fn(int) -> nat,
    g: int,
    k: int,
    level: int,
    ts: TranslateScale,
)
    requires
        s.ranked_by(r1),
        s.ranked_by(r2),
        0 <= g < s.groups.len(),
        r1(g) < s.groups.len(),
        r2(g) < s.groups.len(),
        0 <= k,
    ensures
        s.visit_items(r1, g, k, level, ts) == s.visit_items(r2, g, k, level, ts),
    decreases r1(g), s.groups[g].groups.len() - k,
{
    if k < s.groups[g].groups.len() {
        let c = s.child(g, k);
        if c < s.groups.len() {
            assert(r1(c) < r1(g));
            assert(r2(c) < r2(g));
            lemma_group_walk_same(s, r1, r2, c, level, ts_product(ts, s.groups[g].groups[k].1));
        }
        assert(s.visit_placed(r1, g, k, level, ts) == s.visit_placed(r2, g, k, level, ts));
        lemma_items_walk_same(s, r1, r2, g, k + 1, level, ts);
    }
}

/// Two rankings that reach every root give the same walk from the roots.
proof fn lemma_roots_walk_same(
    s: SceneView,
    r1: spec_fn(int) -> nat,
    r2: spec_fn(int) -> nat,
    roots: Seq<GroupId>,
    i: int,
    ts: TranslateScale,
)
    requires
        s.ranked_by(r1),
        s.ranked_by(r2),
        s.ranks_roots(r1, roots),
        s.ranks_roots(r2, roots),
        0 <= i,
    ensures
        s.visit_roots(r1, roots, i, ts) == s.visit_roots(r2, roots, i, ts),
    decreases roots.len() - i,
{
    if i < roots.len() {
        let g = roots[i].0 as int;
        if g < s.groups.len() {
            assert(r1(g) < s.groups.len());
            assert(r2(g) < s.groups.len());
            lemma_group_walk_same(s, r1, r2, g, 0, ts);
        }
        lemma_roots_walk_same(s, r1, r2, roots, i + 1, ts);
    }
}

/// The walk of the visible layers (what `all_visible_crumbs` lists) is the
/// walk of all layers (what `all_crumbs` lists) with the walks of the
/// hidden layers left out: both take the layers in the same stacking
/// order, and each layer's walk is the same in both.
pub proof fn law_visible_walk_leaves_out_hidden(s: SceneView, o: Seq<int>, ov: Seq<int>, ts: TranslateScale)
    requires
        is_stacking_order(s.layers, o),
        is_stacking_order(visible(s.layers), ov),
        s.well_founded_from(ids_in_order(s.layers, o)),
    ensures
        s.well_founded_from(ids_in_order(visible(s.layers), ov)),
        s.walk(ids_in_order(s.layers, o), ts) == s.layers_walk(s.rank_from(ids_in_order(s.layers, o)), o, ts),
        s.walk(ids_in_order(visible(s.layers), ov), ts) == s.shown_walk(
            s.rank_from(ids_in_order(s.layers, o)),
            o,
            ts,
        ),
{
    let all = ids_in_order(s.layers, o);
    let rank = s.rank_from(all);
    lemma_roots_walk(s, rank, s.layers, o, 0, ts);
    assert(o.subrange(0, o.len() as int) =~= o);
    law_visible_stacking_keeps_order(s.layers, o, ov);
    let vi = visible_indices(s.layers, o);
    let vroots = ids_in_order(visible(s.layers), ov);
    assert(vroots == ids_in_order(s.layers, vi));
    lemma_visible_indices(s.layers, o);
    assert(s.ranks_roots(rank, vroots)) by {
        assert forall|j: int| #![trigger vroots[j]]
            0 <= j < vroots.len() && (vroots[j].0 as int) < s.groups.len() implies rank(vroots[j].0 as int) < s.groups.len() by {
            assert(o.contains(vi[j]));
            let i = choose|i: int| 0 <= i < o.len() && o[i] == vi[j];
            assert(vroots[j] == all[i]);
        }
    }
    let rv = s.rank_from(vroots);
    lemma_roots_walk_same(s, rv, rank, vroots, 0, ts);
    lemma_roots_walk(s, rank, s.layers, vi, 0, ts);
    assert(vi.subrange(0, vi.len() as int) =~= vi);
    lemma_shown_roots(s, rank, s.layers, o, ts);
}

/// Where nothing reachable from the groups of some layers places itself,
/// nothing reachable from those groups listed in any order does.
proof fn lemma_ordered_roots(s: SceneView, layers: Seq<Layer>, order: Seq<int>)
    requires
        forall|i: int| 0 <= i < order.len() ==> 0 <= #[trigger] order[i] < layers.len(),
        s.well_founded_from(Scene::layer_ids(layers)),
    ensures
        s.well_founded_from(ids_in_order(layers, order)),
{
    let ids = Scene::layer_ids(layers);
    let rank = s.rank_from(ids);
    let roots = ids_in_order(layers, order);
    assert forall|i: int| #![trigger roots[i]]
        0 <= i < roots.len() && (roots[i].0 as int) < s.groups.len() implies rank(roots[i].0 as int) < s.groups.len() by {
        assert(0 <= order[i] < layers.len());
        assert(roots[i] == ids[order[i]]);
    }
    assert(s.ranked_by(rank) && s.ranks_roots(rank, roots));
}

/// The first missing group of a walk, if any.
pub open spec fn first_missing(w: Seq<Visit>) -> Option<GroupId>
    decreases w.len(),
{
    if w.len() == 0 {
        None
    } else {
        match w[0] {
            Visit::Missing(id) => Some(id),
            Visit::Group(..) => first_missing(w.drop_first()),
        }
    }
}

/// The result of a walk: the listing, or the error for its first missing
/// group.
pub open spec fn walk_result<T>(w: Seq<Visit>, listing: Seq<T>, r: Result<Vec<T>, VisError>) -> bool {
    match first_missing(w) {
        Some(id) => r matches Err(e) && e.inner == InnerError::GroupMissingForId(id) && e.details is None,
        None => r matches Ok(v) && v@ == listing,
    }
}

/// The group ids of a listing.
pub open spec fn listed_ids(listing: Seq<(usize, GroupId)>) -> Seq<GroupId> {
    listing.map_values(|p: (usize, GroupId)| p.1)
}

/// The entries of a walk as the traversal records them.
pub open spec fn chain_of(w: Seq<Visit>) -> Seq<(usize, usize, TranslateScale)> {
    w.map_values(|v: Visit| match v {
        Visit::Group(l, g, ts) => (l, g, ts),
        Visit::Missing(_) => (0usize, 0usize, crate::geometry::ts_uniform_scale(0)),
    })
}

proof fn lemma_chain_of_add(a: Seq<Visit>, b: Seq<Visit>)
    ensures
        chain_of(a + b) == chain_of(a) + chain_of(b),
{
    assert(chain_of(a + b) =~= chain_of(a) + chain_of(b));
}

proof fn lemma_no_missing(w: Seq<Visit>)
    requires
        first_missing(w) is None,
    ensures
        forall|i: int| 0 <= i < w.len() ==> #[trigger] w[i] is Group,
    decreases w.len(),
{
    if w.len() > 0 {
        lemma_no_missing(w.drop_first());
        assert forall|i: int| 0 <= i < w.len() implies #[trigger] w[i] is Group by {
            if i > 0 {
                assert(w[i] == w.drop_first()[i - 1]);
            }
        }
    }
}

proof fn lemma_first_missing_add(a: Seq<Visit>, b: Seq<Visit>)
    ensures
        first_missing(a + b) == match first_missing(a) {
            Some(id) => Some(id),
            None => first_missing(b),
        },
    decreases a.len(),
{
    if a.len() > 0 {
        assert((a + b).drop_first() =~= a.drop_first() + b);
        lemma_first_missing_add(a.drop_first(), b);
    } else {
        assert(a + b =~= b);
    }
}

impl Scene {
    /// An empty scene of the given size.
    pub fn new(size: Size) -> (s: Self)
        ensures
            s@ == (SceneView {
                size,
                crumbs: Seq::empty(),
                groups: Seq::empty(),
                layers: Seq::empty(),
            }),
    {
        let s = Scene { size, crumbs: Vec::new(), groups: Vec::new(), layers: Vec::new() };
        assert(s@.crumbs =~= Seq::<Crumb>::empty());
        assert(s@.groups =~= Seq::<GroupView>::empty());
        assert(s@.layers =~= Seq::<Layer>::empty());
        s
    }

    pub fn get_size(&self) -> (size: &Size)
        ensures
            *size == self@.size,
    {
        &self.size
    }

    pub fn get_crumb(&self, crumb_id: CrumbId) -> (c: Option<&Crumb>)
        ensures
            c.is_some() == (crumb_id.0 < self@.crumbs.len()),
            c.is_some() ==> *c.unwrap() == self@.crumbs[crumb_id.0 as int],
    {
        if crumb_id.0 < self.crumbs.len() {
            Some(&self.crumbs[crumb_id.0])
        } else {
            None
        }
    }

    pub fn get_crumb_mut(&mut self, crumb_id: CrumbId) -> (c: Option<&mut Crumb>)
        ensures
            c.is_some() == (crumb_id.0 < old(self)@.crumbs.len()),
            c matches Some(r) ==> {
                &&& *r == old(self)@.crumbs[crumb_id.0 as int]
                &&& final(self)@ == (SceneView {
                    crumbs: old(self)@.crumbs.update(crumb_id.0 as int, *final(r)),
                    ..old(self)@
                })
            },
            c.is_none() ==> final(self)@ == old(self)@,
    {
        if crumb_id.0 < self.crumbs.len() {
            Some(&mut self.crumbs[crumb_id.0])
        } else {
            None
        }
    }

    pub fn get_group(&self, group_id: GroupId) -> (g: Option<&Group>)
        ensures
            g.is_some() == (group_id.0 < self@.groups.len()),
            g.is_some() ==> g.unwrap()@ == self@.groups[group_id.0 as int],
    {
        if group_id.0 < self.groups.len() {
            Some(&self.groups[group_id.0])
        } else {
            None
        }
    }

    pub fn get_group_mut(&mut self, group_id: GroupId) -> (g: Option<&mut Group>)
        ensures
            g.is_some() == (group_id.0 < old(self)@.groups.len()),
            g matches Some(r) ==> {
                &&& r@ == old(self)@.groups[group_id.0 as int]
                &&& final(self)@ == (SceneView {
                    groups: old(self)@.groups.update(group_id.0 as int, final(r)@),
                    ..old(self)@
                })
            },
            g.is_none() ==> final(self)@ == old(self)@,
    {
        if group_id.0 < self.groups.len() {
            let ghost before = self.groups@;
            let r = &mut self.groups[group_id.0];
            proof {
                assert(group_views(after_borrow(self.groups)@) =~= group_views(before).update(group_id.0 as int, final(r)@));
            }
            Some(r)
        } else {
            None
        }
    }

    /// Adds a crumb; its id is the number of crumbs before it.
    pub fn add_crumb(&mut self, crumb: Crumb) -> (id: CrumbId)
        requires
            old(self)@.crumbs.len() < usize::MAX,
        ensures
            id.0 == old(self)@.crumbs.len(),
            final(self)@ == (SceneView { crumbs: old(self)@.crumbs.push(crumb), ..old(self)@ }),
    {
        let id = self.crumbs.len();
        self.crumbs.push(crumb);
        CrumbId(id)
    }

    pub fn add_line(&mut self, line: Line) -> (id: CrumbId)
        requires
            old(self)@.crumbs.len() < usize::MAX,
        ensures
            id.0 == old(self)@.crumbs.len(),
            final(self)@ == (SceneView { crumbs: old(self)@.crumbs.push(Crumb::Line(line)), ..old(self)@ }),
    {
        self.add_crumb(Crumb::Line(line))
    }

    pub fn add_rect(&mut self, rect: Rect) -> (id: CrumbId)
        requires
            old(self)@.crumbs.len() < usize::MAX,
        ensures
            id.0 == old(self)@.crumbs.len(),
            final(self)@ == (SceneView { crumbs: old(self)@.crumbs.push(Crumb::Rect(rect)), ..old(self)@ }),
    {
        self.add_crumb(Crumb::Rect(rect))
    }

    pub fn add_rounded_rect(&mut self, rect: RoundedRect) -> (id: CrumbId)
        requires
            old(self)@.crumbs.len() < usize::MAX,
        ensures
            id.0 == old(self)@.crumbs.len(),
            final(self)@ == (SceneView {
                crumbs: old(self)@.crumbs.push(Crumb::RoundedRect(rect)),
                ..old(self)@
            }),
    {
        self.add_crumb(Crumb::RoundedRect(rect))
    }

    pub fn add_circle(&mut self, circ: Circle) -> (id: CrumbId)
        requires
            old(self)@.crumbs.len() < usize::MAX,
        ensures
            id.0 == old(self)@.crumbs.len(),
            final(self)@ == (SceneView { crumbs: old(self)@.crumbs.push(Crumb::Circle(circ)), ..old(self)@ }),
    {
        self.add_crumb(Crumb::Circle(circ))
    }

    pub fn add_arc(&mut self, arc: Arc) -> (id: CrumbId)
        requires
            old(self)@.crumbs.len() < usize::MAX,
        ensures
            id.0 == old(self)@.crumbs.len(),
            final(self)@ == (SceneView { crumbs: old(self)@.crumbs.push(Crumb::Arc(arc)), ..old(self)@ }),
    {
        self.add_crumb(Crumb::Arc(arc))
    }

    /// Adds a group; its id is the number of groups before it.
    pub fn add_group(&mut self, group: Group) -> (id: GroupId)
        requires
            old(self)@.groups.len() < usize::MAX,
        ensures
            id.0 == old(self)@.groups.len(),
            final(self)@ == (SceneView { groups: old(self)@.groups.push(group@), ..old(self)@ }),
    {
        let id = self.groups.len();
        let ghost before = self.groups@;
        let ghost gv = group@;
        self.groups.push(group);
        assert(group_views(self.groups@) =~= group_views(before).push(gv));
        GroupId(id)
    }

    /// Adds the crumbs, then a group placing them in the given styles,
    /// untransformed.
    pub fn add_grouped_crumbs(&mut self, crumbs: Vec<(Crumb, Option<StyleId>)>) -> (id: GroupId)
        requires
            old(self)@.crumbs.len() + crumbs@.len() < usize::MAX,
            old(self)@.groups.len() < usize::MAX,
        ensures
            id.0 == old(self)@.groups.len(),
            final(self)@ == (SceneView {
                crumbs: old(self)@.crumbs + crumbs@.map_values(|p: (Crumb, Option<StyleId>)| p.0),
                groups: old(self)@.groups.push(GroupView {
                    crumbs: identity_items(Scene::spec_placed(old(self)@.crumbs.len(), crumbs@)),
                    groups: Seq::empty(),
                    name: None,
                }),
                ..old(self)@
            }),
    {
        let placed = self.add_crumbs(crumbs);
        self.add_group(Group::from_crumb_ids(placed))
    }

    /// Adds the crumbs, then a group with the given name placing them in
    /// the given styles, untransformed.
    pub fn add_named_crumbs(&mut self, name: &str, crumbs: Vec<(Crumb, Option<StyleId>)>) -> (id: GroupId)
        requires
            old(self)@.crumbs.len() + crumbs@.len() < usize::MAX,
            old(self)@.groups.len() < usize::MAX,
        ensures
            id.0 == old(self)@.groups.len(),
            final(self)@ == (SceneView {
                crumbs: old(self)@.crumbs + crumbs@.map_values(|p: (Crumb, Option<StyleId>)| p.0),
                groups: old(self)@.groups.push(GroupView {
                    crumbs: identity_items(Scene::spec_placed(old(self)@.crumbs.len(), crumbs@)),
                    groups: Seq::empty(),
                    name: Some(name@),
                }),
                ..old(self)@
            }),
    {
        let placed = self.add_crumbs(crumbs);
        self.add_group(Group::from_crumb_ids(placed).with_name(name))
    }

    pub fn add_grouped_crumb_items(&mut self, crumbs: Vec<CrumbItem>) -> (id: GroupId)
        requires
            old(self)@.groups.len() < usize::MAX,
        ensures
            id.0 == old(self)@.groups.len(),
            final(self)@ == (SceneView {
                groups: old(self)@.groups.push(GroupView { crumbs: crumbs@, groups: Seq::empty(), name: None }),
                ..old(self)@
            }),
    {
        self.add_group(Group::from_crumb_items(crumbs))
    }

    /// Adds the lines, then a group placing them in the given styles,
    /// untransformed.
    pub fn add_grouped_lines(&mut self, lines: Vec<(Line, Option<StyleId>)>) -> (id: GroupId)
        requires
            old(self)@.crumbs.len() + lines@.len() < usize::MAX,
            old(self)@.groups.len() < usize::MAX,
        ensures
            id.0 == old(self)@.groups.len(),
            final(self)@ == (SceneView {
                crumbs: old(self)@.crumbs + lines@.map_values(|p: (Line, Option<StyleId>)| Crumb::Line(p.0)),
                groups: old(self)@.groups.push(GroupView {
                    crumbs: identity_items(Scene::spec_placed(old(self)@.crumbs.len(), lines@.map_values(|p: (Line, Option<StyleId>)| (Crumb::Line(p.0), p.1)))),
                    groups: Seq::empty(),
                    name: None,
                }),
                ..old(self)@
            }),
    {
        let mut crumbs: Vec<(Crumb, Option<StyleId>)> = Vec::new();
        let mut i: usize = 0;
        while i < lines.len()
            invariant
                i <= lines@.len(),
                crumbs@ == lines@.subrange(0, i as int).map_values(|p: (Line, Option<StyleId>)| (Crumb::Line(p.0), p.1)),
            decreases lines@.len() - i,
        {
            let (line, style_id) = lines[i];
            crumbs.push((Crumb::Line(line), style_id));
            assert(lines@.subrange(0, i + 1) == lines@.subrange(0, i as int).push(lines@[i as int]));
            i += 1;
        }
        assert(lines@.subrange(0, lines@.len() as int) == lines@);
        let ghost cs = crumbs@;
        assert(cs.map_values(|p: (Crumb, Option<StyleId>)| p.0) =~= lines@.map_values(|p: (Line, Option<StyleId>)| Crumb::Line(p.0)));
        self.add_grouped_crumbs(crumbs)
    }

    /// Adds a group as a new visible layer at stacking index zero.
    pub fn add_layer(&mut self, group: Group) -> (id: GroupId)
        requires
            old(self)@.groups.len() < usize::MAX,
        ensures
            id.0 == old(self)@.groups.len(),
            final(self)@ == (SceneView {
                groups: old(self)@.groups.push(group@),
                layers: old(self)@.layers.push(Layer { group_id: id, is_visible: true, z_index: 0 }),
                ..old(self)@
            }),
    {
        let id = self.add_group(group);
        self.layers.push(Layer::new(id));
        id
    }

    /// The layer operation shared by `set_z_index`, `hide_layer` and
    /// `show_layer`: the first layer showing the group is changed, or the
    /// layer is reported missing.
    pub open spec fn spec_layer_update(
        old_view: SceneView,
        new_view: SceneView,
        group_id: GroupId,
        r: Result<(), VisError>,
        change: spec_fn(Layer) -> Layer,
    ) -> bool {
        let i = layer_index(old_view.layers, group_id);
        if i < old_view.layers.len() {
            &&& r is Ok
            &&& new_view == (SceneView { layers: old_view.layers.update(i, change(old_view.layers[i])), ..old_view })
        } else {
            &&& r matches Err(e) && e.inner == InnerError::LayerMissingForId(group_id) && e.details is None
            &&& new_view == old_view
        }
    }

    /// A crumb that was added is found under the id it was given, no crumb
    /// is found under the next id, the crumbs added before it are found as
    /// they were, and the groups and layers are untouched.
    pub proof fn law_added_crumb_is_found(s0: SceneView, s1: SceneView, crumb: Crumb, id: CrumbId, other: CrumbId)
        requires
            id.0 == s0.crumbs.len(),
            s1 == (SceneView { crumbs: s0.crumbs.push(crumb), ..s0 }),
        ensures
            id.0 < s1.crumbs.len() && s1.crumbs[id.0 as int] == crumb,
            s1.crumbs.len() == id.0 + 1,
            s1.groups == s0.groups && s1.layers == s0.layers,
            other.0 < s0.crumbs.len() ==> other.0 < s1.crumbs.len() && s1.crumbs[other.0 as int] == s0.crumbs[other.0 as int],
            s1.groups == s0.groups && s1.layers == s0.layers,
    {
    }

    /// Showing a layer undoes hiding it: where the first layer of a group
    /// is visible, hiding and then showing it gives back the same scene.
    pub proof fn law_show_undoes_hide(
        s0: SceneView,
        s1: SceneView,
        s2: SceneView,
        group_id: GroupId,
        r1: Result<(), VisError>,
        r2: Result<(), VisError>,
    )
        requires
            layer_index(s0.layers, group_id) < s0.layers.len() ==> s0.layers[layer_index(s0.layers, group_id)].is_visible,
            Scene::spec_layer_update(s0, s1, group_id, r1, |l: Layer| Layer { is_visible: false, ..l }),
            Scene::spec_layer_update(s1, s2, group_id, r2, |l: Layer| Layer { is_visible: true, ..l }),
        ensures
            s2 == s0,
            r1 is Ok == r2 is Ok,
    {
        lemma_layer_index(s0.layers, group_id);
        let i = layer_index(s0.layers, group_id);
        if i < s0.layers.len() {
            let hidden = Layer { is_visible: false, ..s0.layers[i] };
            assert(s1.layers == s0.layers.update(i, hidden));
            lemma_layer_index_same(s0.layers, s1.layers, group_id);
            assert(s2.layers == s1.layers.update(i, Layer { is_visible: true, ..hidden }));
            assert(s2.layers =~= s0.layers);
        } else {
            lemma_layer_index_same(s0.layers, s1.layers, group_id);
        }
    }

    /// Hiding a layer leaves the stacking order of all layers (what
    /// `get_layers` lists) as it was, and the layer hidden, where one shows
    /// the group, is no longer visible.
    pub proof fn law_hiding_keeps_stacking(
        s0: SceneView,
        s1: SceneView,
        group_id: GroupId,
        r: Result<(), VisError>,
        order: Seq<int>,
    )
        requires
            Scene::spec_layer_update(s0, s1, group_id, r, |l: Layer| Layer { is_visible: false, ..l }),
            is_stacking_order(s0.layers, order),
        ensures
            is_stacking_order(s1.layers, order),
            ids_in_order(s1.layers, order) == ids_in_order(s0.layers, order),
            r is Ok ==> layer_index(s0.layers, group_id) < s0.layers.len() && !s1.layers[layer_index(
                s0.layers,
                group_id,
            )].is_visible,
    {
        lemma_layer_index(s0.layers, group_id);
        let i = layer_index(s0.layers, group_id);
        if i < s0.layers.len() {
            assert(s1.layers == s0.layers.update(i, Layer { is_visible: false, ..s0.layers[i] }));
            assert forall|x: int| 0 <= x < s0.layers.len() implies #[trigger] s1.layers[x].z_index == s0.layers[x].z_index
                && s1.layers[x].group_id == s0.layers[x].group_id by {
                if x == i {
                } else {
                }
            }
            assert forall|a: int, b: int| 0 <= a < b < order.len() implies above(s1.layers, #[trigger] order[a], #[trigger] order[b]) by {
                assert(above(s0.layers, order[a], order[b]));
                assert(0 <= order[a] < s0.layers.len() && 0 <= order[b] < s0.layers.len());
                assert(s1.layers[order[a]].z_index == s0.layers[order[a]].z_index);
                assert(s1.layers[order[b]].z_index == s0.layers[order[b]].z_index);
            }
            assert forall|k: int| 0 <= k < order.len() implies #[trigger] ids_in_order(s1.layers, order)[k] == ids_in_order(s0.layers, order)[k] by {
                assert(0 <= order[k] < s0.layers.len());
                assert(s1.layers[order[k]].group_id == s0.layers[order[k]].group_id);
            }
            assert(ids_in_order(s1.layers, order) =~= ids_in_order(s0.layers, order));
        }
    }

    /// The last stacking index set is the one a layer keeps: setting it
    /// twice gives the scene that setting the second index alone gives.
    pub proof fn law_last_z_index_wins(
        s0: SceneView,
        s1: SceneView,
        s2: SceneView,
        group_id: GroupId,
        z1: i64,
        z2: i64,
        r1: Result<(), VisError>,
        r2: Result<(), VisError>,
    )
        requires
            Scene::spec_layer_update(s0, s1, group_id, r1, |l: Layer| Layer { z_index: z1, ..l }),
            Scene::spec_layer_update(s1, s2, group_id, r2, |l: Layer| Layer { z_index: z2, ..l }),
        ensures
            Scene::spec_layer_update(s0, s2, group_id, r2, |l: Layer| Layer { z_index: z2, ..l }),
    {
        lemma_layer_index(s0.layers, group_id);
        let i = layer_index(s0.layers, group_id);
        if i < s0.layers.len() {
            let first = Layer { z_index: z1, ..s0.layers[i] };
            assert(s1.layers == s0.layers.update(i, first));
            lemma_layer_index_same(s0.layers, s1.layers, group_id);
            assert(s2.layers == s1.layers.update(i, Layer { z_index: z2, ..first }));
            assert(s2.layers =~= s0.layers.update(i, Layer { z_index: z2, ..s0.layers[i] }));
        } else {
            lemma_layer_index_same(s0.layers, s1.layers, group_id);
        }
    }

    fn find_layer(&self, group_id: GroupId) -> (i: usize)
        ensures
            i == layer_index(self@.layers, group_id),
    {
        proof {
            lemma_layer_index(self@.layers, group_id);
        }
        let mut i: usize = 0;
        while i < self.layers.len()
            invariant
                i <= self@.layers.len(),
                forall|j: int| 0 <= j < i ==> self@.layers[j].group_id != group_id,
                0 <= layer_index(self@.layers, group_id) <= self@.layers.len(),
                layer_index(self@.layers, group_id) < self@.layers.len() ==> self@.layers[layer_index(self@.layers, group_id)].group_id == group_id,
                forall|j: int| 0 <= j < layer_index(self@.layers, group_id) ==> self@.layers[j].group_id != group_id,
            decreases self@.layers.len() - i,
        {
            if self.layers[i].group_id == group_id {
                return i;
            }
            i += 1;
        }
        i
    }

    /// Sets the stacking index of the first layer showing the group.
    pub fn set_z_index(&mut self, group_id: GroupId, z_index: i64) -> (r: Result<(), VisError>)
        ensures
            Scene::spec_layer_update(old(self)@, final(self)@, group_id, r, |l: Layer| Layer { z_index, ..l }),
    {
        let i = self.find_layer(group_id);
        if i < self.layers.len() {
            self.layers[i].z_index = z_index;
            Ok(())
        } else {
            Err(VisError::layer_missing_for_id(group_id))
        }
    }

    /// Hides the first layer showing the group.
    pub fn hide_layer(&mut self, group_id: GroupId) -> (r: Result<(), VisError>)
        ensures
            Scene::spec_layer_update(old(self)@, final(self)@, group_id, r, |l: Layer| Layer { is_visible: false, ..l }),
    {
        let i = self.find_layer(group_id);
        if i < self.layers.len() {
            self.layers[i].is_visible = false;
            Ok(())
        } else {
            Err(VisError::layer_missing_for_id(group_id))
        }
    }

    /// Shows the first layer showing the group.
    pub fn show_layer(&mut self, group_id: GroupId) -> (r: Result<(), VisError>)
        ensures
            Scene::spec_layer_update(old(self)@, final(self)@, group_id, r, |l: Layer| Layer { is_visible: true, ..l }),
    {
        let i = self.find_layer(group_id);
        if i < self.layers.len() {
            self.layers[i].is_visible = true;
            Ok(())
        } else {
            Err(VisError::layer_missing_for_id(group_id))
        }
    }

    /// Lists all top-level groups of the [`Scene`] in reversed
    /// stacking order (top-down).
    pub fn get_layers(&self) -> (ids: Vec<GroupId>)
        requires
            z_negatable(self@.layers),
        ensures
            exists|order: Seq<int>| is_stacking_order(self@.layers, order) && ids@ == ids_in_order(self@.layers, order),
    {
        stack_order(&self.layers)
    }

    /// Lists visible top-level groups of the [`Scene`] in reversed
    /// stacking order (top-down).
    pub fn get_visible_layers(&self) -> (ids: Vec<GroupId>)
        requires
            z_negatable(self@.layers),
        ensures
            exists|order: Seq<int>| is_stacking_order(visible(self@.layers), order) && ids@ == ids_in_order(visible(self@.layers), order),
    {
        let mut shown: Vec<Layer> = Vec::new();
        let mut i: usize = 0;
        while i < self.layers.len()
            invariant
                i <= self@.layers.len(),
                shown@ == visible(self@.layers.subrange(0, i as int)),
            decreases self@.layers.len() - i,
        {
            let layer = self.layers[i];
            proof {
                reveal(Seq::filter);
                assert(self@.layers.subrange(0, i + 1).drop_last() =~= self@.layers.subrange(0, i as int));
            }
            if layer.is_visible {
                shown.push(layer);
            }
            i += 1;
        }
        assert(self@.layers.subrange(0, self@.layers.len() as int) =~= self@.layers);
        stack_order(&shown)
    }

    /// Records the walk from group `g` (see `SceneView::visit_group`).
    fn collect_group(
        &self,
        g: usize,
        level: usize,
        ts: TranslateScale,
        chain: &mut Vec<(usize, usize, TranslateScale)>,
        Ghost(rank): Ghost<spec_fn(int) -> nat>,
    ) -> (r: Result<(), VisError>)
        requires
            self@.ranked_by(rank),
            g < self@.groups.len(),
            level + rank(g as int) < self@.groups.len(),
            forall|i: int| 0 <= i < old(chain)@.len() ==> #[trigger] old(chain)@[i].1 < self@.groups.len(),
        ensures
            forall|i: int| 0 <= i < final(chain)@.len() ==> #[trigger] final(chain)@[i].1 < self@.groups.len(),
            match first_missing(self@.visit_group(rank, g as int, level as int, ts)) {
                Some(id) => r matches Err(e) && e.inner == InnerError::GroupMissingForId(id) && e.details is None,
                None => r is Ok && final(chain)@ == old(chain)@ + chain_of(self@.visit_group(rank, g as int, level as int, ts)),
            },
        decreases rank(g as int), self@.groups[g as int].groups.len() + 1,
    {
        let n = self.groups.len();
        assert(self@.groups.len() == n);
        let lvl = level + 1;
        chain.push((lvl, g, ts));
        let items = self.groups[g].get_group_items();
        let ghost sv = self@;
        let ghost first: Seq<Visit> = seq![Visit::Group(lvl, g, ts)];
        let ghost mut done: Seq<Visit> = first;
        proof {
            assert(chain_of(first) =~= seq![(lvl, g, ts)]);
            assert(first.drop_first() =~= Seq::<Visit>::empty());
            assert(first_missing(first.drop_first()) is None);
            assert(first_missing(first) is None);
        }
        let mut k: usize = 0;
        while k < items.len()
            invariant
                sv == self@,
                sv.ranked_by(rank),
                g < sv.groups.len(),
                lvl == level + 1,
                level + rank(g as int) < sv.groups.len(),
                items@ == sv.groups[g as int].groups,
                k <= items@.len(),
                sv.visit_group(rank, g as int, level as int, ts) == done + sv.visit_items(rank, g as int, k as int, lvl as int, ts),
                first_missing(done) is None,
                chain@ == old(chain)@ + chain_of(done),
                forall|i: int| 0 <= i < chain@.len() ==> #[trigger] chain@[i].1 < sv.groups.len(),
            decreases items@.len() - k,
        {
            let GroupItem(child, child_ts) = items[k];
            let ghost piece = sv.visit_placed(rank, g as int, k as int, lvl as int, ts);
            proof {
                assert(sv.visit_items(rank, g as int, k as int, lvl as int, ts) == piece + sv.visit_items(rank, g as int, k + 1, lvl as int, ts));
                assert(done + (piece + sv.visit_items(rank, g as int, k + 1, lvl as int, ts)) == (done + piece) + sv.visit_items(rank, g as int, k + 1, lvl as int, ts));
                lemma_first_missing_add(done, piece);
                lemma_first_missing_add(done + piece, sv.visit_items(rank, g as int, k + 1, lvl as int, ts));
                lemma_first_missing_add(done, piece + sv.visit_items(rank, g as int, k + 1, lvl as int, ts));
                lemma_chain_of_add(done, piece);
            }
            if child.0 < self.groups.len() {
                proof {
                    assert(sv.child(g as int, k as int) == child.0);
                    assert(rank(child.0 as int) < rank(g as int));
                    lemma_first_missing_add(piece, sv.visit_items(rank, g as int, k + 1, lvl as int, ts));
                }
                let r = self.collect_group(child.0, lvl, compose(ts, child_ts), chain, Ghost(rank));
                match r {
                    Err(e) => {
                        return Err(e);
                    },
                    Ok(()) => {},
                }
            } else {
                proof {
                    assert(first_missing(piece) == Some(child)) by {
                        assert(piece =~= seq![Visit::Missing(child)]);
                        assert(piece.drop_first() =~= Seq::<Visit>::empty());
                    }
                    lemma_first_missing_add(piece, sv.visit_items(rank, g as int, k + 1, lvl as int, ts));
                }
                return Err(VisError::group_missing_for_id(child));
            }
            proof {
                done = done + piece;
            }
            k += 1;
        }
        proof {
            assert(sv.visit_items(rank, g as int, k as int, lvl as int, ts) =~= Seq::<Visit>::empty());
            assert(done + Seq::<Visit>::empty() =~= done);
        }
        Ok(())
    }

    /// Records the walk from the given roots (see `SceneView::walk`).
    fn collect(&self, roots: &Vec<GroupId>, ts: TranslateScale) -> (r: Result<Vec<(usize, usize, TranslateScale)>, VisError>)
        requires
            self@.well_founded_from(roots@),
        ensures
            match first_missing(self@.walk(roots@, ts)) {
                Some(id) => r matches Err(e) && e.inner == InnerError::GroupMissingForId(id) && e.details is None,
                None => r matches Ok(chain) && chain@ == chain_of(self@.walk(roots@, ts)) && forall|i: int|
                    0 <= i < chain@.len() ==> #[trigger] chain@[i].1 < self@.groups.len(),
            },
    {
        let ghost sv = self@;
        let ghost rank = sv.rank_from(roots@);
        let mut chain: Vec<(usize, usize, TranslateScale)> = Vec::new();
        let ghost mut done: Seq<Visit> = Seq::empty();
        let mut i: usize = 0;
        assert(chain_of(done) =~= chain@);
        while i < roots.len()
            invariant
                sv == self@,
                sv.ranked_by(rank),
                sv.ranks_roots(rank, roots@),
                rank == sv.rank_from(roots@),
                i <= roots@.len(),
                sv.walk(roots@, ts) == done + sv.visit_roots(rank, roots@, i as int, ts),
                first_missing(done) is None,
                chain@ == chain_of(done),
                forall|q: int| 0 <= q < chain@.len() ==> #[trigger] chain@[q].1 < sv.groups.len(),
            decreases roots@.len() - i,
        {
            let id = roots[i];
            let ghost piece = if (id.0 as int) < sv.groups.len() {
                sv.visit_group(rank, id.0 as int, 0, ts)
            } else {
                seq![Visit::Missing(id)]
            };
            let ghost rest = sv.visit_roots(rank, roots@, i + 1, ts);
            proof {
                assert(sv.visit_roots(rank, roots@, i as int, ts) == piece + rest);
                assert(done + (piece + rest) == (done + piece) + rest);
                lemma_first_missing_add(done, piece);
                lemma_first_missing_add(done + piece, rest);
                lemma_first_missing_add(done, piece + rest);
                lemma_first_missing_add(piece, rest);
                lemma_chain_of_add(done, piece);
            }
            if id.0 < self.groups.len() {
                let r = self.collect_group(id.0, 0, ts, &mut chain, Ghost(rank));
                match r {
                    Err(e) => {
                        return Err(e);
                    },
                    Ok(()) => {},
                }
            } else {
                proof {
                    assert(piece.drop_first() =~= Seq::<Visit>::empty());
                }
                return Err(VisError::group_missing_for_id(id));
            }
            proof {
                done = done + piece;
            }
            i += 1;
        }
        proof {
            assert(sv.visit_roots(rank, roots@, i as int, ts) =~= Seq::<Visit>::empty());
            assert(done + Seq::<Visit>::empty() =~= done);
        }
        Ok(chain)
    }

    /// Lists the crumbs of a recorded walk (see `SceneView::crumb_listing`).
    fn list_crumbs(&self, chain: &Vec<(usize, usize, TranslateScale)>, Ghost(w): Ghost<Seq<Visit>>) -> (out: Vec<(usize, CrumbItem)>)
        requires
            chain@ == chain_of(w),
            first_missing(w) is None,
            forall|i: int| 0 <= i < chain@.len() ==> #[trigger] chain@[i].1 < self@.groups.len(),
        ensures
            out@ == self@.crumb_listing(w),
    {
        proof {
            lemma_no_missing(w);
        }
        let ghost sv = self@;
        let mut out: Vec<(usize, CrumbItem)> = Vec::new();
        let mut j: usize = chain.len();
        assert(w.subrange(j as int, w.len() as int) =~= Seq::<Visit>::empty());
        while j > 0
            invariant
                sv == self@,
                chain@ == chain_of(w),
                j <= chain@.len(),
                chain@.len() == w.len(),
                forall|i: int| 0 <= i < w.len() ==> #[trigger] w[i] is Group,
                forall|i: int| 0 <= i < chain@.len() ==> #[trigger] chain@[i].1 < sv.groups.len(),
                out@ == sv.crumb_listing(w.subrange(j as int, w.len() as int)),
            decreases j,
        {
            j -= 1;
            let (level, g, ts) = chain[j];
            let ghost tail = w.subrange(j as int, w.len() as int);
            proof {
                assert(tail.drop_first() =~= w.subrange(j + 1, w.len() as int));
                assert(w[j as int] is Group);
                assert(chain@[j as int] == (level, g, ts));
                assert(w[j as int] == Visit::Group(level, g, ts));
                assert(tail[0] == w[j as int]);
            }
            let items = self.groups[g].get_crumb_items();
            let ghost base = out@;
            let ghost part = sv.crumbs_of_visit(w[j as int]);
            let mut k: usize = 0;
            while k < items.len()
                invariant
                    items@ == sv.groups[g as int].crumbs,
                    part == sv.groups[g as int].crumbs.map_values(
                        |it: CrumbItem| (level, CrumbItem(it.0, ts_product(it.1, ts), it.2)),
                    ),
                    k <= items@.len(),
                    out@ == base + part.subrange(0, k as int),
                decreases items@.len() - k,
            {
                let CrumbItem(id, item_ts, style_id) = items[k];
                out.push((level, CrumbItem(id, compose(item_ts, ts), style_id)));
                assert(part.subrange(0, k + 1) =~= part.subrange(0, k as int).push(part[k as int]));
                k += 1;
            }
            assert(part.subrange(0, part.len() as int) =~= part);
        }
        assert(w.subrange(0, w.len() as int) =~= w);
        out
    }

    /// Lists the group placements of a recorded walk (see
    /// `SceneView::placements`).
    fn list_placements(&self, chain: &Vec<(usize, usize, TranslateScale)>, Ghost(w): Ghost<Seq<Visit>>) -> (out: Vec<(usize, GroupId)>)
        requires
            chain@ == chain_of(w),
            first_missing(w) is None,
            forall|i: int| 0 <= i < chain@.len() ==> #[trigger] chain@[i].1 < self@.groups.len(),
        ensures
            out@ == self@.placements(w),
    {
        proof {
            lemma_no_missing(w);
        }
        let ghost sv = self@;
        let mut out: Vec<(usize, GroupId)> = Vec::new();
        let mut j: usize = 0;
        assert(w.subrange(0, 0) =~= Seq::<Visit>::empty());
        while j < chain.len()
            invariant
                sv == self@,
                chain@ == chain_of(w),
                j <= chain@.len(),
                chain@.len() == w.len(),
                forall|i: int| 0 <= i < w.len() ==> #[trigger] w[i] is Group,
                forall|i: int| 0 <= i < chain@.len() ==> #[trigger] chain@[i].1 < sv.groups.len(),
                out@ == sv.placements(w.subrange(0, j as int)),
            decreases chain@.len() - j,
        {
            let (level, g, ts) = chain[j];
            let ghost head = w.subrange(0, j + 1);
            proof {
                assert(head.drop_last() =~= w.subrange(0, j as int));
                assert(w[j as int] is Group);
                assert(chain@[j as int] == (level, g, ts));
                assert(w[j as int] == Visit::Group(level, g, ts));
                assert(head.last() == w[j as int]);
            }
            let items = self.groups[g].get_group_items();
            let ghost base = out@;
            let ghost part = sv.groups_of_visit(w[j as int]);
            let mut k: usize = 0;
            while k < items.len()
                invariant
                    items@ == sv.groups[g as int].groups,
                    part == sv.groups[g as int].groups.map_values(|it: GroupItem| (level, it.0)),
                    k <= items@.len(),
                    out@ == base + part.subrange(0, k as int),
                decreases items@.len() - k,
            {
                out.push((level, items[k].0));
                assert(part.subrange(0, k + 1) =~= part.subrange(0, k as int).push(part[k as int]));
                k += 1;
            }
            assert(part.subrange(0, part.len() as int) =~= part);
            j += 1;
        }
        assert(w.subrange(0, w.len() as int) =~= w);
        out
    }

    /// Collects all crumbs of a scene.
    ///
    /// Lists the crumb placements of all layers, stacked top-down, with
    /// their effective transforms and the depth of the group that places
    /// them: the groups are walked depth-first, and their crumbs are listed
    /// from the last group reached back to the first.  A reference to a
    /// missing group stops the walk with an error.
    pub fn all_crumbs(&self, root_ts: TranslateScale) -> (r: Result<Vec<(usize, CrumbItem)>, VisError>)
        requires
            self@.well_founded_from(Scene::layer_ids(self@.layers)),
            z_negatable(self@.layers),
        ensures
            exists|order: Seq<int>| {
                &&& is_stacking_order(self@.layers, order)
                &&& walk_result(
                    self@.walk(ids_in_order(self@.layers, order), root_ts),
                    self@.crumb_listing(self@.walk(ids_in_order(self@.layers, order), root_ts)),
                    r,
                )
            },
    {
        let roots = self.get_layers();
        proof {
            let order = choose|order: Seq<int>| is_stacking_order(self@.layers, order) && roots@ == ids_in_order(self@.layers, order);
            lemma_ordered_roots(self@, self@.layers, order);
        }
        self.crumbs_from(&roots, root_ts)
    }

    /// Collects all visible crumbs of a scene, as `all_crumbs` does for
    /// the visible layers alone.
    pub fn all_visible_crumbs(&self, root_ts: TranslateScale) -> (r: Result<Vec<(usize, CrumbItem)>, VisError>)
        requires
            self@.well_founded_from(Scene::layer_ids(visible(self@.layers))),
            z_negatable(self@.layers),
        ensures
            exists|order: Seq<int>| {
                &&& is_stacking_order(visible(self@.layers), order)
                &&& walk_result(
                    self@.walk(ids_in_order(visible(self@.layers), order), root_ts),
                    self@.crumb_listing(self@.walk(ids_in_order(visible(self@.layers), order), root_ts)),
                    r,
                )
            },
    {
        let roots = self.get_visible_layers();
        proof {
            let order = choose|order: Seq<int>| is_stacking_order(visible(self@.layers), order) && roots@ == ids_in_order(visible(self@.layers), order);
            lemma_ordered_roots(self@, visible(self@.layers), order);
        }
        self.crumbs_from(&roots, root_ts)
    }

    fn crumbs_from(&self, roots: &Vec<GroupId>, root_ts: TranslateScale) -> (r: Result<Vec<(usize, CrumbItem)>, VisError>)
        requires
            self@.well_founded_from(roots@),
        ensures
            walk_result(self@.walk(roots@, root_ts), self@.crumb_listing(self@.walk(roots@, root_ts)), r),
    {
        match self.collect(roots, root_ts) {
            Err(e) => Err(e),
            Ok(chain) => Ok(self.list_crumbs(&chain, Ghost(self@.walk(roots@, root_ts)))),
        }
    }

    /// The group ids of the layers, in the order they were added.
    pub open spec fn layer_ids(layers: Seq<Layer>) -> Seq<GroupId> {
        layers.map_values(|l: Layer| l.group_id)
    }

    /// Everything `all_groups` lists of a walk of the layers, bottom-up
    /// level by level: the placements made by the walked groups, those of
    /// the deepest level first and level one last, each level in the order
    /// the walk reaches them; then the layers' own groups at level zero.
    pub open spec fn spec_all_groups(s: SceneView, w: Seq<Visit>) -> Seq<(usize, GroupId)> {
        levels_up(s.placements(w), deepest(s.placements(w)), 1) + s.layers.map_values(
            |l: Layer| (0usize, l.group_id),
        )
    }

    /// Collects all groups of a scene.
    ///
    /// Lists the group ids referenced in the scene, each with its level, in
    /// bottom-up level order: the groups placed by the groups reached
    /// walking down from each layer (in the order the layers were added;
    /// their stacking is ignored), all those of a deeper level before any
    /// of a shallower one, and last the layers' own groups at level zero.
    /// A reference to a missing group stops the walk with an error.
    pub fn all_groups(&self) -> (r: Result<Vec<(usize, GroupId)>, VisError>)
        requires
            self@.well_founded_from(Scene::layer_ids(self@.layers)),
        ensures
            walk_result(
                self@.walk(Scene::layer_ids(self@.layers), crate::group::identity()),
                Scene::spec_all_groups(self@, self@.walk(Scene::layer_ids(self@.layers), crate::group::identity())),
                r,
            ),
    {
        let mut roots: Vec<GroupId> = Vec::new();
        let mut i: usize = 0;
        while i < self.layers.len()
            invariant
                i <= self@.layers.len(),
                roots@ == Scene::layer_ids(self@.layers.subrange(0, i as int)),
            decreases self@.layers.len() - i,
        {
            roots.push(self.layers[i].group_id);
            assert(self@.layers.subrange(0, i + 1) =~= self@.layers.subrange(0, i as int).push(self@.layers[i as int]));
            i += 1;
        }
        assert(self@.layers.subrange(0, self@.layers.len() as int) =~= self@.layers);
        let ghost w = self@.walk(roots@, crate::group::identity());
        match self.collect(&roots, crate::geometry::uniform_scale(1)) {
            Err(e) => Err(e),
            Ok(chain) => {
                let placed = self.list_placements(&chain, Ghost(w));
                let mut out = by_levels(&placed);
                let mut i: usize = 0;
                let ghost base = out@;
                while i < self.layers.len()
                    invariant
                        i <= self@.layers.len(),
                        out@ == base + self@.layers.subrange(0, i as int).map_values(|l: Layer| (0usize, l.group_id)),
                    decreases self@.layers.len() - i,
                {
                    out.push((0, self.layers[i].group_id));
                    assert(self@.layers.subrange(0, i + 1).map_values(|l: Layer| (0usize, l.group_id)) =~= self@.layers.subrange(0, i as int).map_values(|l: Layer| (0usize, l.group_id)).push((0usize, self@.layers[i as int].group_id)));
                    i += 1;
                }
                assert(self@.layers.subrange(0, self@.layers.len() as int) =~= self@.layers);
                Ok(out)
            },
        }
    }

    /// Shows an already added group as a new visible layer at stacking
    /// index zero, unless the group is already referenced from the layers.
    pub fn add_layer_by_id(&mut self, group_id: GroupId) -> (r: Result<(), VisError>)
        requires
            old(self)@.well_founded_from(Scene::layer_ids(old(self)@.layers)),
        ensures
            ({
                let w = old(self)@.walk(Scene::layer_ids(old(self)@.layers), crate::group::identity());
                match first_missing(w) {
                    Some(id) => r matches Err(e) && e.inner == InnerError::GroupMissingForId(id)
                        && e.details is None && final(self)@ == old(self)@,
                    None => if listed_ids(Scene::spec_all_groups(old(self)@, w)).contains(group_id) {
                        r matches Err(e) && e.inner == InnerError::GroupReuseAttempt(group_id)
                            && e.details is None && final(self)@ == old(self)@
                    } else {
                        r is Ok && final(self)@ == (SceneView {
                            layers: old(self)@.layers.push(Layer { group_id, is_visible: true, z_index: 0 }),
                            ..old(self)@
                        })
                    },
                }
            }),
    {
        let listed = match self.all_groups() {
            Err(e) => {
                return Err(e);
            },
            Ok(v) => v,
        };
        let ghost ids = listed_ids(listed@);
        let ghost w = self@.walk(Scene::layer_ids(self@.layers), crate::group::identity());
        let mut i: usize = 0;
        while i < listed.len()
            invariant
                self@ == old(self)@,
                first_missing(w) is None,
                w == old(self)@.walk(Scene::layer_ids(old(self)@.layers), crate::group::identity()),
                listed@ == Scene::spec_all_groups(old(self)@, w),
                i <= listed@.len(),
                ids == listed_ids(listed@),
                forall|q: int| 0 <= q < i ==> ids[q] != group_id,
            decreases listed@.len() - i,
        {
            if listed[i].1 == group_id {
                assert(ids[i as int] == group_id);
                assert(ids.contains(group_id));
                return Err(VisError::group_reuse_attempt(group_id));
            }
            i += 1;
        }
        assert(!ids.contains(group_id));
        self.layers.push(Layer::new(group_id));
        Ok(())
    }

    /// Whether no layer has the stacking index that cannot be negated (the
    /// layer listings require that).
    pub fn z_indices_negatable(&self) -> (r: bool)
        ensures
            r == z_negatable(self@.layers),
    {
        let mut i: usize = 0;
        while i < self.layers.len()
            invariant
                i <= self@.layers.len(),
                forall|q: int| 0 <= q < i ==> #[trigger] self@.layers[q].z_index != i64::MIN,
            decreases self@.layers.len() - i,
        {
            if self.layers[i].z_index == i64::MIN {
                assert(self@.layers[i as int].z_index == i64::MIN);
                return false;
            }
            i += 1;
        }
        true
    }

    /// Whether every group placed by group `g` that exists was ranked in an
    /// earlier round than `round`.
    fn children_ranked(&self, g: usize, rank: &Vec<Option<usize>>, round: usize) -> (r: bool)
        requires
            g < self@.groups.len(),
            rank@.len() == self@.groups.len(),
        ensures
            r == forall|k: int|
                0 <= k < self@.groups[g as int].groups.len() && self@.child(g as int, k) < self@.groups.len()
                    ==> #[trigger] rank@[self@.child(g as int, k)] is Some && rank@[self@.child(g as int, k)].unwrap()
                    < round,
    {
        let items = self.groups[g].get_group_items();
        let mut k: usize = 0;
        while k < items.len()
            invariant
                g < self@.groups.len(),
                rank@.len() == self@.groups.len(),
                items@ == self@.groups[g as int].groups,
                k <= items@.len(),
                forall|q: int|
                    0 <= q < k && self@.child(g as int, q) < self@.groups.len() ==> #[trigger] rank@[self@.child(
                        g as int,
                        q,
                    )] is Some && rank@[self@.child(g as int, q)].unwrap() < round,
            decreases items@.len() - k,
        {
            let c = items[k].0.0;
            assert(self@.child(g as int, k as int) == c);
            if c < rank.len() {
                match rank[c] {
                    Some(v) => {
                        if v >= round {
                            return false;
                        }
                    },
                    None => {
                        return false;
                    },
                }
            }
            k += 1;
        }
        true
    }

    /// Whether no group reachable from `roots` places itself, directly or
    /// through other groups.
    ///
    /// Ranks the groups in rounds: in each round, a group whose placed
    /// groups were all ranked in earlier rounds gets the round's number.
    /// A group that stays unranked after as many rounds as there are groups
    /// places, directly or through other groups, one that lies on a cycle.
    fn roots_acyclic(&self, roots: &Vec<GroupId>) -> (r: bool)
        ensures
            r == self@.well_founded_from(roots@),
    {
        let n = self.groups.len();
        let mut rank: Vec<Option<usize>> = Vec::new();
        let mut i: usize = 0;
        while i < n
            invariant
                i <= n,
                rank@.len() == i,
                forall|q: int| 0 <= q < i ==> #[trigger] rank@[q] is None,
            decreases n - i,
        {
            rank.push(None);
            i += 1;
        }
        let ghost sv = self@;
        let ghost wf = sv.well_founded_from(roots@);
        let ghost rk = sv.rank_from(roots@);
        let mut round: usize = 0;
        while round < n
            invariant
                sv == self@,
                wf == sv.well_founded_from(roots@),
                rk == sv.rank_from(roots@),
                wf ==> sv.ranked_by(rk) && sv.ranks_roots(rk, roots@),
                n == sv.groups.len(),
                rank@.len() == n,
                round <= n,
                forall|q: int| 0 <= q < n && #[trigger] rank@[q] is Some ==> rank@[q].unwrap() < round,
                forall|q: int, k: int|
                    0 <= q < n && rank@[q] is Some && 0 <= k < sv.groups[q].groups.len() && sv.child(q, k) < n
                        ==> #[trigger] rank@[sv.child(q, k)] is Some && rank@[sv.child(q, k)].unwrap() < rank@[q].unwrap(),
                wf ==> forall|q: int| 0 <= q < n && rk(q) < round ==> #[trigger] rank@[q] is Some,
            decreases n - round,
        {
            let ghost at_start = rank@;
            let mut g: usize = 0;
            while g < n
                invariant
                    sv == self@,
                    wf == sv.well_founded_from(roots@),
                    wf ==> sv.ranked_by(rk) && sv.ranks_roots(rk, roots@),
                    n == sv.groups.len(),
                    rank@.len() == n,
                    at_start.len() == n,
                    round < n,
                    g <= n,
                    forall|q: int| 0 <= q < n && #[trigger] at_start[q] is Some ==> at_start[q].unwrap() < round,
                    forall|q: int| 0 <= q < n && #[trigger] at_start[q] is Some ==> rank@[q] == at_start[q],
                    forall|q: int| 0 <= q < n && #[trigger] rank@[q] is Some ==> rank@[q].unwrap() <= round,
                    forall|q: int| 0 <= q < n && at_start[q] is None && #[trigger] rank@[q] is Some ==> rank@[q].unwrap() == round,
                    forall|q: int, k: int|
                        0 <= q < n && rank@[q] is Some && 0 <= k < sv.groups[q].groups.len() && sv.child(q, k) < n
                            ==> #[trigger] rank@[sv.child(q, k)] is Some && rank@[sv.child(q, k)].unwrap() < rank@[q].unwrap(),
                    wf ==> forall|q: int| 0 <= q < n && rk(q) < round ==> #[trigger] at_start[q] is Some,
                    wf ==> forall|q: int| 0 <= q < g && rk(q) <= round ==> #[trigger] rank@[q] is Some,
                decreases n - g,
            {
                if rank[g].is_none() && self.children_ranked(g, &rank, round) {
                    let ghost before = rank@;
                    rank.set(g, Some(round));
                    proof {
                        assert forall|q: int, k: int| 0 <= q < n && rank@[q] is Some && 0 <= k < sv.groups[q].groups.len() && sv.child(q, k) < n
                            implies #[trigger] rank@[sv.child(q, k)] is Some && rank@[sv.child(q, k)].unwrap() < rank@[q].unwrap() by {
                            if q == g {
                                assert(before[sv.child(q, k)] is Some);
                                assert(sv.child(q, k) != g);
                            } else {
                                assert(before[q] is Some);
                                assert(before[sv.child(q, k)] is Some);
                                assert(sv.child(q, k) != g);
                            }
                        }
                    }
                } else {
                    proof {
                        if wf && rk(g as int) <= round && rank@[g as int] is None {
                            assert(rk(g as int) == round);
                            assert forall|k: int|
                                0 <= k < sv.groups[g as int].groups.len() && sv.child(g as int, k) < n
                                    implies #[trigger] rank@[sv.child(g as int, k)] is Some && rank@[sv.child(g as int, k)].unwrap()
                                    < round by {
                                assert(rk(sv.child(g as int, k)) < rk(g as int));
                                assert(at_start[sv.child(g as int, k)] is Some);
                            }
                            assert(false);
                        }
                    }
                }
                g += 1;
            }
            round += 1;
        }
        let mut q: usize = 0;
        while q < roots.len()
            invariant
                sv == self@,
                wf == sv.well_founded_from(roots@),
                wf ==> sv.ranked_by(rk) && sv.ranks_roots(rk, roots@),
                wf ==> forall|p: int| 0 <= p < n && rk(p) < n ==> #[trigger] rank@[p] is Some,
                forall|p: int, k: int|
                    0 <= p < n && rank@[p] is Some && 0 <= k < sv.groups[p].groups.len() && sv.child(p, k) < n
                        ==> #[trigger] rank@[sv.child(p, k)] is Some && rank@[sv.child(p, k)].unwrap() < rank@[p].unwrap(),
                forall|p: int| 0 <= p < n && #[trigger] rank@[p] is Some ==> rank@[p].unwrap() < n,
                rank@.len() == n,
                n == sv.groups.len(),
                q <= roots@.len(),
                forall|j: int| 0 <= j < q && (roots@[j].0 as int) < n ==> #[trigger] rank@[roots@[j].0 as int] is Some,
            decreases roots@.len() - q,
        {
            let id = roots[q].0;
            if id < n && rank[id].is_none() {
                proof {
                    if wf {
                        assert(rk(id as int) < n);
                        assert(rank@[id as int] is Some);
                    }
                }
                return false;
            }
            q += 1;
        }
        proof {
            let witness = |g: int| if 0 <= g < n && rank@[g] is Some { rank@[g].unwrap() as nat } else { n as nat };
            assert(sv.ranked_by(witness)) by {
                assert forall|g: int, k: int|
                    0 <= g < sv.groups.len() && witness(g) < sv.groups.len() && 0 <= k < sv.groups[g].groups.len()
                        && sv.child(g, k) < sv.groups.len() implies #[trigger] witness(sv.child(g, k)) < witness(g) by {
                    assert(rank@[g] is Some);
                    assert(rank@[sv.child(g, k)] is Some);
                }
            }
            assert(sv.ranks_roots(witness, roots@)) by {
                assert forall|j: int| #![trigger roots@[j]]
                    0 <= j < roots@.len() && (roots@[j].0 as int) < sv.groups.len() implies witness(roots@[j].0 as int) < sv.groups.len() by {
                    assert(rank@[roots@[j].0 as int] is Some);
                }
            }
        }
        true
    }

    /// Whether no group reachable from the layers places itself, directly
    /// or through other groups (the walks over all layers require that).
    pub fn groups_acyclic(&self) -> (r: bool)
        ensures
            r == self@.well_founded_from(Scene::layer_ids(self@.layers)),
    {
        let roots = layer_roots(&self.layers);
        self.roots_acyclic(&roots)
    }

    /// Whether no group reachable from the visible layers places itself,
    /// directly or through other groups (the walk over the visible layers
    /// requires that).
    pub fn visible_groups_acyclic(&self) -> (r: bool)
        ensures
            r == self@.well_founded_from(Scene::layer_ids(visible(self@.layers))),
    {
        let shown = visible_layers(&self.layers);
        let roots = layer_roots(&shown);
        self.roots_acyclic(&roots)
    }

    /// The crumb ids and styles of crumbs appended after `base` crumbs.
    pub open spec fn spec_placed(base: nat, crumbs: Seq<(Crumb, Option<StyleId>)>) -> Seq<(CrumbId, Option<StyleId>)> {
        Seq::new(crumbs.len(), |i: int| (CrumbId((base + i) as usize), crumbs[i].1))
    }

    fn add_crumbs(&mut self, crumbs: Vec<(Crumb, Option<StyleId>)>) -> (placed: Vec<(CrumbId, Option<StyleId>)>)
        requires
            old(self)@.crumbs.len() + crumbs@.len() < usize::MAX,
        ensures
            placed@ == Scene::spec_placed(old(self)@.crumbs.len(), crumbs@),
            final(self)@ == (SceneView {
                crumbs: old(self)@.crumbs + crumbs@.map_values(|p: (Crumb, Option<StyleId>)| p.0),
                ..old(self)@
            }),
    {
        let ghost start = self@;
        let ghost all = crumbs@;
        let mut crumbs = crumbs;
        let mut rest: Vec<(Crumb, Option<StyleId>)> = Vec::new();
        // taken in order: reverse once, then pop from the back
        while crumbs.len() > 0
            invariant
                crumbs@.len() <= all.len(),
                rest@ == all.subrange(crumbs@.len() as int, all.len() as int).reverse(),
                crumbs@ == all.subrange(0, crumbs@.len() as int),
            decreases crumbs@.len(),
        {
            let ghost m = crumbs@.len();
            let c = crumbs.pop().unwrap();
            assert(crumbs@ =~= all.subrange(0, crumbs@.len() as int));
            assert(c == all[m - 1]);
            rest.push(c);
            assert(all.subrange(crumbs@.len() as int, all.len() as int).reverse() =~= all.subrange((crumbs@.len() + 1) as int, all.len() as int).reverse().push(c));
        }
        let mut placed: Vec<(CrumbId, Option<StyleId>)> = Vec::new();
        let mut k: usize = 0;
        while rest.len() > 0
            invariant
                k + rest@.len() == all.len(),
                rest@ == all.subrange(k as int, all.len() as int).reverse(),
                placed@ == Scene::spec_placed(start.crumbs.len(), all.subrange(0, k as int)),
                self@ == (SceneView {
                    crumbs: start.crumbs + all.subrange(0, k as int).map_values(|p: (Crumb, Option<StyleId>)| p.0),
                    ..start
                }),
                start.crumbs.len() + all.len() < usize::MAX,
            decreases rest@.len(),
        {
            let ghost before = self@;
            let (c, s) = rest.pop().unwrap();
            assert(all[k as int] == (c, s)) by {
                assert(all.subrange(k as int, all.len() as int).reverse().last() == all[k as int]);
            }
            let id = self.add_crumb(c);
            placed.push((id, s));
            assert(all.subrange(k as int + 1, all.len() as int).reverse() =~= rest@);
            assert(all.subrange(0, k + 1).map_values(|p: (Crumb, Option<StyleId>)| p.0) =~= all.subrange(0, k as int).map_values(|p: (Crumb, Option<StyleId>)| p.0).push(c));
            assert(placed@ =~= Scene::spec_placed(start.crumbs.len(), all.subrange(0, k + 1)));
            k += 1;
        }
        assert(all.subrange(0, all.len() as int) =~= all);
        placed
    }
}

} // verus!
