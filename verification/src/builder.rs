//! Builders that place pins and node labels at the circles of a scene.
//!
//! An entry refers to its node by the index of a crumb in a group, by a
//! crumb id, or by a position.  Building first resolves the references to
//! the centers of the circles they name, then adds one crumb for each
//! entry and a group placing them.
use vstd::prelude::*;
use kurbo::{Point, Vec2};
use crate::crumb::{is_copy_of, Crumb, CrumbId, CrumbItem};
use crate::error::{InnerError, VisError};
use crate::geometry::{center_of, circle_at, circle_center, circle_of, offset_by_zero, offset_point, point_plus, point_plus_zero};
use crate::group::{identity, Group, GroupId, GroupView};
use crate::scene::{Scene, SceneView};
use crate::text::{is_text, Anchor, Item, TextLabel, TextLabelView};

verus! {

/// How an entry refers to its node.
#[derive(Clone, Copy, Debug)]
pub enum NodeRef {
    /// The crumb placed at this index in the builder's group.
    CrumbInAGroupIndex(usize),
    /// The crumb of this id.
    CrumbId(CrumbId),
    /// The node's center.
    Geometry(Point),
}

/// Why a reference does not resolve.
pub enum Unresolved {
    /// The index is past the crumbs of the group.
    IndexPastGroup(usize),
    /// The crumb is not a circle.
    NotACircle(CrumbId),
    /// No crumb has the id.
    Missing(CrumbId),
}

/// The crumb id a reference names, where it names one: an index names the
/// crumb placed there in `items`.
pub open spec fn named_crumb(r: NodeRef, items: Seq<CrumbItem>) -> Option<CrumbId> {
    match r {
        NodeRef::CrumbInAGroupIndex(i) => if i < items.len() {
            Some(items[i as int].0)
        } else {
            None
        },
        NodeRef::CrumbId(id) => Some(id),
        NodeRef::Geometry(_) => None,
    }
}

/// A reference resolved against the crumb placements `items` of the
/// builder's group and the crumbs of the scene: a position stays; a crumb
/// resolves to the center of the circle it is.
pub open spec fn resolve_ref(r: NodeRef, items: Seq<CrumbItem>, crumbs: Seq<Crumb>) -> Result<NodeRef, Unresolved> {
    match r {
        NodeRef::Geometry(_) => Ok(r),
        _ => match named_crumb(r, items) {
            None => Err(Unresolved::IndexPastGroup(r->CrumbInAGroupIndex_0)),
            Some(id) => if id.0 < crumbs.len() {
                match crumbs[id.0 as int] {
                    Crumb::Circle(c) => Ok(NodeRef::Geometry(circle_center(c))),
                    _ => Err(Unresolved::NotACircle(id)),
                }
            } else {
                Err(Unresolved::Missing(id))
            },
        },
    }
}

/// The index of the first of `refs` that does not resolve, or their number
/// where all do.
pub open spec fn first_unresolved(refs: Seq<NodeRef>, items: Seq<CrumbItem>, crumbs: Seq<Crumb>) -> int
    decreases refs.len(),
{
    if refs.len() == 0 {
        0
    } else if resolve_ref(refs[0], items, crumbs) is Err {
        0
    } else {
        1 + first_unresolved(refs.drop_first(), items, crumbs)
    }
}

/// Whether `e` is the error that reports `u` for the group `group_id`.
pub open spec fn reports(e: VisError, group_id: GroupId, u: Unresolved, crumbs: Seq<Crumb>) -> bool {
    &&& e.details is None
    &&& match u {
        Unresolved::IndexPastGroup(i) => e.inner == InnerError::CrumbsOfAGroupOverflow(group_id, i),
        Unresolved::NotACircle(id) => e.inner matches InnerError::CrumbMismatch(n, c, i) && n@
            == "Circle"@ && is_copy_of(c, crumbs[id.0 as int]) && i == id,
        Unresolved::Missing(id) => e.inner == InnerError::CrumbMissingForId(id),
    }
}

/// The index of the first of `refs` that is not a position, or their number
/// where all are.
pub open spec fn first_unplaced(refs: Seq<NodeRef>) -> int
    decreases refs.len(),
{
    if refs.len() == 0 {
        0
    } else if !(refs[0] is Geometry) {
        0
    } else {
        1 + first_unplaced(refs.drop_first())
    }
}

/// Where an entry at a position sits once its offset is applied; an
/// entry given no offset is moved by the zero vector.
pub open spec fn placed_at(r: NodeRef, offset: Option<Vec2>) -> Point {
    match offset {
        Some(v) => point_plus(r->Geometry_0, v),
        None => point_plus_zero(r->Geometry_0),
    }
}

/// The placements of `n` crumbs added from id `base` on, untransformed and
/// in no style of their own.
pub open spec fn fresh_items(base: nat, n: nat) -> Seq<CrumbItem> {
    Seq::new(n, |j: int| CrumbItem(CrumbId((base + j) as usize), identity(), None))
}

proof fn lemma_first_unresolved(refs: Seq<NodeRef>, items: Seq<CrumbItem>, crumbs: Seq<Crumb>, k: int)
    requires
        0 <= k <= refs.len(),
        forall|j: int| 0 <= j < k ==> #[trigger] resolve_ref(refs[j], items, crumbs) is Ok,
        k == refs.len() || resolve_ref(refs[k], items, crumbs) is Err,
    ensures
        first_unresolved(refs, items, crumbs) == k,
    decreases k,
{
    if k > 0 {
        let rest = refs.drop_first();
        assert(resolve_ref(refs[0], items, crumbs) is Ok);
        assert forall|j: int| 0 <= j < k - 1 implies #[trigger] resolve_ref(rest[j], items, crumbs) is Ok by {
            assert(rest[j] == refs[j + 1]);
            assert(resolve_ref(refs[j + 1], items, crumbs) is Ok);
        }
        if k < refs.len() {
            assert(rest[k - 1] == refs[k]);
        }
        lemma_first_unresolved(rest, items, crumbs, k - 1);
    }
}

proof fn lemma_first_unplaced(refs: Seq<NodeRef>, k: int)
    requires
        0 <= k <= refs.len(),
        forall|j: int| 0 <= j < k ==> #[trigger] refs[j] is Geometry,
        k == refs.len() || !(refs[k] is Geometry),
    ensures
        first_unplaced(refs) == k,
    decreases k,
{
    if k > 0 {
        let rest = refs.drop_first();
        assert(refs[0] is Geometry);
        assert forall|j: int| 0 <= j < k - 1 implies #[trigger] rest[j] is Geometry by {
            assert(rest[j] == refs[j + 1]);
        }
        if k < refs.len() {
            assert(rest[k - 1] == refs[k]);
        }
        lemma_first_unplaced(rest, k - 1);
    }
}

/// The references before the first unresolved one all resolve.
proof fn lemma_resolved_prefix(refs: Seq<NodeRef>, items: Seq<CrumbItem>, crumbs: Seq<Crumb>)
    ensures
        0 <= first_unresolved(refs, items, crumbs) <= refs.len(),
        forall|j: int| 0 <= j < first_unresolved(refs, items, crumbs) ==> #[trigger] resolve_ref(refs[j], items, crumbs) is Ok,
    decreases refs.len(),
{
    if refs.len() > 0 && resolve_ref(refs[0], items, crumbs) is Ok {
        let rest = refs.drop_first();
        lemma_resolved_prefix(rest, items, crumbs);
        assert forall|j: int| 0 <= j < first_unresolved(refs, items, crumbs) implies #[trigger] resolve_ref(refs[j], items, crumbs) is Ok by {
            if j > 0 {
                assert(refs[j] == rest[j - 1]);
            }
        }
    }
}

/// Resolving a reference, where it succeeds, always yields a position
/// (never an index or a crumb id left to resolve).
pub proof fn law_resolution_gives_positions(r: NodeRef, items: Seq<CrumbItem>, crumbs: Seq<Crumb>)
    ensures
        resolve_ref(r, items, crumbs) is Ok ==> resolve_ref(r, items, crumbs)->Ok_0 is Geometry,
{
}

/// Resolves one reference against the crumb placements `items` of the
/// group `group_id` and the crumbs of `scene`.
fn resolve_one(node_ref: NodeRef, items: &[CrumbItem], group_id: GroupId, scene: &Scene) -> (r: Result<NodeRef, VisError>)
    ensures
        match resolve_ref(node_ref, items@, scene@.crumbs) {
            Ok(n) => r is Ok && r->Ok_0 == n,
            Err(u) => r is Err && reports(r->Err_0, group_id, u, scene@.crumbs),
        },
{
    let crumb_id = match node_ref {
        NodeRef::Geometry(_) => {
            return Ok(node_ref);
        },
        NodeRef::CrumbInAGroupIndex(index) => {
            if index < items.len() {
                items[index].0
            } else {
                return Err(VisError::crumbs_of_a_group_overflow(group_id, index));
            }
        },
        NodeRef::CrumbId(id) => id,
    };
    match scene.get_crumb(crumb_id) {
        Some(Crumb::Circle(circle)) => Ok(NodeRef::Geometry(center_of(circle))),
        Some(crumb) => Err(VisError::crumb_mismatch("Circle", crumb.clone(), crumb_id)),
        None => Err(VisError::crumb_missing_for_id(crumb_id)),
    }
}

/// The radius of a pin.
pub const PIN_RADIUS: u32 = 35;

/// A pin to be placed: its node, and an offset from the node's center.
#[derive(Clone, Copy, Debug)]
pub struct PinEntry {
    pub node_ref: NodeRef,
    pub offset: Option<Vec2>,
}

/// Places pins at nodes of a scene.
#[derive(Debug)]
pub struct PinBuilder {
    name: Option<String>,
    pins: Vec<PinEntry>,
    group_id: Option<GroupId>,
}

/// What a pin builder is, as contracts see it.
pub struct PinBuilderView {
    pub name: Option<Seq<char>>,
    pub pins: Seq<PinEntry>,
    pub group_id: Option<GroupId>,
}

impl View for PinBuilder {
    type V = PinBuilderView;

    closed spec fn view(&self) -> PinBuilderView {
        PinBuilderView { name: crate::style::opt_view(self.name), pins: self.pins@, group_id: self.group_id }
    }
}

/// The references of a list of pins.
pub open spec fn pin_refs(pins: Seq<PinEntry>) -> Seq<NodeRef> {
    Seq::new(pins.len(), |j: int| pins[j].node_ref)
}

/// Pins at the given crumb references, with no offsets.
pub open spec fn pins_at(refs: Seq<NodeRef>) -> Seq<PinEntry> {
    Seq::new(refs.len(), |j: int| PinEntry { node_ref: refs[j], offset: None })
}

/// `pins` with the references of the first `refs.len()` of them replaced.
pub open spec fn pins_refer(pins: Seq<PinEntry>, refs: Seq<NodeRef>) -> Seq<PinEntry> {
    Seq::new(
        pins.len(),
        |j: int| if j < refs.len() {
            PinEntry { node_ref: refs[j], ..pins[j] }
        } else {
            pins[j]
        },
    )
}

/// `pins` with the offsets of the first `offsets.len()` of them set.
pub open spec fn pins_offset(pins: Seq<PinEntry>, offsets: Seq<Vec2>) -> Seq<PinEntry> {
    Seq::new(
        pins.len(),
        |j: int| if j < offsets.len() {
            PinEntry { offset: Some(offsets[j]), ..pins[j] }
        } else {
            pins[j]
        },
    )
}

/// `pins` with the references before the first unresolved one resolved.
pub open spec fn pins_resolved(pins: Seq<PinEntry>, items: Seq<CrumbItem>, crumbs: Seq<Crumb>) -> Seq<PinEntry> {
    Seq::new(
        pins.len(),
        |j: int| if j < first_unresolved(pin_refs(pins), items, crumbs) {
            PinEntry { node_ref: resolve_ref(pins[j].node_ref, items, crumbs)->Ok_0, ..pins[j] }
        } else {
            pins[j]
        },
    )
}

/// The crumbs of the first `n` pins, each a pin circle at its place.
pub open spec fn pin_crumbs(pins: Seq<PinEntry>, n: int) -> Seq<Crumb> {
    Seq::new(n as nat, |j: int| Crumb::Pin(circle_at(placed_at(pins[j].node_ref, pins[j].offset), PIN_RADIUS)))
}

/// Whether `e` is the overflow error of a builder whose list `what` has
/// `len` entries.
pub open spec fn overflows(e: VisError, what: Seq<char>, len: nat) -> bool {
    &&& e.inner matches InnerError::BuilderOverflow(n, k) && n@ == what && k == len
    &&& e.details is None
}

/// Whether `e` reports an entry of the kind `what` that still refers to a
/// crumb.
pub open spec fn unresolved_error(e: VisError, what: Seq<char>) -> bool {
    &&& e.inner matches InnerError::BuilderUnresolved(n) && n@ == what
    &&& e.details is None
}

/// Whether resolving references against `group_id` in scene `s` fails:
/// the group is missing, or one of the references does not resolve.  With
/// no group, nothing is resolved and nothing fails.
pub open spec fn resolution_fails(group_id: Option<GroupId>, s: SceneView, refs: Seq<NodeRef>) -> bool {
    match group_id {
        None => false,
        Some(gid) => gid.0 >= s.groups.len() || first_unresolved(refs, s.groups[gid.0 as int].crumbs, s.crumbs)
            < refs.len(),
    }
}

proof fn lemma_first_unresolved_exists(refs: Seq<NodeRef>, items: Seq<CrumbItem>, crumbs: Seq<Crumb>)
    ensures
        0 <= first_unresolved(refs, items, crumbs) <= refs.len(),
        first_unresolved(refs, items, crumbs) < refs.len() <==> exists|j: int|
            0 <= j < refs.len() && #[trigger] resolve_ref(refs[j], items, crumbs) is Err,
        first_unresolved(refs, items, crumbs) < refs.len() ==> resolve_ref(
            refs[first_unresolved(refs, items, crumbs)],
            items,
            crumbs,
        ) is Err,
        forall|j: int| 0 <= j < first_unresolved(refs, items, crumbs) ==> #[trigger] resolve_ref(refs[j], items, crumbs) is Ok,
    decreases refs.len(),
{
    if refs.len() > 0 && resolve_ref(refs[0], items, crumbs) is Ok {
        let rest = refs.drop_first();
        lemma_first_unresolved_exists(rest, items, crumbs);
        assert forall|j: int| 0 <= j < first_unresolved(refs, items, crumbs) implies #[trigger] resolve_ref(refs[j], items, crumbs) is Ok by {
            if j > 0 {
                assert(refs[j] == rest[j - 1]);
            }
        }
        if exists|j: int| 0 <= j < refs.len() && #[trigger] resolve_ref(refs[j], items, crumbs) is Err {
            let j = choose|j: int| 0 <= j < refs.len() && #[trigger] resolve_ref(refs[j], items, crumbs) is Err;
            assert(j > 0);
            assert(refs[j] == rest[j - 1]);
            assert(resolve_ref(rest[j - 1], items, crumbs) is Err);
        }
        if first_unresolved(refs, items, crumbs) < refs.len() {
            let j = 1 + first_unresolved(rest, items, crumbs);
            assert(refs[j] == rest[j - 1]);
        }
    }
}

/// Resolving a builder's references fails exactly when it names a group
/// that the scene lacks, or when one of the references does not resolve:
/// an index past the crumbs of the group, a crumb id the scene lacks, or a
/// crumb that is not a circle.  The first reference that does not resolve
/// is the one the error reports; with no group named, nothing fails.
pub proof fn law_resolution_fails_iff(group_id: Option<GroupId>, s: SceneView, refs: Seq<NodeRef>)
    ensures
        resolution_fails(group_id, s, refs) <==> (group_id matches Some(g) && (g.0 >= s.groups.len() || exists|j: int|
            0 <= j < refs.len() && #[trigger] resolve_ref(refs[j], s.groups[g.0 as int].crumbs, s.crumbs) is Err)),
        forall|r: NodeRef, items: Seq<CrumbItem>, crumbs: Seq<Crumb>| #[trigger] resolve_ref(r, items, crumbs) is Err
            <==> match r {
            NodeRef::Geometry(_) => false,
            NodeRef::CrumbInAGroupIndex(i) => i >= items.len() || items[i as int].0.0 >= crumbs.len() || !(
            crumbs[items[i as int].0.0 as int] is Circle),
            NodeRef::CrumbId(id) => id.0 >= crumbs.len() || !(crumbs[id.0 as int] is Circle),
        },
{
    if let Some(g) = group_id {
        if g.0 < s.groups.len() {
            lemma_first_unresolved_exists(refs, s.groups[g.0 as int].crumbs, s.crumbs);
        }
    }
}

/// Whether `e` is the error of a failed resolution: the missing group, or
/// the first reference that does not resolve.
pub open spec fn resolution_error(e: VisError, group_id: Option<GroupId>, s: SceneView, refs: Seq<NodeRef>) -> bool {
    let gid = group_id.unwrap();
    if gid.0 >= s.groups.len() {
        e.inner == InnerError::GroupMissingForId(gid) && e.details is None
    } else {
        let items = s.groups[gid.0 as int].crumbs;
        reports(e, gid, resolve_ref(refs[first_unresolved(refs, items, s.crumbs)], items, s.crumbs)->Err_0, s.crumbs)
    }
}

/// Whether the references of a builder's entries get resolved at all: a
/// group is named and the scene has it.
pub open spec fn resolves_in(group_id: Option<GroupId>, s: SceneView) -> bool {
    group_id is Some && group_id.unwrap().0 < s.groups.len()
}

/// The crumb placements of the group a builder resolves against, or none.
pub open spec fn group_items(group_id: Option<GroupId>, s: SceneView) -> Seq<CrumbItem> {
    match group_id {
        Some(gid) => if gid.0 < s.groups.len() {
            s.groups[gid.0 as int].crumbs
        } else {
            Seq::empty()
        },
        None => Seq::empty(),
    }
}

impl PinBuilder {
    pub fn new() -> (b: Self)
        ensures
            b@ == (PinBuilderView { name: None, pins: Seq::empty(), group_id: None }),
    {
        PinBuilder { name: None, pins: Vec::new(), group_id: None }
    }

    pub fn with_name(self, name: &str) -> (b: Self)
        ensures
            b@ == (PinBuilderView { name: Some(name@), ..self@ }),
    {
        let mut b = self;
        b.name = Some(name.to_owned());
        b
    }

    pub fn with_group(self, group_id: GroupId) -> (b: Self)
        ensures
            b@ == (PinBuilderView { group_id: Some(group_id), ..self@ }),
    {
        let mut b = self;
        b.group_id = Some(group_id);
        b
    }

    /// Refers the pins to the crumbs at the given indices of the group,
    /// one pin each.  With no pins yet, makes one pin per index; else
    /// refers the first pins in order, and fails where there are more
    /// indices than pins.
    pub fn with_indices(self, indices: Vec<usize>) -> (r: Result<Self, VisError>)
        ensures
            ({
                let refs = Seq::new(indices@.len(), |j: int| NodeRef::CrumbInAGroupIndex(indices@[j]));
                if self@.pins.len() == 0 {
                    r is Ok && r->Ok_0@ == (PinBuilderView { pins: pins_at(refs), ..self@ })
                } else if indices@.len() <= self@.pins.len() {
                    r is Ok && r->Ok_0@ == (PinBuilderView { pins: pins_refer(self@.pins, refs), ..self@ })
                } else {
                    r is Err && overflows(r->Err_0, "pins"@, self@.pins.len())
                }
            }),
    {
        let mut refs: Vec<NodeRef> = Vec::new();
        let mut i: usize = 0;
        while i < indices.len()
            invariant
                i <= indices@.len(),
                refs@ =~= Seq::new(i as nat, |j: int| NodeRef::CrumbInAGroupIndex(indices@[j])),
            decreases indices@.len() - i,
        {
            refs.push(NodeRef::CrumbInAGroupIndex(indices[i]));
            i = i + 1;
        }
        self.with_refs(refs)
    }

    /// Refers the pins to the crumbs of the given ids, as `with_indices`
    /// does to indices.
    pub fn with_crumb_ids(self, ids: Vec<CrumbId>) -> (r: Result<Self, VisError>)
        ensures
            ({
                let refs = Seq::new(ids@.len(), |j: int| NodeRef::CrumbId(ids@[j]));
                if self@.pins.len() == 0 {
                    r is Ok && r->Ok_0@ == (PinBuilderView { pins: pins_at(refs), ..self@ })
                } else if ids@.len() <= self@.pins.len() {
                    r is Ok && r->Ok_0@ == (PinBuilderView { pins: pins_refer(self@.pins, refs), ..self@ })
                } else {
                    r is Err && overflows(r->Err_0, "pins"@, self@.pins.len())
                }
            }),
    {
        let mut refs: Vec<NodeRef> = Vec::new();
        let mut i: usize = 0;
        while i < ids.len()
            invariant
                i <= ids@.len(),
                refs@ =~= Seq::new(i as nat, |j: int| NodeRef::CrumbId(ids@[j])),
            decreases ids@.len() - i,
        {
            refs.push(NodeRef::CrumbId(ids[i]));
            i = i + 1;
        }
        self.with_refs(refs)
    }

    fn with_refs(self, refs: Vec<NodeRef>) -> (r: Result<Self, VisError>)
        ensures
            if self@.pins.len() == 0 {
                r is Ok && r->Ok_0@ == (PinBuilderView { pins: pins_at(refs@), ..self@ })
            } else if refs@.len() <= self@.pins.len() {
                r is Ok && r->Ok_0@ == (PinBuilderView { pins: pins_refer(self@.pins, refs@), ..self@ })
            } else {
                r is Err && overflows(r->Err_0, "pins"@, self@.pins.len())
            },
    {
        let mut b = self;
        if b.pins.len() == 0 {
            let mut i: usize = 0;
            assert(b@.pins =~= pins_at(refs@.subrange(0, 0)));
            while i < refs.len()
                invariant
                    i <= refs@.len(),
                    b@ == (PinBuilderView { pins: pins_at(refs@.subrange(0, i as int)), ..self@ }),
                decreases refs@.len() - i,
            {
                b.pins.push(PinEntry { node_ref: refs[i], offset: None });
                proof {
                    assert(b@.pins =~= pins_at(refs@.subrange(0, i + 1)));
                }
                i = i + 1;
            }
            proof {
                assert(refs@.subrange(0, i as int) =~= refs@);
            }
            Ok(b)
        } else if refs.len() <= b.pins.len() {
            let mut i: usize = 0;
            assert(b@.pins =~= pins_refer(self@.pins, refs@.subrange(0, 0)));
            while i < refs.len()
                invariant
                    i <= refs@.len() <= self@.pins.len(),
                    b@ == (PinBuilderView { pins: pins_refer(self@.pins, refs@.subrange(0, i as int)), ..self@ }),
                decreases refs@.len() - i,
            {
                let entry = PinEntry { node_ref: refs[i], offset: b.pins[i].offset };
                b.pins.set(i, entry);
                proof {
                    assert(b@.pins =~= pins_refer(self@.pins, refs@.subrange(0, i + 1)));
                }
                i = i + 1;
            }
            proof {
                assert(refs@.subrange(0, i as int) =~= refs@);
            }
            Ok(b)
        } else {
            Err(VisError::builder_overflow("pins", b.pins.len()))
        }
    }

    /// Sets the offsets of the first pins from their nodes, in order;
    /// fails where there are more offsets than pins.
    pub fn with_offsets(self, offsets: Vec<Vec2>) -> (r: Result<Self, VisError>)
        ensures
            if offsets@.len() <= self@.pins.len() {
                r is Ok && r->Ok_0@ == (PinBuilderView { pins: pins_offset(self@.pins, offsets@), ..self@ })
            } else {
                r is Err && overflows(r->Err_0, "pins"@, self@.pins.len())
            },
    {
        let mut b = self;
        if offsets.len() <= b.pins.len() {
            let mut i: usize = 0;
            assert(b@.pins =~= pins_offset(self@.pins, offsets@.subrange(0, 0)));
            while i < offsets.len()
                invariant
                    i <= offsets@.len() <= self@.pins.len(),
                    b@ == (PinBuilderView { pins: pins_offset(self@.pins, offsets@.subrange(0, i as int)), ..self@ }),
                decreases offsets@.len() - i,
            {
                let entry = PinEntry { node_ref: b.pins[i].node_ref, offset: Some(offsets[i]) };
                b.pins.set(i, entry);
                proof {
                    assert(b@.pins =~= pins_offset(self@.pins, offsets@.subrange(0, i + 1)));
                }
                i = i + 1;
            }
            proof {
                assert(offsets@.subrange(0, i as int) =~= offsets@);
            }
            Ok(b)
        } else {
            Err(VisError::builder_overflow("pins", b.pins.len()))
        }
    }
}

impl PinBuilder {
    /// The pins once their references are resolved against the builder's
    /// group in scene `s`.
    pub open spec fn spec_resolved(b: PinBuilderView, s: SceneView) -> Seq<PinEntry> {
        if resolves_in(b.group_id, s) {
            pins_resolved(b.pins, group_items(b.group_id, s), s.crumbs)
        } else {
            b.pins
        }
    }

    /// Resolves the pins' references to the centers of the circles they
    /// name in the builder's group, in order, stopping at the first that
    /// does not resolve.
    fn resolve_indices(&mut self, scene: &Scene) -> (r: Result<(), VisError>)
        ensures
            final(self)@ == (PinBuilderView { pins: PinBuilder::spec_resolved(old(self)@, scene@), ..old(self)@ }),
            r is Err == resolution_fails(old(self)@.group_id, scene@, pin_refs(old(self)@.pins)),
            r is Err ==> resolution_error(r->Err_0, old(self)@.group_id, scene@, pin_refs(old(self)@.pins)),
    {
        match self.group_id {
            None => Ok(()),
            Some(gid) => match scene.get_group(gid) {
                None => Err(VisError::group_missing_for_id(gid)),
                Some(group) => {
                    let items = group.get_crumb_items();
                    let ghost orig = self.pins@;
                    let ghost start = self@;
                    let ghost refs = pin_refs(orig);
                    let mut i: usize = 0;
                    while i < self.pins.len()
                        invariant
                            start == old(self)@,
                            orig == old(self)@.pins,
                            old(self)@.group_id == Some(gid),
                            gid.0 < scene@.groups.len(),
                            self.pins@.len() == orig.len(),
                            i <= orig.len(),
                            refs == pin_refs(orig),
                            items@ == scene@.groups[gid.0 as int].crumbs,
                            self@ == (PinBuilderView { pins: self.pins@, ..start }),
                            forall|j: int| 0 <= j < i ==> #[trigger] resolve_ref(refs[j], items@, scene@.crumbs) is Ok,
                            forall|j: int|
                                0 <= j < orig.len() ==> #[trigger] self.pins@[j] == if j < i {
                                    PinEntry { node_ref: resolve_ref(orig[j].node_ref, items@, scene@.crumbs)->Ok_0, ..orig[j] }
                                } else {
                                    orig[j]
                                },
                        decreases orig.len() - i,
                    {
                        let entry = self.pins[i];
                        match resolve_one(entry.node_ref, items, gid, scene) {
                            Ok(n) => {
                                self.pins.set(i, PinEntry { node_ref: n, offset: entry.offset });
                            },
                            Err(e) => {
                                proof {
                                    lemma_first_unresolved(refs, items@, scene@.crumbs, i as int);
                                    assert(self@.pins =~= pins_resolved(orig, items@, scene@.crumbs));
                                }
                                return Err(e);
                            },
                        }
                        i = i + 1;
                    }
                    proof {
                        lemma_first_unresolved(refs, items@, scene@.crumbs, i as int);
                        assert(self@.pins =~= pins_resolved(orig, items@, scene@.crumbs));
                    }
                    Ok(())
                },
            },
        }
    }
}

/// What building entries does to scene `s`, given the crumbs made for the
/// entries at positions, `made`, and the number `n` of entries: the crumbs
/// are added, and where every entry was at a position (`made` has them
/// all), a group placing them, named as the builder is.
pub open spec fn built_scene(s: SceneView, made: Seq<Crumb>, n: nat, name: Option<Seq<char>>) -> SceneView {
    let crumbs = s.crumbs + made;
    if made.len() == n {
        SceneView {
            crumbs,
            groups: s.groups.push(GroupView { crumbs: fresh_items(s.crumbs.len(), n), groups: Seq::empty(), name }),
            ..s
        }
    } else {
        SceneView { crumbs, ..s }
    }
}

impl PinBuilder {
    /// Builds the pins: resolves their references, then adds a pin circle
    /// at each pin's place (its node's center moved by its offset) and a
    /// group placing them all.  A pin that still refers to a crumb (where
    /// no group was given to resolve against) stops the work with an
    /// error, the pins before it added but no group.
    pub fn build(&mut self, scene: &mut Scene) -> (r: Result<GroupId, VisError>)
        requires
            old(scene)@.crumbs.len() + old(self)@.pins.len() < usize::MAX,
            old(scene)@.groups.len() < usize::MAX,
        ensures
            final(self)@ == (PinBuilderView { pins: PinBuilder::spec_resolved(old(self)@, old(scene)@), ..old(self)@ }),
            ({
                let s = old(scene)@;
                let refs = pin_refs(old(self)@.pins);
                let pins = final(self)@.pins;
                let k = first_unplaced(pin_refs(pins));
                if resolution_fails(old(self)@.group_id, s, refs) {
                    &&& r is Err
                    &&& resolution_error(r->Err_0, old(self)@.group_id, s, refs)
                    &&& final(scene)@ == s
                } else {
                    &&& final(scene)@ == built_scene(s, pin_crumbs(pins, k), pins.len(), old(self)@.name)
                    &&& k < pins.len() ==> r is Err && unresolved_error(r->Err_0, "Pin"@)
                    &&& k == pins.len() ==> r is Ok && r->Ok_0.0 == s.groups.len()
                }
            }),
    {
        let resolved = self.resolve_indices(scene);
        match resolved {
            Err(e) => {
                return Err(e);
            },
            Ok(()) => {},
        }
        let mut group = Group::default();
        match &self.name {
            Some(name) => group.set_name(name.as_str()),
            None => {},
        }
        let ghost s0 = scene@;
        let ghost pins = self.pins@;
        let ghost refs = pin_refs(pins);
        let mut i: usize = 0;
        assert(group@.crumbs =~= fresh_items(s0.crumbs.len(), 0));
        while i < self.pins.len()
            invariant
                s0 == old(scene)@,
                self@ == (PinBuilderView { pins: PinBuilder::spec_resolved(old(self)@, old(scene)@), ..old(self)@ }),
                !resolution_fails(old(self)@.group_id, old(scene)@, pin_refs(old(self)@.pins)),
                self.pins@ == pins,
                refs == pin_refs(pins),
                i <= pins.len(),
                s0.crumbs.len() + pins.len() < usize::MAX,
                forall|j: int| 0 <= j < i ==> #[trigger] refs[j] is Geometry,
                scene@ == (SceneView { crumbs: s0.crumbs + pin_crumbs(pins, i as int), ..s0 }),
                group@ == (GroupView {
                    crumbs: fresh_items(s0.crumbs.len(), i as nat),
                    groups: Seq::empty(),
                    name: self@.name,
                }),
            decreases pins.len() - i,
        {
            let entry = self.pins[i];
            match entry.node_ref {
                NodeRef::Geometry(center) => {
                    let origin = match entry.offset {
                        Some(v) => offset_point(center, v),
                        None => offset_by_zero(center),
                    };
                    let id = scene.add_crumb(Crumb::Pin(circle_of(origin, PIN_RADIUS)));
                    group.add_crumb(id, None);
                    proof {
                        assert(scene@.crumbs =~= s0.crumbs + pin_crumbs(pins, i + 1));
                        assert(group@.crumbs =~= fresh_items(s0.crumbs.len(), (i + 1) as nat));
                    }
                },
                _ => {
                    proof {
                        lemma_first_unplaced(refs, i as int);
                    }
                    return Err(VisError::builder_unresolved("Pin"));
                },
            }
            i = i + 1;
        }
        proof {
            lemma_first_unplaced(refs, i as int);
        }
        Ok(scene.add_group(group))
    }
}

impl Default for PinBuilder {
    fn default() -> (b: Self)
        ensures
            b@ == (PinBuilderView { name: None, pins: Seq::empty(), group_id: None }),
    {
        PinBuilder::new()
    }
}

/// The bit pattern of the font size of a node's name, 28.
pub const NAME_SIZE_BITS: u64 = 0x403c_0000_0000_0000u64;

/// The bit pattern of the font size of the spans above and below a node's
/// name, 22.
pub const SPAN_SIZE_BITS: u64 = 0x4036_0000_0000_0000u64;

/// The bit pattern of the vertical shift of the span above a node's name,
/// -16.
pub const UPPER_DY_BITS: u64 = 0xc030_0000_0000_0000u64;

/// The bit pattern of the vertical shift of the span below a node's name,
/// 12.
pub const LOWER_DY_BITS: u64 = 0x4028_0000_0000_0000u64;

/// A node label to be placed: the node's name, its node, an offset from
/// the node's center, and text above and below the name.
#[derive(Debug)]
pub struct NodeLabelEntry {
    node_name: String,
    node_ref: NodeRef,
    offset: Option<Vec2>,
    upper: Option<String>,
    lower: Option<String>,
}

/// What a node label entry is, as contracts see it.
pub struct NodeLabelEntryView {
    pub node_name: Seq<char>,
    pub node_ref: NodeRef,
    pub offset: Option<Vec2>,
    pub upper: Option<Seq<char>>,
    pub lower: Option<Seq<char>>,
}

impl View for NodeLabelEntry {
    type V = NodeLabelEntryView;

    closed spec fn view(&self) -> NodeLabelEntryView {
        NodeLabelEntryView {
            node_name: self.node_name@,
            node_ref: self.node_ref,
            offset: self.offset,
            upper: crate::style::opt_view(self.upper),
            lower: crate::style::opt_view(self.lower),
        }
    }
}

/// Places labels naming nodes of a scene.
#[derive(Debug)]
pub struct NodeLabelBuilder {
    name: Option<String>,
    labels: Vec<NodeLabelEntry>,
    group_id: Option<GroupId>,
}

/// What a node label builder is, as contracts see it.
pub struct NodeLabelBuilderView {
    pub name: Option<Seq<char>>,
    pub labels: Seq<NodeLabelEntryView>,
    pub group_id: Option<GroupId>,
}

/// The views of a list of entries.
pub open spec fn entry_views(v: Seq<NodeLabelEntry>) -> Seq<NodeLabelEntryView> {
    Seq::new(v.len(), |i: int| v[i]@)
}

impl View for NodeLabelBuilder {
    type V = NodeLabelBuilderView;

    closed spec fn view(&self) -> NodeLabelBuilderView {
        NodeLabelBuilderView {
            name: crate::style::opt_view(self.name),
            labels: entry_views(self.labels@),
            group_id: self.group_id,
        }
    }
}

/// The references of a list of entries.
pub open spec fn label_refs(labels: Seq<NodeLabelEntryView>) -> Seq<NodeRef> {
    Seq::new(labels.len(), |j: int| labels[j].node_ref)
}

/// `labels` with the references of the first `refs.len()` replaced.
pub open spec fn labels_refer(labels: Seq<NodeLabelEntryView>, refs: Seq<NodeRef>) -> Seq<NodeLabelEntryView> {
    Seq::new(
        labels.len(),
        |j: int| if j < refs.len() {
            NodeLabelEntryView { node_ref: refs[j], ..labels[j] }
        } else {
            labels[j]
        },
    )
}

/// `labels` with the offsets of the first `offsets.len()` set.
pub open spec fn labels_offset(labels: Seq<NodeLabelEntryView>, offsets: Seq<Vec2>) -> Seq<NodeLabelEntryView> {
    Seq::new(
        labels.len(),
        |j: int| if j < offsets.len() {
            NodeLabelEntryView { offset: Some(offsets[j]), ..labels[j] }
        } else {
            labels[j]
        },
    )
}

/// A span text as an entry keeps it: none where it is empty.
pub open spec fn span_text(t: Seq<char>) -> Option<Seq<char>> {
    if t.len() == 0 {
        None
    } else {
        Some(t)
    }
}

/// `labels` with the texts above the first `texts.len()` set.
pub open spec fn labels_upper(labels: Seq<NodeLabelEntryView>, texts: Seq<Seq<char>>) -> Seq<NodeLabelEntryView> {
    Seq::new(
        labels.len(),
        |j: int| if j < texts.len() {
            NodeLabelEntryView { upper: span_text(texts[j]), ..labels[j] }
        } else {
            labels[j]
        },
    )
}

/// `labels` with the texts below the first `texts.len()` set.
pub open spec fn labels_lower(labels: Seq<NodeLabelEntryView>, texts: Seq<Seq<char>>) -> Seq<NodeLabelEntryView> {
    Seq::new(
        labels.len(),
        |j: int| if j < texts.len() {
            NodeLabelEntryView { lower: span_text(texts[j]), ..labels[j] }
        } else {
            labels[j]
        },
    )
}

/// The views of a list of string slices.
pub open spec fn str_views(v: Seq<&str>) -> Seq<Seq<char>> {
    Seq::new(v.len(), |i: int| v[i]@)
}

/// `labels` with the references before the first unresolved one resolved.
pub open spec fn labels_resolved(labels: Seq<NodeLabelEntryView>, items: Seq<CrumbItem>, crumbs: Seq<Crumb>) -> Seq<
    NodeLabelEntryView,
> {
    Seq::new(
        labels.len(),
        |j: int| if j < first_unresolved(label_refs(labels), items, crumbs) {
            NodeLabelEntryView { node_ref: resolve_ref(labels[j].node_ref, items, crumbs)->Ok_0, ..labels[j] }
        } else {
            labels[j]
        },
    )
}

/// Whether `item` is the span of a node label with text `text` at `origin`
/// shifted vertically by `dy_bits`, in the span size.
pub open spec fn is_side_span(item: Item, text: Seq<char>, origin: Point, dy_bits: u64) -> bool {
    item matches Item::Span(l) && {
        &&& l@.body.len() == 1
        &&& is_text(l@.body[0], text)
        &&& l@ == (TextLabelView {
            origin: Some(origin),
            dx: Seq::empty(),
            dy: seq![dy_bits],
            anchor: Anchor::Start,
            body: l@.body,
            font: None,
            is_root: false,
            font_is_explicit: false,
            font_size_bits: Some(SPAN_SIZE_BITS),
        })
    }
}

/// Whether `c` is the label of entry `e` at `origin`: the node's name
/// anchored at its end in the name size, then the text above, then the
/// text below, where there are such texts.
pub open spec fn is_node_label(c: Crumb, e: NodeLabelEntryView, origin: Point) -> bool {
    c matches Crumb::Label(l) && {
        let n_upper: int = if e.upper is Some { 1 } else { 0 };
        let n_lower: int = if e.lower is Some { 1 } else { 0 };
        &&& l@ == (TextLabelView {
            origin: Some(origin),
            dx: Seq::empty(),
            dy: Seq::empty(),
            anchor: Anchor::End,
            body: l@.body,
            font: None,
            is_root: true,
            font_is_explicit: false,
            font_size_bits: Some(NAME_SIZE_BITS),
        })
        &&& l@.body.len() == 1 + n_upper + n_lower
        &&& is_text(l@.body[0], e.node_name)
        &&& e.upper is Some ==> is_side_span(l@.body[1], e.upper.unwrap(), origin, UPPER_DY_BITS)
        &&& e.lower is Some ==> is_side_span(l@.body[1 + n_upper], e.lower.unwrap(), origin, LOWER_DY_BITS)
    }
}

/// Whether each of the first `n` of `made` is the label of the matching
/// entry at its place.
pub open spec fn are_node_labels(made: Seq<Crumb>, labels: Seq<NodeLabelEntryView>) -> bool {
    forall|j: int| 0 <= j < made.len() ==> #[trigger] is_node_label(
        made[j],
        labels[j],
        placed_at(labels[j].node_ref, labels[j].offset),
    )
}

/// The span of a node label: `text` at `origin` shifted by `dy_bits`.
fn side_span(text: &str, origin: Point, dy_bits: u64) -> (l: TextLabel)
    ensures
        l@.body.len() == 1,
        is_text(l@.body[0], text@),
        l@ == (TextLabelView {
            origin: Some(origin),
            dx: Seq::empty(),
            dy: seq![dy_bits],
            anchor: Anchor::Start,
            body: l@.body,
            font: None,
            is_root: true,
            font_is_explicit: false,
            font_size_bits: Some(SPAN_SIZE_BITS),
        }),
{
    let dy: Vec<u64> = vec![dy_bits];
    assert(dy@ =~= seq![dy_bits]);
    let l = TextLabel::new().with_text(text).with_origin(origin).with_dy(dy).with_font_size(SPAN_SIZE_BITS);
    proof {
        assert(l@.body.len() == 1);
        assert(l@.body[0] == l@.body.last());
    }
    l
}

/// The label of a node entry at `origin`.
fn node_label(entry: &NodeLabelEntry, origin: Point) -> (c: Crumb)
    ensures
        is_node_label(c, entry@, origin),
{
    let mut label = TextLabel::new().with_text(entry.node_name.as_str()).with_end_anchor().with_origin(origin).with_font_size(
        NAME_SIZE_BITS,
    );
    let ghost first = label@.body.last();
    proof {
        assert(label@.body.len() == 1);
    }
    match &entry.upper {
        Some(upper) => {
            label.append_span(side_span(upper.as_str(), origin, UPPER_DY_BITS));
        },
        None => {},
    }
    let ghost mid = label@.body;
    match &entry.lower {
        Some(lower) => {
            label.append_span(side_span(lower.as_str(), origin, LOWER_DY_BITS));
        },
        None => {},
    }
    proof {
        assert(label@.body[0] == first);
        if entry.upper is Some {
            assert(label@.body[1] == mid[1]);
        }
    }
    Crumb::Label(label)
}

impl NodeLabelBuilder {
    /// A builder with one label per node name, the `i`-th referring to the
    /// crumb at index `i` of the group, with no offsets and no spans.
    pub fn new(node_names: Vec<&str>) -> (b: Self)
        ensures
            b@.name is None,
            b@.group_id is None,
            b@.labels.len() == node_names@.len(),
            forall|i: int|
                0 <= i < node_names@.len() ==> #[trigger] b@.labels[i] == (NodeLabelEntryView {
                    node_name: node_names@[i]@,
                    node_ref: NodeRef::CrumbInAGroupIndex(i as usize),
                    offset: None,
                    upper: None,
                    lower: None,
                }),
    {
        let mut labels: Vec<NodeLabelEntry> = Vec::new();
        let mut i: usize = 0;
        while i < node_names.len()
            invariant
                i <= node_names@.len(),
                labels@.len() == i,
                forall|j: int|
                    0 <= j < i ==> #[trigger] labels@[j]@ == (NodeLabelEntryView {
                        node_name: node_names@[j]@,
                        node_ref: NodeRef::CrumbInAGroupIndex(j as usize),
                        offset: None,
                        upper: None,
                        lower: None,
                    }),
            decreases node_names@.len() - i,
        {
            labels.push(
                NodeLabelEntry {
                    node_name: node_names[i].to_owned(),
                    node_ref: NodeRef::CrumbInAGroupIndex(i),
                    offset: None,
                    upper: None,
                    lower: None,
                },
            );
            i = i + 1;
        }
        NodeLabelBuilder { name: None, labels, group_id: None }
    }

    pub fn with_name(self, name: &str) -> (b: Self)
        ensures
            b@ == (NodeLabelBuilderView { name: Some(name@), ..self@ }),
    {
        let mut b = self;
        b.name = Some(name.to_owned());
        b
    }

    pub fn with_group(self, group_id: GroupId) -> (b: Self)
        ensures
            b@ == (NodeLabelBuilderView { group_id: Some(group_id), ..self@ }),
    {
        let mut b = self;
        b.group_id = Some(group_id);
        b
    }

    fn with_refs(self, refs: Vec<NodeRef>) -> (r: Result<Self, VisError>)
        ensures
            if refs@.len() <= self@.labels.len() {
                r is Ok && r->Ok_0@ == (NodeLabelBuilderView { labels: labels_refer(self@.labels, refs@), ..self@ })
            } else {
                r is Err && overflows(r->Err_0, "labels"@, self@.labels.len())
            },
    {
        let mut b = self;
        if refs.len() <= b.labels.len() {
            let mut i: usize = 0;
            assert(b@.labels =~= labels_refer(self@.labels, refs@.subrange(0, 0)));
            while i < refs.len()
                invariant
                    i <= refs@.len() <= self@.labels.len(),
                    b@ == (NodeLabelBuilderView { labels: labels_refer(self@.labels, refs@.subrange(0, i as int)), ..self@ }),
                decreases refs@.len() - i,
            {
                assert(b.labels@.len() == b@.labels.len());
                let ghost before = b.labels@;
                let ghost before_view = b@.labels;
                b.labels[i].node_ref = refs[i];
                proof {
                    assert forall|j: int| 0 <= j < before.len() && j != i implies #[trigger] b.labels@[j] == before[j] by {}
                    assert(b.labels@[i as int]@ == (NodeLabelEntryView { node_ref: refs@[i as int], ..before[i as int]@ }));
                    assert(before_view == entry_views(before));
                    assert(b@.labels == entry_views(b.labels@));
                    assert(before_view == labels_refer(self@.labels, refs@.subrange(0, i as int)));
                    assert forall|j: int| 0 <= j < before.len() implies #[trigger] b@.labels[j] == labels_refer(self@.labels, refs@.subrange(0, i + 1))[j] by {
                        if j != i {
                            assert(b@.labels[j] == before_view[j]);
                            assert(before_view[j] == labels_refer(self@.labels, refs@.subrange(0, i as int))[j]);
                        } else {
                            assert(b@.labels[j] == b.labels@[j]@);
                            assert(before[j]@ == before_view[j]);
                        }
                    }
                }
                proof {
                    assert(b@.labels =~= labels_refer(self@.labels, refs@.subrange(0, i + 1)));
                }
                i = i + 1;
            }
            proof {
                assert(refs@.subrange(0, i as int) =~= refs@);
            }
            Ok(b)
        } else {
            Err(VisError::builder_overflow("labels", b.labels.len()))
        }
    }

    /// Refers the first labels, in order, to the crumbs at the given indices
    /// of the group; fails where there are more indices than labels.
    pub fn with_indices(self, indices: Vec<usize>) -> (r: Result<Self, VisError>)
        ensures
            ({
                let refs = Seq::new(indices@.len(), |j: int| NodeRef::CrumbInAGroupIndex(indices@[j]));
                if indices@.len() <= self@.labels.len() {
                    r is Ok && r->Ok_0@ == (NodeLabelBuilderView { labels: labels_refer(self@.labels, refs), ..self@ })
                } else {
                    r is Err && overflows(r->Err_0, "labels"@, self@.labels.len())
                }
            }),
    {
        let mut refs: Vec<NodeRef> = Vec::new();
        let mut i: usize = 0;
        while i < indices.len()
            invariant
                i <= indices@.len(),
                refs@ =~= Seq::new(i as nat, |j: int| NodeRef::CrumbInAGroupIndex(indices@[j])),
            decreases indices@.len() - i,
        {
            refs.push(NodeRef::CrumbInAGroupIndex(indices[i]));
            i = i + 1;
        }
        self.with_refs(refs)
    }

    /// Refers the first labels, in order, to the crumbs of the given ids;
    /// fails where there are more ids than labels.
    pub fn with_crumb_ids(self, ids: Vec<CrumbId>) -> (r: Result<Self, VisError>)
        ensures
            ({
                let refs = Seq::new(ids@.len(), |j: int| NodeRef::CrumbId(ids@[j]));
                if ids@.len() <= self@.labels.len() {
                    r is Ok && r->Ok_0@ == (NodeLabelBuilderView { labels: labels_refer(self@.labels, refs), ..self@ })
                } else {
                    r is Err && overflows(r->Err_0, "labels"@, self@.labels.len())
                }
            }),
    {
        let mut refs: Vec<NodeRef> = Vec::new();
        let mut i: usize = 0;
        while i < ids.len()
            invariant
                i <= ids@.len(),
                refs@ =~= Seq::new(i as nat, |j: int| NodeRef::CrumbId(ids@[j])),
            decreases ids@.len() - i,
        {
            refs.push(NodeRef::CrumbId(ids[i]));
            i = i + 1;
        }
        self.with_refs(refs)
    }

    /// Sets the offsets of the first labels from their nodes, in order;
    /// fails where there are more offsets than labels.
    pub fn with_offsets(self, offsets: Vec<Vec2>) -> (r: Result<Self, VisError>)
        ensures
            if offsets@.len() <= self@.labels.len() {
                r is Ok && r->Ok_0@ == (NodeLabelBuilderView { labels: labels_offset(self@.labels, offsets@), ..self@ })
            } else {
                r is Err && overflows(r->Err_0, "labels"@, self@.labels.len())
            },
    {
        let mut b = self;
        if offsets.len() <= b.labels.len() {
            let mut i: usize = 0;
            assert(b@.labels =~= labels_offset(self@.labels, offsets@.subrange(0, 0)));
            while i < offsets.len()
                invariant
                    i <= offsets@.len() <= self@.labels.len(),
                    b@ == (NodeLabelBuilderView { labels: labels_offset(self@.labels, offsets@.subrange(0, i as int)), ..self@ }),
                decreases offsets@.len() - i,
            {
                assert(b.labels@.len() == b@.labels.len());
                let ghost before = b.labels@;
                let ghost before_view = b@.labels;
                b.labels[i].offset = Some(offsets[i]);
                proof {
                    assert forall|j: int| 0 <= j < before.len() && j != i implies #[trigger] b.labels@[j] == before[j] by {}
                    assert(b.labels@[i as int]@ == (NodeLabelEntryView { offset: Some(offsets@[i as int]), ..before[i as int]@ }));
                    assert(before_view == entry_views(before));
                    assert(b@.labels == entry_views(b.labels@));
                    assert(before_view == labels_offset(self@.labels, offsets@.subrange(0, i as int)));
                    assert forall|j: int| 0 <= j < before.len() implies #[trigger] b@.labels[j] == labels_offset(self@.labels, offsets@.subrange(0, i + 1))[j] by {
                        if j != i {
                            assert(b@.labels[j] == before_view[j]);
                            assert(before_view[j] == labels_offset(self@.labels, offsets@.subrange(0, i as int))[j]);
                        } else {
                            assert(b@.labels[j] == b.labels@[j]@);
                            assert(before[j]@ == before_view[j]);
                        }
                    }
                }
                proof {
                    assert(b@.labels =~= labels_offset(self@.labels, offsets@.subrange(0, i + 1)));
                }
                i = i + 1;
            }
            proof {
                assert(offsets@.subrange(0, i as int) =~= offsets@);
            }
            Ok(b)
        } else {
            Err(VisError::builder_overflow("labels", b.labels.len()))
        }
    }

    /// Sets the texts above and below the names of the first labels, in
    /// order; an empty text leaves none.  Fails where there are more texts
    /// of either kind than labels.
    pub fn with_spans(self, upper: Vec<&str>, lower: Vec<&str>) -> (r: Result<Self, VisError>)
        ensures
            if upper@.len() <= self@.labels.len() && lower@.len() <= self@.labels.len() {
                r is Ok && r->Ok_0@ == (NodeLabelBuilderView {
                    labels: labels_lower(labels_upper(self@.labels, str_views(upper@)), str_views(lower@)),
                    ..self@
                })
            } else {
                r is Err && overflows(r->Err_0, "labels"@, self@.labels.len())
            },
    {
        let mut b = self;
        if upper.len() > b.labels.len() || lower.len() > b.labels.len() {
            return Err(VisError::builder_overflow("labels", b.labels.len()));
        }
        let mut i: usize = 0;
        assert(b@.labels =~= labels_upper(self@.labels, str_views(upper@.subrange(0, 0))));
        while i < upper.len()
            invariant
                i <= upper@.len() <= self@.labels.len(),
                b@ == (NodeLabelBuilderView { labels: labels_upper(self@.labels, str_views(upper@.subrange(0, i as int))), ..self@ }),
            decreases upper@.len() - i,
        {
            let text = upper[i];
            assert(b.labels@.len() == b@.labels.len());
            let ghost before = b.labels@;
            let ghost before_view = b@.labels;
            let new_upper: Option<String> = if text.is_empty() { None } else { Some(text.to_owned()) };
            proof {
                assert(crate::style::opt_view(new_upper) == span_text(text@));
            }
            b.labels[i].upper = new_upper;
            proof {
                assert forall|j: int| 0 <= j < before.len() && j != i implies #[trigger] b.labels@[j] == before[j] by {}
                assert(before_view == entry_views(before));
                assert(b@.labels == entry_views(b.labels@));
                assert(before_view == labels_upper(self@.labels, str_views(upper@.subrange(0, i as int))));
                assert forall|j: int| 0 <= j < before.len() implies #[trigger] b@.labels[j] == labels_upper(self@.labels, str_views(upper@.subrange(0, i + 1)))[j] by {
                    if j != i {
                        assert(b@.labels[j] == before_view[j]);
                        assert(before_view[j] == labels_upper(self@.labels, str_views(upper@.subrange(0, i as int)))[j]);
                        if j < i {
                            assert(str_views(upper@.subrange(0, i as int))[j] == str_views(upper@.subrange(0, i + 1))[j]);
                        }
                    } else {
                        assert(b@.labels[j] == b.labels@[j]@);
                        assert(before[j]@ == before_view[j]);
                        assert(str_views(upper@.subrange(0, i + 1))[j] == text@);
                        assert(b.labels@[j]@ == (NodeLabelEntryView { upper: span_text(text@), ..before[j]@ }));
                    }
                }
                assert(b@.labels =~= labels_upper(self@.labels, str_views(upper@.subrange(0, i + 1))));
            }
            i = i + 1;
        }
        proof {
            assert(upper@.subrange(0, i as int) =~= upper@);
        }
        let ghost mid = b@;
        let mut k: usize = 0;
        assert(b@.labels =~= labels_lower(mid.labels, str_views(lower@.subrange(0, 0))));
        while k < lower.len()
            invariant
                k <= lower@.len() <= self@.labels.len(),
                mid.labels.len() == self@.labels.len(),
                b@ == (NodeLabelBuilderView { labels: labels_lower(mid.labels, str_views(lower@.subrange(0, k as int))), ..mid }),
            decreases lower@.len() - k,
        {
            let text = lower[k];
            assert(b.labels@.len() == b@.labels.len());
            let ghost before = b.labels@;
            let ghost before_view = b@.labels;
            let new_lower: Option<String> = if text.is_empty() { None } else { Some(text.to_owned()) };
            proof {
                assert(crate::style::opt_view(new_lower) == span_text(text@));
            }
            b.labels[k].lower = new_lower;
            proof {
                assert forall|j: int| 0 <= j < before.len() && j != k implies #[trigger] b.labels@[j] == before[j] by {}
                assert(before_view == entry_views(before));
                assert(b@.labels == entry_views(b.labels@));
                assert(before_view == labels_lower(mid.labels, str_views(lower@.subrange(0, k as int))));
                assert forall|j: int| 0 <= j < before.len() implies #[trigger] b@.labels[j] == labels_lower(mid.labels, str_views(lower@.subrange(0, k + 1)))[j] by {
                    if j != k {
                        assert(b@.labels[j] == before_view[j]);
                        assert(before_view[j] == labels_lower(mid.labels, str_views(lower@.subrange(0, k as int)))[j]);
                        if j < k {
                            assert(str_views(lower@.subrange(0, k as int))[j] == str_views(lower@.subrange(0, k + 1))[j]);
                        }
                    } else {
                        assert(b@.labels[j] == b.labels@[j]@);
                        assert(before[j]@ == before_view[j]);
                        assert(str_views(lower@.subrange(0, k + 1))[j] == text@);
                        assert(b.labels@[j]@ == (NodeLabelEntryView { lower: span_text(text@), ..before[j]@ }));
                    }
                }
                assert(b@.labels =~= labels_lower(mid.labels, str_views(lower@.subrange(0, k + 1))));
            }
            k = k + 1;
        }
        proof {
            assert(lower@.subrange(0, k as int) =~= lower@);
        }
        Ok(b)
    }
}

impl NodeLabelBuilder {
    /// The labels once their references are resolved against the
    /// builder's group in scene `s`.
    pub open spec fn spec_resolved(b: NodeLabelBuilderView, s: SceneView) -> Seq<NodeLabelEntryView> {
        if resolves_in(b.group_id, s) {
            labels_resolved(b.labels, group_items(b.group_id, s), s.crumbs)
        } else {
            b.labels
        }
    }

    /// Resolves the labels' references to the centers of the circles they
    /// name in the builder's group, in order, stopping at the first that
    /// does not resolve.
    fn resolve_indices(&mut self, scene: &Scene) -> (r: Result<(), VisError>)
        ensures
            final(self)@ == (NodeLabelBuilderView { labels: NodeLabelBuilder::spec_resolved(old(self)@, scene@), ..old(self)@ }),
            r is Err == resolution_fails(old(self)@.group_id, scene@, label_refs(old(self)@.labels)),
            r is Err ==> resolution_error(r->Err_0, old(self)@.group_id, scene@, label_refs(old(self)@.labels)),
    {
        match self.group_id {
            None => Ok(()),
            Some(gid) => match scene.get_group(gid) {
                None => Err(VisError::group_missing_for_id(gid)),
                Some(group) => {
                    let items = group.get_crumb_items();
                    let ghost orig = self@.labels;
                    let ghost start = self@;
                    let ghost refs = label_refs(orig);
                    let mut i: usize = 0;
                    while i < self.labels.len()
                        invariant
                            start == old(self)@,
                            orig == old(self)@.labels,
                            old(self)@.group_id == Some(gid),
                            gid.0 < scene@.groups.len(),
                            self@.labels.len() == orig.len(),
                            self.labels@.len() == orig.len(),
                            i <= orig.len(),
                            refs == label_refs(orig),
                            items@ == scene@.groups[gid.0 as int].crumbs,
                            self@ == (NodeLabelBuilderView { labels: self@.labels, ..start }),
                            forall|j: int| 0 <= j < i ==> #[trigger] resolve_ref(refs[j], items@, scene@.crumbs) is Ok,
                            forall|j: int|
                                0 <= j < orig.len() ==> #[trigger] self@.labels[j] == if j < i {
                                    NodeLabelEntryView {
                                        node_ref: resolve_ref(orig[j].node_ref, items@, scene@.crumbs)->Ok_0,
                                        ..orig[j]
                                    }
                                } else {
                                    orig[j]
                                },
                        decreases orig.len() - i,
                    {
                        let node_ref = self.labels[i].node_ref;
                        proof {
                            assert(self@.labels[i as int] == self.labels@[i as int]@);
                        }
                        match resolve_one(node_ref, items, gid, scene) {
                            Ok(n) => {
                                let ghost before = self.labels@;
                                let ghost before_view = self@.labels;
                                self.labels[i].node_ref = n;
                                proof {
                                    assert forall|j: int| 0 <= j < before.len() && j != i implies #[trigger] self.labels@[j] == before[j] by {}
                                    assert(before_view == entry_views(before));
                                    assert(self@.labels == entry_views(self.labels@));
                                    assert(self.labels@[i as int]@ == (NodeLabelEntryView { node_ref: n, ..before[i as int]@ }));
                                    assert forall|j: int| 0 <= j < orig.len() implies #[trigger] self@.labels[j] == if j < i + 1 {
                                        NodeLabelEntryView {
                                            node_ref: resolve_ref(orig[j].node_ref, items@, scene@.crumbs)->Ok_0,
                                            ..orig[j]
                                        }
                                    } else {
                                        orig[j]
                                    } by {
                                        if j != i {
                                            assert(self@.labels[j] == before_view[j]);
                                        } else {
                                            assert(before[j]@ == before_view[j]);
                                        }
                                    }
                                }
                            },
                            Err(e) => {
                                proof {
                                    lemma_first_unresolved(refs, items@, scene@.crumbs, i as int);
                                    assert(self@.labels =~= labels_resolved(orig, items@, scene@.crumbs));
                                }
                                return Err(e);
                            },
                        }
                        i = i + 1;
                    }
                    proof {
                        lemma_first_unresolved(refs, items@, scene@.crumbs, i as int);
                        assert(self@.labels =~= labels_resolved(orig, items@, scene@.crumbs));
                    }
                    Ok(())
                },
            },
        }
    }

    /// Builds the labels: resolves their references, then adds a label at
    /// each entry's place (its node's center moved by its offset) and a
    /// group placing them all.  An entry that still refers to a crumb
    /// (where no group was given to resolve against) stops the work with an
    /// error, the labels before it added but no group.
    pub fn build(&mut self, scene: &mut Scene) -> (r: Result<GroupId, VisError>)
        requires
            old(scene)@.crumbs.len() + old(self)@.labels.len() < usize::MAX,
            old(scene)@.groups.len() < usize::MAX,
        ensures
            final(self)@ == (NodeLabelBuilderView {
                labels: NodeLabelBuilder::spec_resolved(old(self)@, old(scene)@),
                ..old(self)@
            }),
            ({
                let s = old(scene)@;
                let refs = label_refs(old(self)@.labels);
                let labels = final(self)@.labels;
                let k = first_unplaced(label_refs(labels));
                if resolution_fails(old(self)@.group_id, s, refs) {
                    &&& r is Err
                    &&& resolution_error(r->Err_0, old(self)@.group_id, s, refs)
                    &&& final(scene)@ == s
                } else {
                    &&& final(scene)@.crumbs.len() == s.crumbs.len() + k
                    &&& are_node_labels(final(scene)@.crumbs.subrange(s.crumbs.len() as int, s.crumbs.len() + k), labels)
                    &&& final(scene)@ == built_scene(
                        s,
                        final(scene)@.crumbs.subrange(s.crumbs.len() as int, s.crumbs.len() + k),
                        labels.len(),
                        old(self)@.name,
                    )
                    &&& k < labels.len() ==> r is Err && unresolved_error(r->Err_0, "Label"@)
                    &&& k == labels.len() ==> r is Ok && r->Ok_0.0 == s.groups.len()
                }
            }),
    {
        let resolved = self.resolve_indices(scene);
        match resolved {
            Err(e) => {
                return Err(e);
            },
            Ok(()) => {},
        }
        let mut group = Group::default();
        match &self.name {
            Some(name) => group.set_name(name.as_str()),
            None => {},
        }
        let ghost s0 = scene@;
        let ghost labels = self@.labels;
        let ghost refs = label_refs(labels);
        let mut i: usize = 0;
        assert(group@.crumbs =~= fresh_items(s0.crumbs.len(), 0));
        assert(s0.crumbs.subrange(s0.crumbs.len() as int, s0.crumbs.len() as int) =~= Seq::<Crumb>::empty());
        while i < self.labels.len()
            invariant
                s0 == old(scene)@,
                self@ == (NodeLabelBuilderView {
                    labels: NodeLabelBuilder::spec_resolved(old(self)@, old(scene)@),
                    ..old(self)@
                }),
                !resolution_fails(old(self)@.group_id, old(scene)@, label_refs(old(self)@.labels)),
                self@.labels == labels,
                self.labels@.len() == labels.len(),
                refs == label_refs(labels),
                i <= labels.len(),
                s0.crumbs.len() + labels.len() < usize::MAX,
                forall|j: int| 0 <= j < i ==> #[trigger] refs[j] is Geometry,
                scene@.crumbs.len() == s0.crumbs.len() + i,
                scene@.crumbs.subrange(0, s0.crumbs.len() as int) == s0.crumbs,
                are_node_labels(scene@.crumbs.subrange(s0.crumbs.len() as int, s0.crumbs.len() + i), labels),
                scene@ == (SceneView { crumbs: scene@.crumbs, ..s0 }),
                group@ == (GroupView {
                    crumbs: fresh_items(s0.crumbs.len(), i as nat),
                    groups: Seq::empty(),
                    name: self@.name,
                }),
            decreases labels.len() - i,
        {
            let entry = &self.labels[i];
            proof {
                assert(self@.labels[i as int] == self.labels@[i as int]@);
            }
            match entry.node_ref {
                NodeRef::Geometry(center) => {
                    let origin = match entry.offset {
                        Some(v) => offset_point(center, v),
                        None => offset_by_zero(center),
                    };
                    let crumb = node_label(entry, origin);
                    let ghost before = scene@.crumbs;
                    let id = scene.add_crumb(crumb);
                    group.add_crumb(id, None);
                    proof {
                        let made = scene@.crumbs.subrange(s0.crumbs.len() as int, s0.crumbs.len() + i + 1);
                        let made_before = before.subrange(s0.crumbs.len() as int, s0.crumbs.len() + i);
                        assert(made =~= made_before.push(crumb));
                        assert forall|j: int| 0 <= j < made.len() implies #[trigger] is_node_label(
                            made[j],
                            labels[j],
                            placed_at(labels[j].node_ref, labels[j].offset),
                        ) by {
                            if j < i {
                                assert(made[j] == made_before[j]);
                            }
                        }
                        assert(scene@.crumbs.subrange(0, s0.crumbs.len() as int) =~= s0.crumbs);
                        assert(group@.crumbs =~= fresh_items(s0.crumbs.len(), (i + 1) as nat));
                    }
                },
                _ => {
                    proof {
                        lemma_first_unplaced(refs, i as int);
                        assert(scene@.crumbs =~= s0.crumbs + scene@.crumbs.subrange(s0.crumbs.len() as int, s0.crumbs.len() + i));
                    }
                    return Err(VisError::builder_unresolved("Label"));
                },
            }
            i = i + 1;
        }
        proof {
            lemma_first_unplaced(refs, i as int);
            assert(scene@.crumbs =~= s0.crumbs + scene@.crumbs.subrange(s0.crumbs.len() as int, s0.crumbs.len() + i));
        }
        Ok(scene.add_group(group))
    }
}

/// When every pin's reference resolves against the group, every pin is at
/// a position afterwards, so that building places them all.
pub proof fn law_resolved_pins_are_placed(pins: Seq<PinEntry>, items: Seq<CrumbItem>, crumbs: Seq<Crumb>)
    requires
        first_unresolved(pin_refs(pins), items, crumbs) == pins.len(),
    ensures
        first_unplaced(pin_refs(pins_resolved(pins, items, crumbs))) == pins.len(),
{
    let refs = pin_refs(pins);
    lemma_resolved_prefix(refs, items, crumbs);
    let after = pin_refs(pins_resolved(pins, items, crumbs));
    assert forall|j: int| 0 <= j < pins.len() implies #[trigger] after[j] is Geometry by {
        assert(resolve_ref(refs[j], items, crumbs) is Ok);
    }
    lemma_first_unplaced(after, pins.len() as int);
}

/// When every label's reference resolves against the group, every label
/// is at a position afterwards, so that building places them all.
pub proof fn law_resolved_labels_are_placed(labels: Seq<NodeLabelEntryView>, items: Seq<CrumbItem>, crumbs: Seq<Crumb>)
    requires
        first_unresolved(label_refs(labels), items, crumbs) == labels.len(),
    ensures
        first_unplaced(label_refs(labels_resolved(labels, items, crumbs))) == labels.len(),
{
    let refs = label_refs(labels);
    lemma_resolved_prefix(refs, items, crumbs);
    let after = label_refs(labels_resolved(labels, items, crumbs));
    assert forall|j: int| 0 <= j < labels.len() implies #[trigger] after[j] is Geometry by {
        assert(resolve_ref(refs[j], items, crumbs) is Ok);
    }
    lemma_first_unplaced(after, labels.len() as int);
}

} // verus!
