//! Groups: lists of crumb placements and of placements of other groups.
use vstd::prelude::*;
use kurbo::TranslateScale;
use crate::crumb::{CrumbId, CrumbItem};
use crate::geometry::{ts_uniform_scale, uniform_scale};
use crate::style::StyleId;

verus! {

/// Index of a group in a `Scene`.
#[derive(Clone, Copy, PartialEq, Eq, Structural, Hash, Debug)]
pub struct GroupId(pub usize);

/// A placement of a group under a transform.
#[derive(Clone, Copy, Debug)]
pub struct GroupItem(pub GroupId, pub TranslateScale);

/// The identity transform: scaling by one.
pub open spec fn identity() -> TranslateScale {
    ts_uniform_scale(1)
}

/// A group of crumb placements and group placements, optionally named.
#[derive(Clone, Debug)]
pub struct Group {
    crumbs: Vec<CrumbItem>,
    groups: Vec<GroupItem>,
    name: Option<String>,
}

/// What a group is, as contracts see it.
pub struct GroupView {
    pub crumbs: Seq<CrumbItem>,
    pub groups: Seq<GroupItem>,
    pub name: Option<Seq<char>>,
}

impl View for Group {
    type V = GroupView;

    closed spec fn view(&self) -> GroupView {
        GroupView { crumbs: self.crumbs@, groups: self.groups@, name: crate::style::opt_view(self.name) }
    }
}

/// Crumb placements under the identity transform.
pub open spec fn identity_items(ids: Seq<(CrumbId, Option<StyleId>)>) -> Seq<CrumbItem> {
    ids.map_values(|p: (CrumbId, Option<StyleId>)| CrumbItem(p.0, identity(), p.1))
}

/// Group placements under the identity transform.
pub open spec fn identity_group_items(ids: Seq<GroupId>) -> Seq<GroupItem> {
    ids.map_values(|g: GroupId| GroupItem(g, identity()))
}

fn crumb_items_of(ids: Vec<(CrumbId, Option<StyleId>)>) -> (r: Vec<CrumbItem>)
    ensures
        r@ == identity_items(ids@),
{
    let mut r: Vec<CrumbItem> = Vec::new();
    let mut i: usize = 0;
    while i < ids.len()
        invariant
            i <= ids@.len(),
            r@ == identity_items(ids@.subrange(0, i as int)),
        decreases ids@.len() - i,
    {
        let (c, s) = ids[i];
        r.push(CrumbItem(c, uniform_scale(1), s));
        assert(ids@.subrange(0, i + 1) == ids@.subrange(0, i as int).push(ids@[i as int]));
        i += 1;
    }
    assert(ids@.subrange(0, ids@.len() as int) == ids@);
    r
}

fn group_items_of(ids: Vec<GroupId>) -> (r: Vec<GroupItem>)
    ensures
        r@ == identity_group_items(ids@),
{
    let mut r: Vec<GroupItem> = Vec::new();
    let mut i: usize = 0;
    while i < ids.len()
        invariant
            i <= ids@.len(),
            r@ == identity_group_items(ids@.subrange(0, i as int)),
        decreases ids@.len() - i,
    {
        r.push(GroupItem(ids[i], uniform_scale(1)));
        assert(ids@.subrange(0, i + 1) == ids@.subrange(0, i as int).push(ids@[i as int]));
        i += 1;
    }
    assert(ids@.subrange(0, ids@.len() as int) == ids@);
    r
}

impl Default for Group {
    fn default() -> (g: Self)
        ensures
            g@ == (GroupView { crumbs: Seq::empty(), groups: Seq::empty(), name: None }),
    {
        let g = Group { crumbs: Vec::new(), groups: Vec::new(), name: None };
        assert(g@.crumbs =~= Seq::<CrumbItem>::empty());
        assert(g@.groups =~= Seq::<GroupItem>::empty());
        g
    }
}

impl Group {
    pub fn from_crumb_items(crumbs: Vec<CrumbItem>) -> (g: Self)
        ensures
            g@ == (GroupView { crumbs: crumbs@, groups: Seq::empty(), name: None }),
    {
        let g = Group { crumbs, groups: Vec::new(), name: None };
        assert(g@.groups =~= Seq::<GroupItem>::empty());
        g
    }

    pub fn from_group_items(groups: Vec<GroupItem>) -> (g: Self)
        ensures
            g@ == (GroupView { crumbs: Seq::empty(), groups: groups@, name: None }),
    {
        let g = Group { crumbs: Vec::new(), groups, name: None };
        assert(g@.crumbs =~= Seq::<CrumbItem>::empty());
        g
    }

    /// A group placing the given crumbs, in the given styles, untransformed.
    pub fn from_crumb_ids(crumbs: Vec<(CrumbId, Option<StyleId>)>) -> (g: Self)
        ensures
            g@ == (GroupView { crumbs: identity_items(crumbs@), groups: Seq::empty(), name: None }),
    {
        Group::from_crumb_items(crumb_items_of(crumbs))
    }

    /// A group placing the given groups untransformed.
    pub fn from_group_ids(groups: Vec<GroupId>) -> (g: Self)
        ensures
            g@ == (GroupView { crumbs: Seq::empty(), groups: identity_group_items(groups@), name: None }),
    {
        Group::from_group_items(group_items_of(groups))
    }

    pub fn with_crumb_item(self, crumb: CrumbItem) -> (g: Self)
        ensures
            g@ == (GroupView { crumbs: self@.crumbs.push(crumb), ..self@ }),
    {
        let mut g = self;
        g.crumbs.push(crumb);
        g
    }

    pub fn with_group_item(self, group: GroupItem) -> (g: Self)
        ensures
            g@ == (GroupView { groups: self@.groups.push(group), ..self@ }),
    {
        let mut g = self;
        g.groups.push(group);
        g
    }

    pub fn with_crumb_id(self, crumb_id: CrumbId, style_id: Option<StyleId>) -> (g: Self)
        ensures
            g@ == (GroupView { crumbs: self@.crumbs.push(CrumbItem(crumb_id, identity(), style_id)), ..self@ }),
    {
        let mut g = self;
        g.add_crumb(crumb_id, style_id);
        g
    }

    pub fn with_group_id(self, group_id: GroupId) -> (g: Self)
        ensures
            g@ == (GroupView { groups: self@.groups.push(GroupItem(group_id, identity())), ..self@ }),
    {
        let mut g = self;
        g.groups.push(GroupItem(group_id, uniform_scale(1)));
        g
    }

    pub fn with_crumb_items(self, crumbs: Vec<CrumbItem>) -> (g: Self)
        ensures
            g@ == (GroupView { crumbs: self@.crumbs + crumbs@, ..self@ }),
    {
        let mut g = self;
        let mut crumbs = crumbs;
        g.crumbs.append(&mut crumbs);
        g
    }

    pub fn with_group_items(self, groups: Vec<GroupItem>) -> (g: Self)
        ensures
            g@ == (GroupView { groups: self@.groups + groups@, ..self@ }),
    {
        let mut g = self;
        let mut groups = groups;
        g.groups.append(&mut groups);
        g
    }

    pub fn with_crumb_ids(self, crumbs: Vec<(CrumbId, Option<StyleId>)>) -> (g: Self)
        ensures
            g@ == (GroupView { crumbs: self@.crumbs + identity_items(crumbs@), ..self@ }),
    {
        self.with_crumb_items(crumb_items_of(crumbs))
    }

    pub fn with_group_ids(self, groups: Vec<GroupId>) -> (g: Self)
        ensures
            g@ == (GroupView { groups: self@.groups + identity_group_items(groups@), ..self@ }),
    {
        self.with_group_items(group_items_of(groups))
    }

    pub fn with_name(self, name: &str) -> (g: Self)
        ensures
            g@ == (GroupView { name: Some(name@), ..self@ }),
    {
        let mut g = self;
        g.set_name(name);
        g
    }

    pub fn set_name(&mut self, name: &str)
        ensures
            final(self)@ == (GroupView { name: Some(name@), ..old(self)@ }),
    {
        self.name = Some(name.to_owned());
    }

    /// Places a crumb untransformed.
    pub fn add_crumb(&mut self, crumb_id: CrumbId, style_id: Option<StyleId>)
        ensures
            final(self)@ == (GroupView {
                crumbs: old(self)@.crumbs.push(CrumbItem(crumb_id, identity(), style_id)),
                ..old(self)@
            }),
    {
        self.crumbs.push(CrumbItem(crumb_id, uniform_scale(1), style_id));
    }

    pub fn get_crumb_items(&self) -> (items: &[CrumbItem])
        ensures
            items@ == self@.crumbs,
    {
        self.crumbs.as_slice()
    }

    pub fn get_group_items(&self) -> (items: &[GroupItem])
        ensures
            items@ == self@.groups,
    {
        self.groups.as_slice()
    }

    pub fn get_name(&self) -> (n: Option<&str>)
        ensures
            crate::style::opt_str_view(n) == self@.name,
    {
        match &self.name {
            Some(name) => Some(name.as_str()),
            None => None,
        }
    }
}

} // verus!
