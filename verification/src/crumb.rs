//! Crumbs: the drawable things of a scene.
use vstd::prelude::*;
use kurbo::{Arc, BezPath, Circle, Line, Rect, RoundedRect, TranslateScale};
use crate::style::StyleId;
use crate::text::{fonts_resolved, placed_style_font, PreprocessWithStyle, TextLabel};
use crate::error::VisError;
use crate::style::Style;
use crate::theme::Theme;
use crate::scene::Scene;

verus! {

/// Index of a crumb in a `Scene`.
#[derive(Clone, Copy, PartialEq, Eq, Structural, Hash, Debug)]
pub struct CrumbId(pub usize);

/// A placement of a crumb: which crumb, the transform it is drawn under,
/// and the style it is drawn in (the theme's default where there is none).
#[derive(Clone, Copy, Debug)]
pub struct CrumbItem(pub CrumbId, pub TranslateScale, pub Option<StyleId>);

/// A drawable thing: a shape, a path, a pin (a small circle marking a
/// node), or a text label.
#[derive(Debug)]
pub enum Crumb {
    Line(Line),
    Rect(Rect),
    RoundedRect(RoundedRect),
    Circle(Circle),
    Arc(Arc),
    Path(BezPath),
    Pin(Circle),
    Label(TextLabel),
}

/// Whether `c` is a copy of `of`: the same shape, or a copy of the same
/// label.
pub open spec fn is_copy_of(c: Crumb, of: Crumb) -> bool {
    match of {
        Crumb::Label(l) => c matches Crumb::Label(m) && crate::text::label_copied(l, m),
        _ => c == of,
    }
}

impl Clone for Crumb {
    fn clone(&self) -> (r: Self)
        ensures
            is_copy_of(r, *self),
    {
        match self {
            Crumb::Line(x) => Crumb::Line(x.clone()),
            Crumb::Rect(x) => Crumb::Rect(x.clone()),
            Crumb::RoundedRect(x) => Crumb::RoundedRect(x.clone()),
            Crumb::Circle(x) => Crumb::Circle(x.clone()),
            Crumb::Arc(x) => Crumb::Arc(x.clone()),
            Crumb::Path(x) => Crumb::Path(x.clone()),
            Crumb::Pin(x) => Crumb::Pin(x.clone()),
            Crumb::Label(x) => Crumb::Label(x.clone()),
        }
    }
}

impl From<Line> for Crumb {
    fn from(shape: Line) -> (c: Crumb)
        ensures
            c == Crumb::Line(shape),
    {
        Crumb::Line(shape)
    }
}

impl vstd::std_specs::convert::FromSpecImpl<Line> for Crumb {
    open spec fn obeys_from_spec() -> bool {
        true
    }

    open spec fn from_spec(v: Line) -> Crumb {
        Crumb::Line(v)
    }
}

impl From<Rect> for Crumb {
    fn from(shape: Rect) -> (c: Crumb)
        ensures
            c == Crumb::Rect(shape),
    {
        Crumb::Rect(shape)
    }
}

impl vstd::std_specs::convert::FromSpecImpl<Rect> for Crumb {
    open spec fn obeys_from_spec() -> bool {
        true
    }

    open spec fn from_spec(v: Rect) -> Crumb {
        Crumb::Rect(v)
    }
}

impl From<RoundedRect> for Crumb {
    fn from(shape: RoundedRect) -> (c: Crumb)
        ensures
            c == Crumb::RoundedRect(shape),
    {
        Crumb::RoundedRect(shape)
    }
}

impl vstd::std_specs::convert::FromSpecImpl<RoundedRect> for Crumb {
    open spec fn obeys_from_spec() -> bool {
        true
    }

    open spec fn from_spec(v: RoundedRect) -> Crumb {
        Crumb::RoundedRect(v)
    }
}

impl From<Circle> for Crumb {
    fn from(shape: Circle) -> (c: Crumb)
        ensures
            c == Crumb::Circle(shape),
    {
        Crumb::Circle(shape)
    }
}

impl vstd::std_specs::convert::FromSpecImpl<Circle> for Crumb {
    open spec fn obeys_from_spec() -> bool {
        true
    }

    open spec fn from_spec(v: Circle) -> Crumb {
        Crumb::Circle(v)
    }
}

impl From<Arc> for Crumb {
    fn from(shape: Arc) -> (c: Crumb)
        ensures
            c == Crumb::Arc(shape),
    {
        Crumb::Arc(shape)
    }
}

impl vstd::std_specs::convert::FromSpecImpl<Arc> for Crumb {
    open spec fn obeys_from_spec() -> bool {
        true
    }

    open spec fn from_spec(v: Arc) -> Crumb {
        Crumb::Arc(v)
    }
}

impl From<BezPath> for Crumb {
    fn from(shape: BezPath) -> (c: Crumb)
        ensures
            c == Crumb::Path(shape),
    {
        Crumb::Path(shape)
    }
}

impl vstd::std_specs::convert::FromSpecImpl<BezPath> for Crumb {
    open spec fn obeys_from_spec() -> bool {
        true
    }

    open spec fn from_spec(v: BezPath) -> Crumb {
        Crumb::Path(v)
    }
}

impl From<TextLabel> for Crumb {
    fn from(label: TextLabel) -> (c: Crumb)
        ensures
            c == Crumb::Label(label),
    {
        Crumb::Label(label)
    }
}

impl vstd::std_specs::convert::FromSpecImpl<TextLabel> for Crumb {
    open spec fn obeys_from_spec() -> bool {
        true
    }

    open spec fn from_spec(v: TextLabel) -> Crumb {
        Crumb::Label(v)
    }
}

impl PreprocessWithStyle for Crumb {
    /// Settles the fonts of a text label as `TextLabel` does; other crumbs
    /// are left as they are.
    fn preprocess_with_style(&mut self, ts: TranslateScale, style: Option<&Style>, theme: &Theme) -> (r: Result<
        (),
        VisError,
    >)
        ensures
            r is Ok,
            match *old(self) {
                Crumb::Label(before) => *final(self) matches Crumb::Label(after) && fonts_resolved(
                    before,
                    after,
                    placed_style_font(style, theme@),
                ),
                _ => *final(self) == *old(self),
            },
    {
        match self {
            Crumb::Label(label) => label.preprocess_with_style(ts, style, theme),
            _ => Ok(()),
        }
    }
}

/// A list of crumb placements, each with the depth of the group that
/// placed it.
#[derive(Debug)]
pub struct CrumbSet {
    crumbs: Vec<CrumbItem>,
    levels: Vec<usize>,
}

/// What a crumb set is, as contracts see it.
pub struct CrumbSetView {
    pub crumbs: Seq<CrumbItem>,
    pub levels: Seq<usize>,
}

impl View for CrumbSet {
    type V = CrumbSetView;

    closed spec fn view(&self) -> CrumbSetView {
        CrumbSetView { crumbs: self.crumbs@, levels: self.levels@ }
    }
}

/// What a placement of a crumb gives when the crumb is looked up in a
/// scene: the crumb with the placement's transform and style, or the id
/// that the scene lacks.
pub open spec fn spec_lookup(crumbs: Seq<Crumb>, item: CrumbItem) -> Result<(Crumb, TranslateScale, Option<StyleId>), CrumbId> {
    if item.0.0 < crumbs.len() {
        Ok((crumbs[item.0.0 as int], item.1, item.2))
    } else {
        Err(item.0)
    }
}

/// Each of `items` looked up in `crumbs`.
pub open spec fn spec_lookups(crumbs: Seq<Crumb>, items: Seq<CrumbItem>) -> Seq<
    Result<(Crumb, TranslateScale, Option<StyleId>), CrumbId>,
> {
    Seq::new(items.len(), |i: int| spec_lookup(crumbs, items[i]))
}

/// The placements of text labels among `items`, up to the first
/// placement of a crumb that `crumbs` lacks, and that crumb's id.
pub open spec fn spec_label_items(crumbs: Seq<Crumb>, items: Seq<CrumbItem>) -> (Seq<CrumbItem>, Option<CrumbId>)
    decreases items.len(),
{
    if items.len() == 0 {
        (Seq::empty(), None)
    } else {
        let (found, missing) = spec_label_items(crumbs, items.drop_last());
        let item = items.last();
        if missing is Some {
            (found, missing)
        } else if item.0.0 >= crumbs.len() {
            (found, Some(item.0))
        } else if crumbs[item.0.0 as int] is Label {
            (found.push(item), None)
        } else {
            (found, None)
        }
    }
}

/// Views of crumb lookups.
pub open spec fn lookups_view(r: Seq<Result<(&Crumb, TranslateScale, Option<StyleId>), VisError>>) -> Seq<
    Result<(Crumb, TranslateScale, Option<StyleId>), CrumbId>,
> {
    r.map_values(
        |e: Result<(&Crumb, TranslateScale, Option<StyleId>), VisError>|
            match e {
                Ok(t) => Ok((*t.0, t.1, t.2)),
                Err(err) => match err.inner {
                    crate::error::InnerError::CrumbMissingForId(id) => Err(id),
                    _ => Err(CrumbId(usize::MAX)),
                },
            },
    )
}

impl Clone for CrumbSet {
    fn clone(&self) -> (s: Self)
        ensures
            s@ == self@,
    {
        proof {
            use_type_invariant(self);
        }
        CrumbSet { crumbs: self.crumbs.clone(), levels: self.levels.clone() }
    }
}

impl Default for CrumbSet {
    fn default() -> (s: Self)
        ensures
            s@.crumbs == Seq::<CrumbItem>::empty(),
            s@.levels == Seq::<usize>::empty(),
    {
        CrumbSet { crumbs: Vec::new(), levels: Vec::new() }
    }
}

impl CrumbSet {
    #[verifier::type_invariant]
    spec fn levels_match(self) -> bool {
        self.crumbs@.len() == self.levels@.len()
    }

    /// The set of the given placements, each with its level.
    pub fn from_items(items: Vec<(usize, CrumbItem)>) -> (s: Self)
        ensures
            s@.crumbs == items@.map_values(|p: (usize, CrumbItem)| p.1),
            s@.levels == items@.map_values(|p: (usize, CrumbItem)| p.0),
    {
        let mut crumbs: Vec<CrumbItem> = Vec::new();
        let mut levels: Vec<usize> = Vec::new();
        let mut i: usize = 0;
        while i < items.len()
            invariant
                i <= items@.len(),
                crumbs@ == items@.subrange(0, i as int).map_values(|p: (usize, CrumbItem)| p.1),
                levels@ == items@.subrange(0, i as int).map_values(|p: (usize, CrumbItem)| p.0),
            decreases items@.len() - i,
        {
            let (level, item) = items[i];
            crumbs.push(item);
            levels.push(level);
            proof {
                assert(items@.subrange(0, i + 1) == items@.subrange(0, i as int).push(items@[i as int]));
            }
            i = i + 1;
        }
        proof {
            assert(items@.subrange(0, i as int) == items@);
        }
        CrumbSet { crumbs, levels }
    }

    /// Each placement looked up in `scene`, in order: the crumb with the
    /// placement's transform and style, or an error naming a crumb that the
    /// scene lacks.
    pub fn get_crumbs<'a>(&'a self, scene: &'a Scene) -> (r: Vec<Result<(&'a Crumb, TranslateScale, Option<StyleId>), VisError>>)
        ensures
            lookups_view(r@) == spec_lookups(scene@.crumbs, self@.crumbs),
    {
        let mut r: Vec<Result<(&'a Crumb, TranslateScale, Option<StyleId>), VisError>> = Vec::new();
        let mut i: usize = 0;
        while i < self.crumbs.len()
            invariant
                i <= self.crumbs@.len(),
                lookups_view(r@) == spec_lookups(scene@.crumbs, self.crumbs@.subrange(0, i as int)),
            decreases self.crumbs@.len() - i,
        {
            let item = self.crumbs[i];
            let found = match scene.get_crumb(item.0) {
                Some(crumb) => Ok((crumb, item.1, item.2)),
                None => Err(VisError::crumb_missing_for_id(item.0)),
            };
            let ghost old_r = r@;
            r.push(found);
            proof {
                assert(lookups_view(old_r).len() == old_r.len());
                assert(r@.len() == i + 1);
                assert(r@[i as int] == found);
                assert forall|j: int| 0 <= j < i implies lookups_view(r@)[j] == spec_lookups(scene@.crumbs, self.crumbs@.subrange(0, i + 1))[j] by {
                    assert(r@[j] == old_r[j]);
                    assert(lookups_view(old_r)[j] == spec_lookups(scene@.crumbs, self.crumbs@.subrange(0, i as int))[j]);
                }
                assert(self.crumbs@.subrange(0, i + 1) == self.crumbs@.subrange(0, i as int).push(self.crumbs@[i as int]));
                assert(lookups_view(r@)[i as int] == spec_lookup(scene@.crumbs, item));
                assert(lookups_view(r@) =~= spec_lookups(scene@.crumbs, self.crumbs@.subrange(0, i + 1)));
            }
            i = i + 1;
        }
        proof {
            assert(self.crumbs@.subrange(0, i as int) == self.crumbs@);
        }
        r
    }

    /// The placements of text labels in the set, in order, up to the first
    /// placement of a crumb that `scene` lacks; with an error naming that
    /// crumb, where there is one.
    pub fn label_items(&self, scene: &Scene) -> (r: (Vec<CrumbItem>, Result<(), VisError>))
        ensures
            r.0@ == spec_label_items(scene@.crumbs, self@.crumbs).0,
            match spec_label_items(scene@.crumbs, self@.crumbs).1 {
                None => r.1 is Ok,
                Some(id) => r.1 is Err && r.1->Err_0.inner == crate::error::InnerError::CrumbMissingForId(id)
                    && r.1->Err_0.details is None,
            },
    {
        let mut found: Vec<CrumbItem> = Vec::new();
        let mut i: usize = 0;
        while i < self.crumbs.len()
            invariant
                i <= self.crumbs@.len(),
                spec_label_items(scene@.crumbs, self.crumbs@.subrange(0, i as int)).1 is None,
                found@ == spec_label_items(scene@.crumbs, self.crumbs@.subrange(0, i as int)).0,
            decreases self.crumbs@.len() - i,
        {
            let item = self.crumbs[i];
            proof {
                assert(self.crumbs@.subrange(0, i + 1).drop_last() == self.crumbs@.subrange(0, i as int));
            }
            match scene.get_crumb(item.0) {
                None => {
                    proof {
                        lemma_label_items_stop(scene@.crumbs, self.crumbs@, i + 1);
                    }
                    return (found, Err(VisError::crumb_missing_for_id(item.0)));
                },
                Some(crumb) => {
                    match crumb {
                        Crumb::Label(_) => found.push(item),
                        _ => {},
                    }
                },
            }
            i = i + 1;
        }
        proof {
            assert(self.crumbs@.subrange(0, i as int) == self.crumbs@);
        }
        (found, Ok(()))
    }
}

/// Once the label placements of a prefix stop at a missing crumb, those of
/// the whole list stop there too.
proof fn lemma_label_items_stop(crumbs: Seq<Crumb>, items: Seq<CrumbItem>, k: int)
    requires
        0 <= k <= items.len(),
        spec_label_items(crumbs, items.subrange(0, k)).1 is Some,
    ensures
        spec_label_items(crumbs, items) == spec_label_items(crumbs, items.subrange(0, k)),
    decreases items.len() - k,
{
    if k < items.len() {
        assert(items.subrange(0, k + 1).drop_last() == items.subrange(0, k));
        lemma_label_items_stop(crumbs, items, k + 1);
    } else {
        assert(items.subrange(0, k) == items);
    }
}

} // verus!
