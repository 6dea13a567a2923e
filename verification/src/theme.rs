//! Themes: a default style, a scene style, named styles and named
//! gradients.
use vstd::prelude::*;
use vstd::hash_map::StringHashMap;
use crate::color::Color;
use crate::style::{Fill, FillView, Gradient, GradientStop, GradientView, Stroke, StrokeView, Style, StyleId, StyleView, UnitPoint};

verus! {

/// Named gradients as contracts see them.
pub type NamedGradients = Seq<(Seq<char>, GradientView)>;

/// The position of the entry named `name`, or the length where there is none.
pub open spec fn name_index(s: NamedGradients, name: Seq<char>) -> int
    decreases s.len(),
{
    if s.len() == 0 {
        0
    } else if s[0].0 == name {
        0
    } else {
        1 + name_index(s.drop_first(), name)
    }
}

proof fn lemma_name_index(s: NamedGradients, name: Seq<char>)
    ensures
        0 <= name_index(s, name) <= s.len(),
        name_index(s, name) < s.len() ==> s[name_index(s, name)].0 == name,
        forall|i: int| 0 <= i < name_index(s, name) ==> s[i].0 != name,
    decreases s.len(),
{
    if s.len() > 0 && s[0].0 != name {
        lemma_name_index(s.drop_first(), name);
        assert forall|i: int| 0 <= i < name_index(s, name) implies s[i].0 != name by {
            if i > 0 {
                assert(s[i] == s.drop_first()[i - 1]);
            }
        }
    }
}

/// The list after naming `g` as `name`: an entry of that name is replaced
/// in place, or the entry is appended.
pub open spec fn spec_put(s: NamedGradients, name: Seq<char>, g: GradientView) -> NamedGradients {
    let i = name_index(s, name);
    if i < s.len() {
        s.update(i, (name, g))
    } else {
        s.push((name, g))
    }
}

/// The gradient named `name`, if any.
pub open spec fn spec_lookup(s: NamedGradients, name: Seq<char>) -> Option<GradientView> {
    let i = name_index(s, name);
    if i < s.len() {
        Some(s[i].1)
    } else {
        None
    }
}

/// A gradient named `name` is found by that name; naming it leaves what
/// other names find as it was.
pub proof fn law_lookup_after_put(s: NamedGradients, name: Seq<char>, g: GradientView, other: Seq<char>)
    ensures
        spec_lookup(spec_put(s, name, g), name) == Some(g),
        other != name ==> spec_lookup(spec_put(s, name, g), other) == spec_lookup(s, other),
{
    lemma_name_index(s, name);
    lemma_name_index(s, other);
    let t = spec_put(s, name, g);
    lemma_name_index(t, name);
    lemma_name_index(t, other);
    let i = name_index(s, name);
    let n = name_index(t, name);
    assert(t[i] == (name, g));
    assert(n <= i);
    if n < i {
        assert(t[n] == s[n]);
        assert(false);
    }
    assert(n == i);
    if other != name {
        let k = name_index(s, other);
        let m = name_index(t, other);
        if m < k {
            if m != i {
                assert(t[m] == s[m]);
            }
            assert(false);
        }
        if k < m {
            if k < s.len() {
                assert(k != i);
                assert(t[k] == s[k]);
                assert(false);
            } else {
                if m < t.len() {
                    assert(t[m].0 == other);
                    assert(m == s.len());
                    assert(false);
                }
            }
        } else {
            assert(k == m);
            if k < s.len() {
                assert(k != i);
                assert(t[k] == s[k]);
            }
        }
    }
}

/// The views of named gradients.
pub open spec fn named_views(v: Seq<(String, Gradient)>) -> NamedGradients {
    v.map_values(|e: (String, Gradient)| (e.0@, e.1@))
}

/// The views of styles.
pub open spec fn style_views(v: Seq<Style>) -> Seq<StyleView> {
    v.map_values(|s: Style| s@)
}

/// A linear gradient as named in `Theme::with_gradients`.
pub open spec fn linear_view(e: (String, UnitPoint, UnitPoint, Vec<GradientStop>)) -> (Seq<char>, GradientView) {
    (e.0@, GradientView::Linear(e.1, e.2, e.3@))
}

/// A radial gradient as named in `Theme::with_gradients`.
pub open spec fn radial_view(e: (String, u64, Vec<GradientStop>)) -> (Seq<char>, GradientView) {
    (e.0@, GradientView::Radial(e.1, e.2@))
}

/// The list after naming each of `entries` in turn.
pub open spec fn spec_put_all(s: NamedGradients, entries: Seq<(Seq<char>, GradientView)>) -> NamedGradients
    decreases entries.len(),
{
    if entries.len() == 0 {
        s
    } else {
        spec_put_all(spec_put(s, entries[0].0, entries[0].1), entries.drop_first())
    }
}

fn put(list: &mut Vec<(String, Gradient)>, name: String, g: Gradient)
    ensures
        named_views(final(list)@) == spec_put(named_views(old(list)@), name@, g@),
{
    let ghost s = named_views(list@);
    proof {
        lemma_name_index(s, name@);
    }
    let mut i: usize = 0;
    while i < list.len()
        invariant
            s == named_views(list@),
            s == named_views(old(list)@),
            i <= list@.len(),
            forall|q: int| 0 <= q < i ==> s[q].0 != name@,
            0 <= name_index(s, name@) <= s.len(),
            name_index(s, name@) < s.len() ==> s[name_index(s, name@)].0 == name@,
            forall|q: int| 0 <= q < name_index(s, name@) ==> s[q].0 != name@,
        decreases list@.len() - i,
    {
        if list[i].0 == name {
            assert(s[i as int].0 == name@);
            assert(name_index(s, name@) == i);
            let ghost nv = name@;
            let ghost gv = g@;
            let ghost before = list@;
            list.set(i, (name, g));
            assert(list@ == before.update(i as int, (name, g)));
            assert(named_views(list@) =~= s.update(i as int, (nv, gv)));
            assert(spec_put(s, nv, gv) == s.update(i as int, (nv, gv)));
            assert(named_views(list@) == spec_put(named_views(old(list)@), nv, gv));
            return;
        }
        i += 1;
    }
    assert(name_index(s, name@) == s.len());
    let ghost nv = name@;
    let ghost gv = g@;
    list.push((name, g));
    assert(named_views(list@) =~= s.push((nv, gv)));
}

fn find<'a>(list: &'a Vec<(String, Gradient)>, name: &str) -> (r: Option<&'a Gradient>)
    ensures
        r.is_some() == spec_lookup(named_views(list@), name@).is_some(),
        r.is_some() ==> r.unwrap()@ == spec_lookup(named_views(list@), name@).unwrap(),
{
    let ghost s = named_views(list@);
    proof {
        lemma_name_index(s, name@);
    }
    let key = name.to_owned();
    let mut i: usize = 0;
    while i < list.len()
        invariant
            s == named_views(list@),
            key@ == name@,
            i <= list@.len(),
            forall|q: int| 0 <= q < i ==> s[q].0 != name@,
            0 <= name_index(s, name@) <= s.len(),
            name_index(s, name@) < s.len() ==> s[name_index(s, name@)].0 == name@,
            forall|q: int| 0 <= q < name_index(s, name@) ==> s[q].0 != name@,
        decreases list@.len() - i,
    {
        if list[i].0 == key {
            assert(s[i as int].0 == name@);
            return Some(&list[i].1);
        }
        i += 1;
    }
    None
}

/// A theme: the style of crumbs placed without one, the style of the
/// scene itself (its fill is the background), styles registered under
/// names, and named gradients.
pub struct Theme {
    default_style: Style,
    scene_style: Style,
    named_styles: StringHashMap<StyleId>,
    styles: Vec<Style>,
    named_gradspecs: Vec<(String, Gradient)>,
    linear_gradients: Vec<(String, Gradient)>,
    radial_gradients: Vec<(String, Gradient)>,
}

/// What a theme is, as contracts see it.
pub struct ThemeView {
    pub default_style: StyleView,
    pub scene_style: StyleView,
    pub named_styles: Map<Seq<char>, StyleId>,
    pub styles: Seq<StyleView>,
    pub named_gradspecs: NamedGradients,
    pub linear_gradients: NamedGradients,
    pub radial_gradients: NamedGradients,
}

impl View for Theme {
    type V = ThemeView;

    closed spec fn view(&self) -> ThemeView {
        ThemeView {
            default_style: self.default_style@,
            scene_style: self.scene_style@,
            named_styles: self.named_styles@,
            styles: style_views(self.styles@),
            named_gradspecs: named_views(self.named_gradspecs@),
            linear_gradients: named_views(self.linear_gradients@),
            radial_gradients: named_views(self.radial_gradients@),
        }
    }
}

impl Default for Theme {
    fn default() -> (t: Self)
        ensures
            t@ == Theme::spec_empty(),
    {
        Theme::new()
    }
}

impl Theme {
    /// The theme with empty default and scene styles and nothing named.
    pub open spec fn spec_empty() -> ThemeView {
        ThemeView {
            default_style: Style::spec_empty(),
            scene_style: Style::spec_empty(),
            named_styles: Map::empty(),
            styles: Seq::empty(),
            named_gradspecs: Seq::empty(),
            linear_gradients: Seq::empty(),
            radial_gradients: Seq::empty(),
        }
    }

    pub fn new() -> (t: Self)
        ensures
            t@ == Theme::spec_empty(),
    {
        let t = Theme {
            default_style: Style::new(),
            scene_style: Style::new(),
            named_styles: StringHashMap::new(),
            styles: Vec::new(),
            named_gradspecs: Vec::new(),
            linear_gradients: Vec::new(),
            radial_gradients: Vec::new(),
        };
        assert(t@.styles =~= Seq::<StyleView>::empty());
        assert(t@.named_gradspecs =~= Seq::<(Seq<char>, GradientView)>::empty());
        assert(t@.linear_gradients =~= Seq::<(Seq<char>, GradientView)>::empty());
        assert(t@.radial_gradients =~= Seq::<(Seq<char>, GradientView)>::empty());
        t
    }

    pub fn with_default_style(self, default_style: Style) -> (t: Self)
        ensures
            t@ == (ThemeView { default_style: default_style@, ..self@ }),
    {
        let mut t = self;
        t.default_style = default_style;
        t
    }

    pub fn with_scene_style(self, scene_style: Style) -> (t: Self)
        ensures
            t@ == (ThemeView { scene_style: scene_style@, ..self@ }),
    {
        let mut t = self;
        t.scene_style = scene_style;
        t
    }

    /// The registry after each of `styles` is appended and its name made to
    /// refer to it, in turn.
    pub open spec fn spec_named(
        names: Map<Seq<char>, StyleId>,
        base: nat,
        styles: Seq<(Seq<char>, StyleView)>,
    ) -> Map<Seq<char>, StyleId>
        decreases styles.len(),
    {
        if styles.len() == 0 {
            names
        } else {
            Theme::spec_named(names.insert(styles[0].0, StyleId(base as usize)), base + 1, styles.drop_first())
        }
    }

    /// A name refers to the last style registered under it: the style at
    /// the position it was registered at, counted from `base`.
    pub proof fn law_name_finds_last_style(
        names: Map<Seq<char>, StyleId>,
        base: nat,
        styles: Seq<(Seq<char>, StyleView)>,
        k: int,
    )
        requires
            0 <= k < styles.len(),
            base + styles.len() <= usize::MAX,
            forall|j: int| k < j < styles.len() ==> #[trigger] styles[j].0 != styles[k].0,
        ensures
            Theme::spec_named(names, base, styles).contains_key(styles[k].0),
            Theme::spec_named(names, base, styles)[styles[k].0] == StyleId((base + k) as usize),
        decreases styles.len(),
    {
        let rest = styles.drop_first();
        let m = names.insert(styles[0].0, StyleId(base as usize));
        if k == 0 {
            assert forall|j: int| 0 <= j < rest.len() implies #[trigger] rest[j].0 != styles[0].0 by {
                assert(rest[j] == styles[j + 1]);
            }
            Theme::lemma_named_untouched(m, base + 1, rest, styles[0].0);
        } else {
            assert forall|j: int| k - 1 < j < rest.len() implies #[trigger] rest[j].0 != rest[k - 1].0 by {
                assert(rest[j] == styles[j + 1]);
            }
            Theme::law_name_finds_last_style(m, base + 1, rest, k - 1);
        }
    }

    /// Registering styles under other names leaves what a name refers to
    /// as it was.
    proof fn lemma_named_untouched(
        names: Map<Seq<char>, StyleId>,
        base: nat,
        styles: Seq<(Seq<char>, StyleView)>,
        key: Seq<char>,
    )
        requires
            forall|j: int| 0 <= j < styles.len() ==> #[trigger] styles[j].0 != key,
        ensures
            Theme::spec_named(names, base, styles).contains_key(key) == names.contains_key(key),
            names.contains_key(key) ==> Theme::spec_named(names, base, styles)[key] == names[key],
        decreases styles.len(),
    {
        if styles.len() > 0 {
            let rest = styles.drop_first();
            assert(styles[0].0 != key);
            assert forall|j: int| 0 <= j < rest.len() implies #[trigger] rest[j].0 != key by {
                assert(rest[j] == styles[j + 1]);
            }
            Theme::lemma_named_untouched(names.insert(styles[0].0, StyleId(base as usize)), base + 1, rest, key);
        }
    }

    /// Registers styles under names: each style is appended to the
    /// theme's styles, and its name refers to it (a name given twice refers
    /// to the later style).
    pub fn with_named_styles(self, styles: Vec<(String, Style)>) -> (t: Self)
        requires
            self@.styles.len() + styles@.len() <= usize::MAX,
        ensures
            t@ == (ThemeView {
                styles: self@.styles + styles@.map_values(|e: (String, Style)| e.1@),
                named_styles: Theme::spec_named(
                    self@.named_styles,
                    self@.styles.len(),
                    styles@.map_values(|e: (String, Style)| (e.0@, e.1@)),
                ),
                ..self@
            }),
    {
        let mut t = self;
        let ghost start = t@;
        let ghost all = styles@;
        let mut styles = crate::geometry::reversed(styles);
        let ghost rev = styles@;
        let mut k: usize = 0;
        while styles.len() > 0
            invariant
                rev == all.reverse(),
                k + styles@.len() == all.len(),
                styles@ == rev.subrange(0, styles@.len() as int),
                start.styles.len() + all.len() <= usize::MAX,
                t@ == (ThemeView {
                    styles: start.styles + all.subrange(0, k as int).map_values(|e: (String, Style)| e.1@),
                    named_styles: Theme::spec_named(
                        start.named_styles,
                        start.styles.len(),
                        all.subrange(0, k as int).map_values(|e: (String, Style)| (e.0@, e.1@)),
                    ),
                    ..start
                }),
            decreases styles@.len(),
        {
            let (name, style) = styles.pop().unwrap();
            assert((name, style) == all[k as int]);
            assert(styles@ =~= rev.subrange(0, styles@.len() as int));
            let id = t.styles.len();
            let ghost sv = style@;
            let ghost old_styles = t.styles@;
            t.styles.push(style);
            assert(style_views(t.styles@) =~= style_views(old_styles).push(sv));
            let ghost nv = name@;
            t.named_styles.insert(name, StyleId(id));
            proof {
                lemma_named_push(start.named_styles, start.styles.len(), all.subrange(0, k as int).map_values(|e: (String, Style)| (e.0@, e.1@)), (nv, sv));
            }
            assert(all.subrange(0, k + 1).map_values(|e: (String, Style)| e.1@) =~= all.subrange(0, k as int).map_values(|e: (String, Style)| e.1@).push(sv));
            assert(all.subrange(0, k + 1).map_values(|e: (String, Style)| (e.0@, e.1@)) =~= all.subrange(0, k as int).map_values(|e: (String, Style)| (e.0@, e.1@)).push((nv, sv)));
            assert(style_views(t.styles@) =~= start.styles + all.subrange(0, k + 1).map_values(|e: (String, Style)| e.1@));
            k += 1;
        }
        assert(all.subrange(0, all.len() as int) =~= all);
        t
    }

    pub fn get(&self, name: &str) -> (id: Option<StyleId>)
        ensures
            id == (if self@.named_styles.contains_key(name@) {
                Some(self@.named_styles[name@])
            } else {
                None
            }),
    {
        match self.named_styles.get(name) {
            Some(id) => Some(*id),
            None => None,
        }
    }

    /// The default style, which a theme always has.
    pub fn get_default_style(&self) -> (s: Option<&Style>)
        ensures
            s.is_some(),
            s.unwrap()@ == self@.default_style,
    {
        Some(&self.default_style)
    }

    pub fn get_default_stroke(&self) -> (s: Option<&Stroke>)
        ensures
            s.is_some() == self@.default_style.stroke.is_some(),
            s.is_some() ==> s.unwrap()@ == self@.default_style.stroke.unwrap(),
    {
        self.default_style.get_stroke()
    }

    /// The style of the given id, if there is an id and a style for it.
    pub fn get_style(&self, style_id: Option<StyleId>) -> (s: Option<&Style>)
        ensures
            s.is_some() == (style_id is Some && style_id.unwrap().0 < self@.styles.len()),
            s.is_some() ==> s.unwrap()@ == self@.styles[style_id.unwrap().0 as int],
    {
        match style_id {
            Some(id) => {
                if id.0 < self.styles.len() {
                    Some(&self.styles[id.0])
                } else {
                    None
                }
            },
            None => None,
        }
    }

    /// The stroke of the style of the given id, if any.
    pub fn get_stroke(&self, style_id: Option<StyleId>) -> (s: Option<&Stroke>)
        ensures
            s.is_some() == (style_id is Some && style_id.unwrap().0 < self@.styles.len()
                && self@.styles[style_id.unwrap().0 as int].stroke is Some),
            s.is_some() ==> s.unwrap()@ == self@.styles[style_id.unwrap().0 as int].stroke.unwrap(),
    {
        match self.get_style(style_id) {
            Some(style) => style.get_stroke(),
            None => None,
        }
    }

    /// Names gradients: each linear one in turn, then each radial one.
    /// A name given again refers to the later gradient; the linear and the
    /// radial gradients are also kept apart under their names.
    pub fn with_gradients(
        self,
        linear_gradients: Vec<(String, UnitPoint, UnitPoint, Vec<GradientStop>)>,
        radial_gradients: Vec<(String, u64, Vec<GradientStop>)>,
    ) -> (t: Self)
        ensures
            t@ == (ThemeView {
                named_gradspecs: spec_put_all(
                    spec_put_all(self@.named_gradspecs, linear_gradients@.map_values(|e| linear_view(e))),
                    radial_gradients@.map_values(|e| radial_view(e)),
                ),
                linear_gradients: spec_put_all(self@.linear_gradients, linear_gradients@.map_values(|e| linear_view(e))),
                radial_gradients: spec_put_all(self@.radial_gradients, radial_gradients@.map_values(|e| radial_view(e))),
                ..self@
            }),
    {
        let mut t = self;
        let ghost start = t@;
        let ghost lin = linear_gradients@.map_values(|e| linear_view(e));
        let ghost rad = radial_gradients@.map_values(|e| radial_view(e));
        let n_lin = linear_gradients.len();
        let mut lgs = crate::geometry::reversed(linear_gradients);
        let ghost lrev = lgs@;
        let ghost lall = lrev.reverse();
        assert(lall =~= linear_gradients@);
        assert(lin.subrange(0, lin.len() as int) =~= lin);
        let mut k: usize = 0;
        while lgs.len() > 0
            invariant
                lrev == lall.reverse(),
                lin == lall.map_values(|e| linear_view(e)),
                k + lgs@.len() == lall.len(),
                lall.len() == n_lin,
                lgs@ == lrev.subrange(0, lgs@.len() as int),
                spec_put_all(start.named_gradspecs, lin) == spec_put_all(t@.named_gradspecs, lin.subrange(k as int, lin.len() as int)),
                spec_put_all(start.linear_gradients, lin) == spec_put_all(t@.linear_gradients, lin.subrange(k as int, lin.len() as int)),
                t@ == (ThemeView { named_gradspecs: t@.named_gradspecs, linear_gradients: t@.linear_gradients, ..start }),
            decreases lgs@.len(),
        {
            let (name, a, b, stops) = lgs.pop().unwrap();
            assert(lgs@ =~= lrev.subrange(0, lgs@.len() as int));
            assert((name, a, b, stops) == lall[k as int]);
            let ghost entry = linear_view((name, a, b, stops));
            assert(lin[k as int] == entry);
            proof {
                let rest = lin.subrange(k as int, lin.len() as int);
                assert(rest[0] == entry);
                assert(rest.drop_first() =~= lin.subrange(k + 1, lin.len() as int));
            }
            put(&mut t.named_gradspecs, name.clone(), Gradient::Linear(a, b, stops.clone()));
            put(&mut t.linear_gradients, name, Gradient::Linear(a, b, stops));
            k += 1;
        }
        assert(lin.subrange(lin.len() as int, lin.len() as int) =~= Seq::<(Seq<char>, GradientView)>::empty());
        let ghost mid = t@;
        let n_rad = radial_gradients.len();
        let mut rgs = crate::geometry::reversed(radial_gradients);
        let ghost rrev = rgs@;
        let ghost rall = rrev.reverse();
        assert(rall =~= radial_gradients@);
        assert(rad.subrange(0, rad.len() as int) =~= rad);
        let mut k: usize = 0;
        while rgs.len() > 0
            invariant
                rrev == rall.reverse(),
                rad == rall.map_values(|e| radial_view(e)),
                k + rgs@.len() == rall.len(),
                rall.len() == n_rad,
                rgs@ == rrev.subrange(0, rgs@.len() as int),
                spec_put_all(mid.named_gradspecs, rad) == spec_put_all(t@.named_gradspecs, rad.subrange(k as int, rad.len() as int)),
                spec_put_all(mid.radial_gradients, rad) == spec_put_all(t@.radial_gradients, rad.subrange(k as int, rad.len() as int)),
                t@ == (ThemeView { named_gradspecs: t@.named_gradspecs, radial_gradients: t@.radial_gradients, ..mid }),
            decreases rgs@.len(),
        {
            let (name, radius, stops) = rgs.pop().unwrap();
            assert(rgs@ =~= rrev.subrange(0, rgs@.len() as int));
            assert((name, radius, stops) == rall[k as int]);
            let ghost entry = radial_view((name, radius, stops));
            assert(rad[k as int] == entry);
            proof {
                let rest = rad.subrange(k as int, rad.len() as int);
                assert(rest[0] == entry);
                assert(rest.drop_first() =~= rad.subrange(k + 1, rad.len() as int));
            }
            put(&mut t.named_gradspecs, name.clone(), Gradient::Radial(radius, stops.clone()));
            put(&mut t.radial_gradients, name, Gradient::Radial(radius, stops));
            k += 1;
        }
        assert(rad.subrange(rad.len() as int, rad.len() as int) =~= Seq::<(Seq<char>, GradientView)>::empty());
        t
    }

    pub fn get_gradspec(&self, name: &str) -> (g: Option<&Gradient>)
        ensures
            g.is_some() == spec_lookup(self@.named_gradspecs, name@).is_some(),
            g.is_some() ==> g.unwrap()@ == spec_lookup(self@.named_gradspecs, name@).unwrap(),
    {
        find(&self.named_gradspecs, name)
    }

    pub fn get_linear_gradient(&self, name: &str) -> (g: Option<&Gradient>)
        ensures
            g.is_some() == spec_lookup(self@.linear_gradients, name@).is_some(),
            g.is_some() ==> g.unwrap()@ == spec_lookup(self@.linear_gradients, name@).unwrap(),
    {
        find(&self.linear_gradients, name)
    }

    pub fn get_radial_gradient(&self, name: &str) -> (g: Option<&Gradient>)
        ensures
            g.is_some() == spec_lookup(self@.radial_gradients, name@).is_some(),
            g.is_some() ==> g.unwrap()@ == spec_lookup(self@.radial_gradients, name@).unwrap(),
    {
        find(&self.radial_gradients, name)
    }

    /// The fill color of the scene style, or white where it has none.
    pub open spec fn spec_bg_color(&self) -> Color {
        match self@.scene_style.fill {
            Some(FillView::Color(c)) => c,
            _ => Color::Rgba32(0xffffffff),
        }
    }

    /// The background color: the fill color of the scene style, or white.
    pub fn get_bg_color(&self) -> (c: Color)
        ensures
            c == self.spec_bg_color(),
    {
        match self.scene_style.get_fill_color() {
            Some(c) => *c,
            None => Color::white(),
        }
    }

    /// The named gradients, in the order their names were first given.
    pub fn get_named_gradspecs(&self) -> (g: &[(String, Gradient)])
        ensures
            named_views(g@) == self@.named_gradspecs,
    {
        self.named_gradspecs.as_slice()
    }

    /// The linear gradients, in the order their names were first given.
    pub fn get_linear_gradients(&self) -> (g: &[(String, Gradient)])
        ensures
            named_views(g@) == self@.linear_gradients,
    {
        self.linear_gradients.as_slice()
    }

    /// The radial gradients, in the order their names were first given.
    pub fn get_radial_gradients(&self) -> (g: &[(String, Gradient)])
        ensures
            named_views(g@) == self@.radial_gradients,
    {
        self.radial_gradients.as_slice()
    }
}

proof fn lemma_named_push(names: Map<Seq<char>, StyleId>, base: nat, done: Seq<(Seq<char>, StyleView)>, next: (Seq<char>, StyleView))
    ensures
        Theme::spec_named(names, base, done.push(next)) == Theme::spec_named(names, base, done).insert(next.0, StyleId((base + done.len()) as usize)),
    decreases done.len(),
{
    if done.len() == 0 {
        assert(done.push(next).drop_first() =~= Seq::<(Seq<char>, StyleView)>::empty());
        assert(Theme::spec_named(names.insert(next.0, StyleId(base as usize)), base + 1, Seq::<(Seq<char>, StyleView)>::empty()) == names.insert(next.0, StyleId(base as usize)));
    } else {
        assert(done.push(next).drop_first() =~= done.drop_first().push(next));
        assert(done.push(next)[0] == done[0]);
        lemma_named_push(names.insert(done[0].0, StyleId(base as usize)), base + 1, done.drop_first(), next);
    }
}

} // verus!
