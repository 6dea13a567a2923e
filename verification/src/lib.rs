//! A scene-graph library for vector illustrations: crumbs (primitive
//! shapes and text labels) are collected into groups, groups are stacked
//! into layers, and a theme of named styles decides how each crumb looks.
use vstd::prelude::*;

pub mod geometry;
pub mod color;
pub mod font;
pub mod style;
pub mod text;
pub mod crumb;
pub mod group;
pub mod error;
pub mod theme;
pub mod scene;
pub mod svg;
pub mod markup;
pub mod usvg;
pub mod builder;
pub mod joint;

pub use color::{Color, Rgba};
pub use font::{AsCss, Font, GenericFontFamily};
pub use style::{Fill, GradientStop, Marker, MarkerId, MarkerSuit, ScaleMode, Stroke, Style, StyleId, UnitPoint};
pub use style::Gradient as GradSpec;
pub use text::{PreprocessWithStyle, TextLabel};
pub use crumb::{Crumb, CrumbId, CrumbItem, CrumbSet};
pub use group::{Group, GroupId, GroupItem};
pub use error::VisError;
pub use theme::Theme;
pub use scene::Scene;
pub use svg::{WriteSvg, WriteSvgWithName};
pub use markup::{Figure, Piece};
pub use usvg::{AsUsvgFill, AsUsvgNodeWithName, AsUsvgNodeWithStyle, AsUsvgStop, AsUsvgStroke, AsUsvgStyle, AsUsvgTheme};
pub use builder::{NodeLabelBuilder, PinBuilder};
pub use joint::JointBuilder;

verus! {

} // verus!
