# ascetic_vis

A scene graph for vector illustrations, verified with Verus.

Crumbs (lines, rectangles, circles, arcs, paths, pins and text labels) are
placed into groups, groups place other groups under transforms, and layers
stack the top-level groups.  A theme of named styles and gradients decides
how each crumb is drawn.

## Layout

- `src/` is the verified library:
  - `color`, `font`, `style`, `theme`: colors packed into bytes, fonts,
    strokes, fills, gradients, markers, styles and themes;
  - `crumb`, `group`, `scene`: crumbs, groups and scenes, with the
    layer stacking order and the depth-first walks that list all crumbs
    and groups of a scene;
  - `text`: text labels, the settling of their fonts, and their SVG
    markup;
  - `builder`, `joint`: builders that place pins and node labels at the
    circles of a scene, and the ends and shapes of joints between them;
  - `svg`, `markup`, `usvg`: the SVG attribute text of colors, fills and
    markers; the markup of strokes, styles, gradients and labels, as
    literal bytes and figures that a printer spells; and the paint of the
    path nodes of a usvg tree;
  - `geometry`, `error`: the `kurbo` shapes the scene holds, and errors.
- `app/` holds what computes on floating-point numbers or writes output:
  colors from floating-point components, tweening, the geometry of joints,
  SVG documents, usvg trees and their rendering to pixels, and a
  demonstration scene.
- `tests/` exercises the library on concrete values.

Floating-point quantities (widths, sizes, offsets, positions of gradient
stops) are carried through the library as the bit patterns of IEEE-754
numbers; only the code in `app/` reads them as numbers.
