# diagram_render_rs

Layout and text logic for rendering seven typed diagram ASTs (DBML, WaveDrom,
D2, Structurizr DSL, LikeC4, nomnoml and Pikchr) to SVG and PNG, verified with
Verus.

## Layout

- `src/` is the verified library.
  - `renderers/cards.rs`: the card diagram shared by the graph-like families:
    cards, connectors, id resolution, text truncation and wrapping, and the
    integer grid layout (cards stay on the canvas and never overlap).
  - `renderers/{d2,dbml,structurizr,likec4,nomnoml}.rs`: each family's walk
    from its AST to cards, connectors and warnings.
  - `renderers/wavedrom.rs`: lane flattening, per-cell wave steps, node
    markers, edge parsing and register bit ranges.
  - `renderers/pikchr.rs`: the drawing plan of a Pikchr scene, shape kinds and
    label lines.
  - `svg.rs`: SVG text and attribute escaping, with round-trip laws.
  - `raster.rs`: the PNG size bounds.
  - `theme.rs`: the built-in palettes.
  - `text.rs`: character helpers, and the trusted wrappers around
    `unicode-width` and `char` classification.
- `app/` is the command-line program: argument parsing, file I/O, the
  parser's AST conversion, floating-point drawing of scenes, SVG output and
  PNG rasterization with `resvg`.
- `tests/` exercises the library on concrete inputs.

The contracts speak of character sequences (`Seq<char>`) and of models of the
card diagram (`CardModel`, `ConnectorModel`); display widths and Unicode
character classes are named results of the outside functions that compute
them.
