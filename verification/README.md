# loki_layout

The integer and text logic of the Loki layout engine, verified with Verus.

`src/` is the verified library. Each module states its behaviour in
`requires`/`ensures` contracts over mathematical models (`Seq`, `Map`, `int`),
and the properties that span several calls are proved as public `lemma_*`
proof functions beside the code they speak of:

- `para_cache`, `para_cache_bytes` — the two-generation paragraph cache,
  bounded by entry count and retained bytes; its running byte totals equal
  the walked sum as long as that sum fits a `usize`, and a `put` of an entry
  no bigger than a generation keeps both generations within the byte cap.
- `incremental`, `incremental_diff`, `note_scan` — the decisions of
  incremental paginated relayout, as the three steps a driver takes around
  the flow (`begin_relayout`, `plan_section`, `finish_relayout`), built from
  the block diff, note detection, checkpoint lookups, resynchronisation, the
  reused suffix, the lifted page numbers of re-flowed pages and the
  assembled pages and checkpoints. The flow itself,
  which shapes and places the re-flowed pages, is not part of this crate.
- `para_clean`, `para_index_map`, `para_lines` — cleaning paragraph text for the
  shaper, the byte-index maps between the two texts, and line-end lookup.
- `widow_orphan`, `paginate_blanks`, `drop_cap`, `measure` — pagination and
  paragraph rules.
- `list_marker`, `roman`, `notes`, `math_parse`, `math_text`,
  `textbox_color`, `font_substitutes`, `font_families`, `span_lookup`,
  `options`, `chars` —
  formatting, parsing and lookup.
- `items`, `para_types`, `hatch` — the style and hit-testing types of
  positioned draw items.

`app/` holds what Verus does not verify: `f32` geometry, hatch segments,
device-pixel rounding, the layout mode, the process-wide comparison counter,
and adapters from the library's integer answers to `f32` values.

`tests/` exercises the library through its public API.
