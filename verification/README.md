# spottedcat

The platform-independent core of the spottedcat 2D/3D game engine, written
in Verus. The verifier proves the contracts of the functions in `src/`, with
two exceptions that are trusted rather than proved: `text::string_push`
(around `String::push`) and `launch::make_duration` (around
`Duration::from_nanos`), whose contracts restate what std documents.

Modules of the library (`src/`):

- `registry`: textures, images, fonts and image shaders under increasing
  identifiers; GPU generations and the upload plan.
- `atlas`, `packer`: the dynamic texture atlas and its rectangle packer,
  whose placements lie in the page and never overlap.
- `texture`, `image`, `image_shader`, `shader_hooks`: handles, views,
  sub-images, texture upload bytes, custom shader descriptions and bindings,
  and building a shader from the template and the user's hook functions.
- `glyph_cache`: glyphs already rendered into the font atlas.
- `targets`: the order in which render targets are drawn.
- `input`, `events`, `keycode`, `gamepad`: keyboard, mouse, touch, text and
  gamepad state.
- `audio`: mix validation, playback state and play identifiers.
- `csv`, `profile`: the profiler's switches and frame schedule, its CSV
  output and the comparison tool's reader; GPU timestamp spans.
- `surface`, `launch`, `cli`, `platform`, `font`, `entity`, `pt`, `text`:
  surface mode choices, window configuration, the command lines of `spot`
  and of the performance comparison tool,
  mobile platform decisions and small helpers.

`tests/` exercises the library; `app/` holds the floating-point, file and
windowing glue around it.
