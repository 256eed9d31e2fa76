# iyon_tui

Backend-neutral presentation vocabulary, stream provenance and projection
algebra for terminal user interfaces, written in Verus: the library's
behaviour is stated in `requires`/`ensures` contracts and proved.

Layout:

- `src/` — the verified library.
  - `style`, `physical`, `theme`: sparse style intent, its overlay algebra,
    physical styles, cell surfaces (compositing, backgrounds, lowering to
    styled rows) and theme resolution.
  - `decoration`: border painting onto a surface.
  - `text_compile`: text views and projected stream text compiled into
    physical rows, with grapheme clusters kept whole across run boundaries.
  - `view`: the declarative view vocabulary and its builders.
  - `tracks`: parent-owned track allocation (fixed, content and flex tracks).
  - `unicode`, `chars`: the trusted boundary to the Unicode segmentation,
    width, line-breaking and wrapping crates, and character helpers.
  - `wrap`, `input_wrap`, `cursor`, `text_flow`: hard-line splitting,
    grapheme tokenizing, word and grapheme wrapping, composer input
    wrapping, and the input caret's place among the wrapped rows.
  - `stream`, `commit`, `hosted`, `scrollback`: source coordinates and
    stream snapshots, commit planning into native history, the hosted
    stream (its unit identity, its content, and the commit state with its
    leading boundary row), and the decisions of handing rows to the
    terminal's scrollback.
  - `backend`: the frontend's bookkeeping over the agent core's events
    (message roles, the turn in flight, the awaited configuration echo) and
    the frontend event each core event becomes.
  - `activity`: the live activity row (working spinner or one tool call)
    and the approval decision taken on a tool call.
  - `projection`: projections over source ranges, their validation,
    transitions, relations and composition.
  - `paste`, `smoother`, `panel`, `active`, `scene`: composer paste markers,
    the streamed-text queue, the steering queue panel, the active pane and
    its ticker, and the scene container.
  - `stream_compile`: a stream view compiled into physical rows with their
    commit metadata (exact boundary, atomic group, or blocked).
  - `paint_tree`: a laid-out view tree painted onto a surface, node by node:
    content, surface background, border.
- `tests/` — tests run against the compiled library.
- `app/` — host glue that stays outside verification: wall-clock pacing with
  floating point, the `Instant`-based ticker, and displayable error types.

Not in the library: the general view layout engine that measures and places
views into a layout tree, scene resolution over mounted components, and view
identity (node ids and weak views). Where the stream compiler meets an
atomic node, it takes that node's already compiled rows as input; the tree
painter takes its text leaves and overflow indicators already painted.
