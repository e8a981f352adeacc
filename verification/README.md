# dbtl

The domain of a terminal lineage browser for dbt projects, written in Verus:
what the program computes and decides is stated in contracts and proved.

- `src/` is the library.
  - `manifest`, `dag`, `graph`: the manifest as plain data, the graph that is
    built from it, reachability and subgraphs.
  - `model_list`, `ui`, `action`, `effect`: the list of models, the state of the
    panes, the keymap, and what the event loop is asked to do.
  - `app`, `reducer`: the state of a session, its queries and exports, and the
    reducer that applies every action.
  - `layout`: the lineage as boxes and connectors on a grid of characters.
  - `diff`, `docs`: the comparison of two graphs, and the Markdown
    documentation of one.
  - `text`, `sorted`, `naming`, `paths`: texts, ordered sets and maps, unique
    names, and paths.
  - `laws`: what holds across functions, for every state and every input.
- `app/` is the edge: reading manifests, terminal events, writing files.
- `tests/` runs the library on concrete projects.

Every type has a mathematical model (its `deep_view`), and contracts speak of
models: `apply_action`, for example, takes the model of the state to
`step(state, action)`. Two things are believed without proof: that
`String::push` appends a character, and that the display width of a text, which
the `unicode-width` crate computes, depends on the text alone.
