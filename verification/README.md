# gate_graph

Logic-gate circuits laid out on a grid, with every function of the library verified
by Verus against its `requires` / `ensures` contract.

## Library (`src/`)

- `gate`: kinds of gates and their settings (`Ntd`), their text forms, and one tick of
  a gate instance.
- `graph`: the graph of nodes and wires with its grid of cells, and its edits;
  `graph::order` computes the evaluation order (deepest first, each node after the
  nodes that feed it unless a cycle joins them) and runs a tick of the whole graph,
  `graph::query` answers which wires meet a node, `graph::template` saves and loads
  graphs, `graph::blueprint` places a blueprint.
- `tool`, `toolpane`, `controls`: the editing tools (create, erase, edit, interact), the
  tool pane that chooses the tool, gate, setting and wire bend, and the per-frame
  events and hotkeys that drive them.
- `input`: events, the sources they are read from and the flat form those sources are
  written in.
- `color_text`: colours written as text in a theme (`#rrggbb`, `#rrggbbaa`, `rgb(...)`,
  `rgba(...)`, or a name left to be looked up).
- `console`, `rich_text`, `term`: log lines, references that can be written into text
  and read back, colour changes embedded in text, the bounded log buffer, and terminal
  style escapes.
- `ids`, `ivec`, `icons`, `tab`, `ser`, `text`, `properties`: identifiers, integer
  vectors and rectangles, icon cells, tab lists, a small byte serializer, character
  helpers, and the texts of the properties panel.

Laws relating several functions are public proof functions (`lemma_*`), such as the
text round trips of identifiers, gates, colours and references, saving a loaded graph,
and erasing what the create tool placed.

## Program (`app/`)

A command-line runner: it loads circuits saved as TOML, evaluates them for a number of
ticks, prints every node's state and can save the circuits again.
