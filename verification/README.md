# opengrid_web_components

The portable model behind the opengrid data-grid and pivot elements, written
in Verus: every function states what it answers in `requires`/`ensures`, and
Verus proves it.

- `src/` — the verified library
  - `text` — reading attribute text: trimming, comma lists, numbers, text order
  - `window` — the virtualized window, the row pool, paging, row heights
  - `keys` — the keyboard matrix of `role="grid"` and the window it needs
  - `routing` — where a key pressed in the grid goes: filter row, menu,
    editor, header operations, group headers, selection, moves; and what a
    click inside the grid does
  - `columns` — the reader's column layout: order, visibility, widths
  - `menu` — the column menu and regrouping
  - `grouping` — grouping as a display list of counts
  - `paths` — the order the open groups are kept in: by their keys' JSON text
  - `grouped_run` — the queries of a grouped run, one answer at a time
  - `filters` — schema, typed literals, the filter row
  - `facets` — facet selections as filters
  - `display` — density, glyphs, sort marks, cell text
  - `query` — sort keys of a window and of a view
  - `json` — JSON trees: members, key values, and `serde_json`'s text and
    parse behind named results
  - `requests` — the query model of the grid: window, view, group and total
    queries as JSON
  - `pivot` — the pivot request, reading the pivot answer, the pivot model
  - `patch` — rendering as a list of patches with node ids handed out in order
  - `pivot_table` — the pivot as a native table with a two-level header
  - `grid_patch` — one frame of the grid as patches: role, sizer and row
    count, pager, select-all, status, filter controls, headers, pooled rows
  - `filter_row`, `controls` — the filter row, the status line, the pager
    and the column list of the skeleton
  - `summary` — aggregate functions and ranges
- `tests/` — the behaviour on concrete values
- `app/` — what works on floats: the checks that a typed filter literal is a
  finite number

Besides the contracts, `src/` states laws that span several calls and proves
them: a move of a column leaves the effective columns equal to what the move
answered, a toggle moves no earlier group, a facet counts without its own
restriction, the window follows the focus, the focused row keeps its pool
slot, toggling a group twice gives the same open list back, every pivot row
starts with a row header, a frame counts its rows (`aria-rowcount` is the
rows plus one, a placed row's `aria-rowindex` its place plus two), never
moves the pinned slot and gives the roving tabindex to the active cell
alone, the fetches of a window cover each row once, and
others, each a `pub proof fn` with its statement in words above it.
