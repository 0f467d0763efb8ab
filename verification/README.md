# niri_dock

The logic behind the dock and workspace widgets of a niri desktop bar, written
in Verus and proved against its contracts.

- `src/` is the verified library: the cache of niri's windows and workspaces
  and how each event changes it (`cache`, `model`, `idvec`, `order`), what a
  workspace indicator and a dock show of one output (`workspace`, `dock`,
  `manager`), the registries of widgets with their duplicate suppression, the
  icon cache and the decisions of icon loading (`icon_cache`, `icons`,
  `lookup`, `desktop`), the handlers through which widgets ask niri for
  actions (`handlers`, `dock_input`), the discrete rules of the dock layout
  (`layout_rules`), the wrapbox dock's state (`niri_dock`), settings
  (`config`), and the properties that hold across operations (`laws`).
- `app/` holds what runs around it: the niri IPC socket, the background
  runtime, icon files on disk and their rasterization, the shared manager,
  and the configuration types with their serde derives.
- `tests/` exercises the library on concrete values.
