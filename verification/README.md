# lightbeat

The editing logic behind LightBeat's node-graph UI, written in Verus and
proved against its contracts.

- `src/` is the verified library: port types and wiring rules
  (`ports`, `wiring`), the multi-level node graph with its editing
  operations, drag-and-drop wiring, selection and deletion of nodes,
  frames and wires, and the canvas shortcuts (`graph`),
  moving a selection into a subgraph and unpacking it again (`subgraph`),
  every node widget's ports and the small state machines that react to
  wiring (`nodes/*`), the library managers (`lists`), the node catalogue
  and its search (`registry`), the parameter inspector (`inspect`), beat
  bookkeeping (`clock`) and panel labels (`panels`).
- `app/` is the egui side: drawing, pointer geometry, floating-point
  values, shared state behind mutexes and JSON configuration. Verus does
  not see it.
- `tests/` runs the library on concrete values.
