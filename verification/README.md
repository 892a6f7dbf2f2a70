# crayon

The portable core of a small game framework, verified with Verus.

- `src/ecs`: fixed and growable bit-sets of component indices, component
  storages (hash-map and vector arenas), and the system dispatcher that groups
  systems into batches that may run in parallel.
- `src/graphics`: vertex layouts (by attribute and by hashed name), the
  attribute bindings of a program, frame buffer setups, rectangles, the byte
  buffer that frame tasks record into, the draw call builder, the checks a
  shader setup and a draw call pass, the binding of pipeline attributes to
  vertex layouts, the index range a draw call draws, the order in which frame
  tasks are carried out, and resource handles.
- `src/input`: keyboard, mouse button and touch-screen state, click, tap and
  pan recognition, and the combined input state with touch emulation by mouse.
- `app/`: the floating-point side — colors, bounding boxes, planes, view
  frustums, cursor positions, the distances and movements of gestures — and
  the routing of window input events into the verified input state.
