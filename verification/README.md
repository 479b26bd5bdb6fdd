# layout21

Conversion of gridded, track-based integrated-circuit layout into raw geometry, verified with Verus.

A library of cells on a primitive grid, with instances, cuts and net assignments on the tracks of a
metal stack, becomes a library of rectangles and polygons.

| module | contents |
| --- | --- |
| `coords` | directions, units, coordinates |
| `outline` | cell outlines |
| `stack` | the metal stack and its periods of tracks |
| `tracks` | wires on tracks: cutting them, putting them on nets |
| `validate` | track locations and net assignments |
| `cell`, `abstrakt` | cells, libraries, abstracts |
| `slots` | net assignments under stable keys, in a `slotmap::SlotMap` |
| `raw` | the geometry that comes out |
| `temp` | a cell's data, arranged by layer and period |
| `rawconv` | the conversion |
| `edits`, `model` | what the conversion computes, as mathematics |
| `laws` | what holds of the conversion as a whole |

A step that could not be taken (a track or layer that does not exist, a coordinate out of range) is
ruled out by the precondition of the function that would take it, as far as the step is come to:
the `*_ready` predicates in `model`. Everything else is an error that the contracts name.

What is trusted is in `slots`: the slot map's `with_key`, `insert` and `get`.
