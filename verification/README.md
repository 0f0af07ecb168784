# rusty_render

The CPU-side logic of a wgpu forward renderer, verified with Verus.

`src/` holds what the renderer decides and computes, each public function with a
contract and the properties that span functions as public proof functions:

- `quality`, `postfx_plan` — post-FX tiers, target sizes, the driving volume, pass gates.
- `cubemap_face`, `prefiltered`, `byte_io`, `ktx2_encode`, `ktx2_reader`, `cubemap_load`,
  `round_trip` — cubemap faces and mip chains, the KTX2 writer, the reader on top of the
  `ktx2` crate, and the proof that a written cubemap reads back as itself.
- `slot_key`, `entity_slots` — the per-scene slot keys, material signatures and the
  persistent slot table with its sync and prune.
- `mesh_id`, `mesh_uploads`, `mesh_topology` — geometry keys, per-frame uploads and the
  primitives' index buffers.
- `readback` — row padding of texture-to-buffer copies.
- `bounce` — the multi-bounce probe bake schedule.
- `camera_stack`, `pass_clear`, `frame_state`, `lighting`, `entity_uniform`,
  `pipeline_specs`, `particle_batches` — per-frame decisions of the forward pass.

`app/` is the unverified shell: GPU copies and uploads, file I/O, PNG output, vertex
positions and the floating-point shading helpers, the pipelines built from the specs,
and the bake loop driven by the verified schedule.

`tests/` runs the library on concrete values.
