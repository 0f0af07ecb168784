//! CPU-side logic of the forward renderer: post-FX quality tiers, cubemap faces and
//! their KTX2 encoding/decoding, pooled-slot keys and the persistent entity slots,
//! mesh identities and uploads, readback row unpadding, the multi-bounce probe
//! schedule, camera stacking, per-frame pass decisions, lights, pipeline specs,
//! particle batching and primitive topology.

pub mod quality;
pub mod byte_io;
pub mod cubemap_face;
pub mod prefiltered;
pub mod ktx2_encode;
pub mod ktx2_reader;
pub mod cubemap_load;
pub mod slot_key;
pub mod mesh_id;
pub mod round_trip;
pub mod readback;
pub mod bounce;
pub mod camera_stack;
pub mod pass_clear;
pub mod postfx_plan;
pub mod lighting;
pub mod mesh_topology;
pub mod mesh_uploads;
pub mod frame_state;
pub mod entity_slots;
pub mod particle_batches;
pub mod entity_uniform;
pub mod pipeline_specs;
