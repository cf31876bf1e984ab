//! Simulation and geometry core of a block-world sandbox: chunked voxel
//! storage, terrain filling, dual-channel flood-fill lighting, face-culled
//! mesh generation, frustum visibility, and voxel raycasting.

pub mod blocks;
pub mod chunk;
pub mod coords;
pub mod frustrum;
pub mod generation;
pub mod graphics;
pub mod light;
pub mod mesh;
pub mod light_update;
pub mod neighborhood;
pub mod queue;
pub mod raycasting;
pub mod update;
pub mod world;
