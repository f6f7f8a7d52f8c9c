//! Voxel building-game simulation core: block registry, chunk storage and
//! generation stages, meshing decisions, chunk streaming, gameplay actions
//! and input translation, menu navigation, mixer voice bookkeeping, and
//! the small deterministic helpers (hashing, digest, generator state) they
//! share.

pub mod atlas;
pub mod audio;
pub mod blocks;
pub mod cracks;
pub mod digest;
pub mod game;
pub mod generation;
pub mod input;
pub mod menu;
pub mod mesher;
pub mod noise;
pub mod player;
pub mod rng;
pub mod screens;
pub mod session;
pub mod shell;
pub mod stream;
pub mod world;
