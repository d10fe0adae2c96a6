//! Geometry, mesh-topology and scene-state logic for a collection of small OpenGL demos.

pub mod chunk;
pub mod controls;
pub mod lod;
pub mod mesh;
pub mod model;
pub mod polyhedron;
pub mod scene_graph;
pub mod tessellation;
pub mod terrain;
pub mod texture;

pub use chunk::{chunk_window, plan_chunk_update, ChunkPosition, ChunkUpdate};
pub use controls::{bearing_char, handle_input, key_axis, menu_toggle, CameraCommand, ControlKeys, LightType, MovementDirection};
pub use lod::{collect_nodes, Node, NodeType, Planet};
pub use mesh::{initialize_indices, face_indices, quad_indices};
pub use polyhedron::{Polyhedron, Triangle};
pub use scene_graph::{GameObject, NodeId, SceneGraph};
pub use tessellation::TessellationParameters;
pub use terrain::{strip_index_count, terrain_indices};
pub use texture::{directory_of, directory_suffix_of, texture_uniform_names, Texture, TextureLibrary, TextureType};
