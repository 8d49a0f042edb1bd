pub mod block_type;
pub mod grid;
pub mod greedy;
pub mod sub_mesh;
