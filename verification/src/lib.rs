pub mod assets;
pub mod camera;
pub mod chunk;
pub mod coverage;
pub mod greedy;
pub mod mesher;
pub mod texture;
pub mod world;
