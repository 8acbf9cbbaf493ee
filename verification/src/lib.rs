pub mod geometry;
pub mod level;
pub mod num;
pub mod pair;
pub mod split;
