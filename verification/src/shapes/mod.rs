//! Primitive shapes beyond the sphere.

pub mod cube;
pub mod cylinder;
pub mod square;

pub use cube::Cube;
pub use cube::RectangularBox;
pub use cylinder::Cylinder;
pub use cylinder::Disk;
pub use square::Square;
