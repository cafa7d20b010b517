//! Compression of dense binary voxel volumes into sparse voxel directed
//! acyclic graphs (SVDAGs), with random-access point queries against the
//! compressed form.

pub mod children;
pub mod hashed_volume;
pub mod svdag;
pub mod svdag_builder;
pub mod volume;

pub use children::Children;
pub use hashed_volume::HashedVolume;
pub use hashed_volume::HashedVolumeNode;
pub use svdag::Svdag;
pub use svdag::SvdagNode;
pub use svdag::SvdagPointer;
pub use svdag::SvdagValue;
pub use svdag_builder::SvdagBuilder;
pub use svdag_builder::SvdagError;
pub use svdag_builder::TableEntry;
pub use volume::CubicVolume;
pub use volume::DensityVolume;
pub use volume::IsVolume;
pub use volume::IsVolumeIndex;
