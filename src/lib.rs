mod arith;
pub mod image;
pub mod postprocess;
pub mod preprocess;
pub mod rknn;
pub mod tracker;

pub use postprocess::TrackingResult;
pub use preprocess::BBox;
pub use tracker::VitTrack;
