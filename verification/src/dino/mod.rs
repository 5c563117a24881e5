//! Feature extraction for a dataset: image selection and sizes, the layout of
//! the vision transformer, the principal basis, and the files written.

pub mod chunks;
pub mod device;
pub mod dinov2;
pub mod fit;
pub mod fit_laws;
pub mod images;
pub mod moments;
pub mod moments_laws;
pub mod npy;
pub mod npy_laws;
pub mod pca;
pub mod resize;
pub mod resize_laws;
