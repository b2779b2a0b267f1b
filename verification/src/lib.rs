pub mod display;
pub mod error;
pub mod matrix;
pub mod metrics;
pub mod vector;

pub use error::MatrixError;
pub use error::MetricsError;
pub use matrix::Matrix;
pub use matrix::MsgInput;
pub use matrix::MsgOutput;
pub use matrix::multiply;
pub use metrics::Metrics;
pub use metrics::amap::AmapMetrics;
pub use metrics::cmap::CmapMetrics;
pub use vector::Vector;
pub use vector::dot_product;
