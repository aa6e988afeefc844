//! Bounds-checked decoding of the pinned binary table protocol, with error
//! offsets and field context.

pub mod buffer;
pub mod error;
pub mod values;

pub use buffer::{ByteBuf, ByteBufView, DecodeLimits};
pub use error::{DecodeError, DecodeErrorView};
pub use values::{Decode, Float32, Float64};
