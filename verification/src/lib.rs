//! Building blocks of small neural networks: tensors with their shape and
//! element-wise algebra, convolution and pooling layers, loss kinds.

pub mod backprop;
pub mod conv;
pub mod loss;
pub mod tensor;

pub use backprop::BackpropEngine;
pub use conv::{Conv1D, Conv2D, Pool2D, PoolType};
pub use loss::Loss;
pub use tensor::Tensor;
