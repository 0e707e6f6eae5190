//! ResNet image classifiers (ResNet-18/34 with basic blocks, ResNet-50/101/152
//! with bottleneck blocks) built on candle tensors.
//!
//! What is proved: the architecture (layer widths, strides, where a residual
//! branch needs a projection, the parameter path of every layer and the set of
//! layers requested from the loader), the check that a loaded layer's parts fit
//! what was asked for, the dimensions each forward pass produces, and the exact
//! composition of tensor operations it applies (a ghost expression kept with
//! every activation). The weights are read by a caller-supplied loader; the
//! tensor arithmetic itself is done by candle and its values are not modelled.
#![allow(unused_imports)]

pub mod error;
pub mod names;
pub mod tensor;
pub mod params;
pub mod blocks;
pub mod sequential;
pub mod resnet;
pub mod laws;
