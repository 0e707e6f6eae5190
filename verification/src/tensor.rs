//! Tensors with their shapes. An [`Activation`] carries a candle tensor together
//! with the dimensions read from it and, as a ghost value, the expression of
//! operations that produced it from a tensor handed in. Every operation below
//! returns a fresh `Activation` whose dimensions are read from the tensor it
//! produced; it states how those dimensions follow from the operands', and
//! extends the expression by the operation applied.
use vstd::prelude::*;
use crate::params::{ConvSpec, LinearSpec, NormSpec};

verus! {

#[verifier::external_type_specification]
#[verifier::external_body]
pub struct ExTensor(candle_core::Tensor);

#[verifier::external_type_specification]
#[verifier::external_body]
pub struct ExCandleError(candle_core::Error);

/// The error type of the tensor backend.
pub type CandleError = candle_core::Error;

/// Output length of a 2d convolution (dilation 1) along one spatial axis, as
/// candle computes it: `(len + 2 * padding - ksize) / stride + 1`.
pub open spec fn conv_len(len: int, ksize: int, padding: int, stride: int) -> int {
    (len + 2 * padding - ksize) / stride + 1
}

/// Output length of a max pooling along one spatial axis: `(len - ksize) / stride + 1`.
pub open spec fn pool_len(len: int, ksize: int, stride: int) -> int {
    (len - ksize) / stride + 1
}

/// The product of all dimensions.
pub open spec fn dims_product(d: Seq<usize>) -> int
    decreases d.len(),
{
    if d.len() == 0 {
        1
    } else {
        dims_product(d.drop_last()) * d.last()
    }
}

/// A dimension counted from the end, as candle's `D::Minus1` and `D::Minus2`.
pub enum Axis {
    Last,
    SecondLast,
}

impl Axis {
    /// How far from the end the axis lies (1 for the last one).
    pub open spec fn from_end(self) -> int {
        match self {
            Axis::Last => 1,
            Axis::SecondLast => 2,
        }
    }
}

/// The operations that produced a tensor, outermost last applied. `Input` is a
/// tensor handed in from outside; each layer is named by its description
/// (path and shape).
pub enum Expr {
    Input,
    Conv(ConvSpec, Box<Expr>),
    Norm(NormSpec, Box<Expr>),
    Linear(LinearSpec, Box<Expr>),
    Relu(Box<Expr>),
    Add(Box<Expr>, Box<Expr>),
    PadSame(Axis, usize, usize, Box<Expr>),
    MaxPool(usize, usize, Box<Expr>),
    Mean(Axis, Box<Expr>),
    MeanKeepdim(Axis, Box<Expr>),
    FlattenFrom(usize, Box<Expr>),
}

/// A tensor, its dimensions and the operations that produced it. The
/// dimensions are always read from the tensor itself: values of this type are
/// built only in this module, each time with the tensor's own dimensions.
pub struct Activation {
    tensor: candle_core::Tensor,
    dims: Vec<usize>,
    trace: Ghost<Expr>,
}

impl View for Activation {
    type V = Seq<usize>;

    /// The dimensions of the tensor.
    closed spec fn view(&self) -> Seq<usize> {
        self.dims@
    }
}

/// Reads the dimensions of a tensor (candle's `Tensor::dims`). The dimensions are
/// a property of an opaque tensor value, so nothing is stated of them.
#[verifier::external_body]
fn tensor_dims(t: &candle_core::Tensor) -> Vec<usize> {
    t.dims().to_vec()
}

impl Activation {
    /// The tensor held.
    pub closed spec fn tensor_spec(&self) -> candle_core::Tensor {
        self.tensor
    }

    /// The operations that produced the tensor.
    pub closed spec fn expr(&self) -> Expr {
        self.trace@
    }

    /// Wraps a tensor handed in, reading its dimensions.
    pub fn new(tensor: candle_core::Tensor) -> (a: Activation)
        ensures
            a.tensor_spec() == tensor,
            a.expr() == Expr::Input,
    {
        let dims = tensor_dims(&tensor);
        Activation { tensor, dims, trace: Ghost(Expr::Input) }
    }

    /// Wraps a tensor that the operation recorded in `trace` produced,
    /// reading its dimensions.
    pub(crate) fn from_op(tensor: candle_core::Tensor, trace: Ghost<Expr>) -> (a: Activation)
        ensures
            a.tensor_spec() == tensor,
            a.expr() == trace@,
    {
        let dims = tensor_dims(&tensor);
        Activation { tensor, dims, trace }
    }

    /// The tensor held.
    pub fn tensor(&self) -> (t: &candle_core::Tensor)
        ensures
            *t == self.tensor_spec(),
    {
        &self.tensor
    }

    /// Gives the tensor back.
    pub fn into_tensor(self) -> (t: candle_core::Tensor)
        ensures
            t == self.tensor_spec(),
    {
        self.tensor
    }

    /// The dimensions of the tensor.
    pub fn dims(&self) -> (d: &Vec<usize>)
        ensures
            d@ == self@,
    {
        &self.dims
    }
}

/// `Tensor::clone`: another handle on the same tensor (same storage), so the
/// same dimensions and the same values.
#[verifier::external_body]
pub(crate) fn duplicate(x: &Activation) -> (y: Activation)
    ensures
        y@ == x@,
        y.expr() == x.expr(),
{
    Activation { tensor: x.tensor.clone(), dims: x.dims.clone(), trace: Ghost(x.trace@) }
}

/// `Tensor::relu`: an element-wise operation, so the dimensions are kept.
#[verifier::external_body]
pub(crate) fn relu(x: &Activation) -> (r: Result<Activation, candle_core::Error>)
    ensures
        r matches Ok(y) ==> y@ == x@ && y.expr() == Expr::Relu(Box::new(x.expr())),
{
    let t = x.tensor.relu()?;
    Ok(Activation { dims: t.dims().to_vec(), tensor: t, trace: Ghost(Expr::Relu(Box::new(x.trace@))) })
}

/// `Tensor + Tensor` (`Tensor::add`): candle requires both shapes to be equal
/// (no broadcasting) and the sum has that shape.
#[verifier::external_body]
pub(crate) fn add_tensors(a: &Activation, b: &Activation) -> (r: Result<Activation, candle_core::Error>)
    ensures
        r matches Ok(y) ==> a@ == b@ && y@ == a@ && y.expr() == Expr::Add(Box::new(a.expr()), Box::new(b.expr())),
{
    let t = (&a.tensor + &b.tensor)?;
    Ok(Activation { dims: t.dims().to_vec(), tensor: t, trace: Ghost(Expr::Add(Box::new(a.trace@), Box::new(b.trace@))) })
}

/// `Tensor::pad_with_same` on the axis `axis`: the axis grows by `left + right`
/// (with no padding the tensor is returned as is); the axis must exist.
#[verifier::external_body]
pub(crate) fn pad_with_same(x: &Activation, axis: Axis, left: usize, right: usize) -> (r: Result<Activation, candle_core::Error>)
    ensures
        r matches Ok(y) ==> {
            if left == 0 && right == 0 {
                y@ == x@
            } else {
                &&& x@.len() >= axis.from_end()
                &&& y@ == x@.update(x@.len() - axis.from_end(),
                        (x@[x@.len() - axis.from_end()] + left + right) as usize)
            }
        },
        r matches Ok(y) ==> y.expr() == Expr::PadSame(axis, left, right, Box::new(x.expr())),
{
    let trace = Ghost(Expr::PadSame(axis, left, right, Box::new(x.trace@)));
    let d = match axis {
        Axis::Last => candle_core::D::Minus1,
        Axis::SecondLast => candle_core::D::Minus2,
    };
    let t = x.tensor.pad_with_same(d, left, right)?;
    Ok(Activation { dims: t.dims().to_vec(), tensor: t, trace })
}

/// `Tensor::max_pool2d_with_stride`: the input must have four dimensions with
/// both spatial ones at least the kernel size; each spatial length becomes
/// `(len - ksize) / stride + 1`.
#[verifier::external_body]
pub(crate) fn max_pool2d(x: &Activation, ksize: usize, stride: usize) -> (r: Result<Activation, candle_core::Error>)
    requires
        ksize > 0,
        stride > 0,
    ensures
        r matches Ok(y) ==> {
            &&& x@.len() == 4
            &&& x@[2] >= ksize
            &&& x@[3] >= ksize
            &&& y@ == seq![x@[0], x@[1],
                    pool_len(x@[2] as int, ksize as int, stride as int) as usize,
                    pool_len(x@[3] as int, ksize as int, stride as int) as usize]
        },
        r matches Ok(y) ==> y.expr() == Expr::MaxPool(ksize, stride, Box::new(x.expr())),
{
    let t = x.tensor.max_pool2d_with_stride(ksize, stride)?;
    Ok(Activation { dims: t.dims().to_vec(), tensor: t, trace: Ghost(Expr::MaxPool(ksize, stride, Box::new(x.trace@))) })
}

/// `Tensor::mean` over one axis: that axis is removed.
#[verifier::external_body]
pub(crate) fn mean(x: &Activation, axis: Axis) -> (r: Result<Activation, candle_core::Error>)
    ensures
        r matches Ok(y) ==> {
            &&& x@.len() >= axis.from_end()
            &&& y@ == x@.remove(x@.len() - axis.from_end())
        },
        r matches Ok(y) ==> y.expr() == Expr::Mean(axis, Box::new(x.expr())),
{
    let trace = Ghost(Expr::Mean(axis, Box::new(x.trace@)));
    let d = match axis {
        Axis::Last => candle_core::D::Minus1,
        Axis::SecondLast => candle_core::D::Minus2,
    };
    let t = x.tensor.mean(d)?;
    Ok(Activation { dims: t.dims().to_vec(), tensor: t, trace })
}

/// `Tensor::mean_keepdim` over one axis: that axis is kept with length 1.
#[verifier::external_body]
pub(crate) fn mean_keepdim(x: &Activation, axis: Axis) -> (r: Result<Activation, candle_core::Error>)
    ensures
        r matches Ok(y) ==> {
            &&& x@.len() >= axis.from_end()
            &&& y@ == x@.update(x@.len() - axis.from_end(), 1usize)
        },
        r matches Ok(y) ==> y.expr() == Expr::MeanKeepdim(axis, Box::new(x.expr())),
{
    let trace = Ghost(Expr::MeanKeepdim(axis, Box::new(x.trace@)));
    let d = match axis {
        Axis::Last => candle_core::D::Minus1,
        Axis::SecondLast => candle_core::D::Minus2,
    };
    let t = x.tensor.mean_keepdim(d)?;
    Ok(Activation { dims: t.dims().to_vec(), tensor: t, trace })
}

/// The dimensions after merging the axes from `start` on into one (nothing
/// changes when `start` is the last axis).
pub open spec fn flatten_from_dims(d: Seq<usize>, start: int) -> Seq<usize> {
    if start >= d.len() - 1 {
        d
    } else {
        d.take(start).push(dims_product(d.skip(start)) as usize)
    }
}

/// `Tensor::flatten_from(start_dim)`: the axes `start_dim..` are merged into
/// one (a scalar becomes a one-element vector); `start_dim` must be an axis of
/// the tensor.
#[verifier::external_body]
pub(crate) fn flatten_from(x: &Activation, start_dim: usize) -> (r: Result<Activation, candle_core::Error>)
    ensures
        r matches Ok(y) ==> {
            if x@.len() == 0 {
                y@ == seq![1usize]
            } else {
                &&& start_dim < x@.len()
                &&& y@ == flatten_from_dims(x@, start_dim as int)
            }
        },
        r matches Ok(y) ==> y.expr() == Expr::FlattenFrom(start_dim, Box::new(x.expr())),
{
    let t = x.tensor.flatten_from(start_dim)?;
    Ok(Activation { dims: t.dims().to_vec(), tensor: t, trace: Ghost(Expr::FlattenFrom(start_dim, Box::new(x.trace@))) })
}

} // verus!
