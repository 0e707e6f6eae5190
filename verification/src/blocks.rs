//! Residual blocks: the projection on the skip connection, the basic block of
//! ResNet-18/34 and the bottleneck block of ResNet-50/101/152.
use vstd::prelude::*;
use crate::error::NetError;
use crate::names::{child, child_path};
use crate::params::{
    ConvLayer, ConvSpec, LayerRequest, Loaded, NormLayer, NormSpec, ParamRequest, conv_forward,
    all_fitted, answers_fit, conv_request, dims_are, explained, failed_in_order, fitted,
    lemma_explained_subset, lemma_fails_one, lemma_fitted_one, lemma_refused, lemma_step_fail,
    lemma_step_ok, load_conv, load_norm,
    norm_forward, norm_request, reply_explains,
};
use crate::tensor::{
    Activation, CandleError, Expr, add_tensors, conv_len, duplicate, relu,
};

verus! {

// ---------------------------------------------------------------------------
// Shapes through single layers

/// A convolution accepts a 4-dimensional input with its number of input channels.
pub open spec fn conv_accepts(c: ConvSpec, d: Seq<usize>) -> bool {
    d.len() == 4 && d[1] == c.in_planes
}

/// The dimensions a convolution produces.
pub open spec fn conv_out(c: ConvSpec, d: Seq<usize>) -> Seq<usize> {
    seq![d[0], c.out_planes,
        conv_len(d[2] as int, c.ksize as int, c.padding as int, c.stride as int) as usize,
        conv_len(d[3] as int, c.ksize as int, c.padding as int, c.stride as int) as usize]
}

/// The inputs on which running a convolution does not make candle panic.
pub open spec fn conv_safe(c: ConvSpec, d: Seq<usize>) -> bool {
    &&& c.stride > 0
    &&& c.ksize > 0
    &&& conv_accepts(c, d) ==> d[2] + 2 * c.padding >= c.ksize && d[3] + 2 * c.padding >= c.ksize
}

/// The expression of a convolution applied to `x`.
pub open spec fn conv_expr(c: ConvSpec, x: Expr) -> Expr {
    Expr::Conv(c, Box::new(x))
}

/// The expression of a batch normalisation applied to `x`.
pub open spec fn norm_expr(n: NormSpec, x: Expr) -> Expr {
    Expr::Norm(n, Box::new(x))
}

/// The expression of relu applied to `x`.
pub open spec fn relu_expr(x: Expr) -> Expr {
    Expr::Relu(Box::new(x))
}

/// The expression of the element-wise sum `a + b`.
pub open spec fn add_expr(a: Expr, b: Expr) -> Expr {
    Expr::Add(Box::new(a), Box::new(b))
}

/// A convolution description.
pub open spec fn conv_spec(path: Seq<Seq<char>>, in_planes: usize, out_planes: usize, ksize: usize, padding: usize, stride: usize) -> ConvSpec {
    ConvSpec { path, in_planes, out_planes, ksize, padding, stride }
}

/// A batch normalisation description.
pub open spec fn norm_spec(path: Seq<Seq<char>>, num_features: usize) -> NormSpec {
    NormSpec { path, num_features }
}

// ---------------------------------------------------------------------------
// Projection on the skip connection

/// The description of a skip-connection projection: a 1x1 convolution and a
/// batch normalisation, used when the stride or the channel count changes.
pub struct DownsampleSpec {
    pub conv: ConvSpec,
    pub bn: NormSpec,
    pub in_planes: usize,
    pub out_planes: usize,
    pub stride: usize,
}

impl DownsampleSpec {
    /// Whether the projection is applied; otherwise the input passes unchanged.
    pub open spec fn projects(self) -> bool {
        self.stride != 1 || self.in_planes != self.out_planes
    }

    /// What a successful forward pass requires of the input dimensions.
    pub open spec fn accepts(self, d: Seq<usize>) -> bool {
        self.projects() ==> conv_accepts(self.conv, d) && self.conv.out_planes == self.bn.num_features
    }

    /// The dimensions a successful forward pass produces.
    pub open spec fn out_dims(self, d: Seq<usize>) -> Seq<usize> {
        if self.projects() { conv_out(self.conv, d) } else { d }
    }

    /// The inputs on which the forward pass does not panic.
    pub open spec fn safe(self, d: Seq<usize>) -> bool {
        self.projects() ==> conv_safe(self.conv, d)
    }

    /// The requests made to the loader for the projection's layers.
    pub open spec fn requests(self) -> Set<LayerRequest> {
        set![conv_request(self.conv), norm_request(self.bn)]
    }

    /// The same requests in the order they are made.
    pub open spec fn request_seq(self) -> Seq<LayerRequest> {
        seq![conv_request(self.conv), norm_request(self.bn)]
    }

    /// What the skip connection computes from `x`: the batch normalisation of
    /// the convolution of `x` when it projects, `x` itself otherwise.
    pub open spec fn expr(self, x: Expr) -> Expr {
        if self.projects() { norm_expr(self.bn, conv_expr(self.conv, x)) } else { x }
    }
}

/// The requests made for an optional projection, in order: none when it is absent.
pub open spec fn optional_request_seq(o: Option<DownsampleSpec>) -> Seq<LayerRequest> {
    match o {
        Some(s) => s.request_seq(),
        None => Seq::empty(),
    }
}

/// The requests made for an optional projection: none when it is absent.
pub open spec fn optional_requests(o: Option<DownsampleSpec>) -> Set<LayerRequest> {
    match o {
        Some(s) => s.requests(),
        None => Set::empty(),
    }
}

/// The projection layers under `path`: the convolution under segment `0`
/// and the batch normalisation under segment `1`.
pub open spec fn downsample_layers(path: Seq<Seq<char>>, in_planes: usize, out_planes: usize, stride: usize) -> DownsampleSpec {
    DownsampleSpec {
        conv: conv_spec(child(path, "0"@), in_planes, out_planes, 1, 0, stride),
        bn: norm_spec(child(path, "1"@), out_planes),
        in_planes,
        out_planes,
        stride,
    }
}

/// The projection of a basic block: present exactly when the stride is not 1
/// or the channel count changes.
pub open spec fn downsample_spec(path: Seq<Seq<char>>, in_planes: usize, out_planes: usize, stride: usize) -> Option<DownsampleSpec> {
    if stride != 1 || in_planes != out_planes {
        Some(downsample_layers(path, in_planes, out_planes, stride))
    } else {
        None
    }
}

/// A skip-connection projection.
#[derive(Debug)]
pub struct Downsample {
    conv2d: ConvLayer,
    bn2: NormLayer,
    in_planes: usize,
    out_planes: usize,
    stride: usize,
}

impl View for Downsample {
    type V = DownsampleSpec;

    closed spec fn view(&self) -> DownsampleSpec {
        DownsampleSpec {
            conv: self.conv2d@,
            bn: self.bn2@,
            in_planes: self.in_planes,
            out_planes: self.out_planes,
            stride: self.stride,
        }
    }
}

/// The description of an optional projection.
pub open spec fn downsample_view(o: Option<Downsample>) -> Option<DownsampleSpec> {
    match o {
        Some(d) => Some(d@),
        None => None,
    }
}

/// Turns an error of the tensor backend into an error of the network.
pub(crate) fn lift(r: Result<Activation, CandleError>) -> (o: Result<Activation, NetError>)
    ensures
        r is Ok <==> o is Ok,
        r matches Ok(y) ==> o == Ok::<Activation, NetError>(y),
        o matches Err(e) ==> e is Candle,
{
    match r {
        Ok(y) => Ok(y),
        Err(e) => Err(NetError::Candle(e)),
    }
}

/// A convolution without bias under `path`.
fn conv2d<F>(load: &F, path: Vec<String>, in_planes: usize, out_planes: usize, ksize: usize, padding: usize, stride: usize) -> (r: Result<ConvLayer, NetError>)
    where F: Fn(&ParamRequest) -> Result<Loaded, CandleError>,
    requires
        forall|q: &ParamRequest| #[trigger] load.requires((q,)),
    ensures
        r matches Ok(c) ==> c@ == conv_spec(path.deep_view(), in_planes, out_planes, ksize, padding, stride),
        r matches Ok(c) ==> c.loaded_by(*load),
        r matches Err(e) ==> reply_explains(*load, conv_request(conv_spec(path.deep_view(), in_planes, out_planes, ksize, padding, stride)), e),
        r is Ok ==> fitted(*load, conv_request(conv_spec(path.deep_view(), in_planes, out_planes, ksize, padding, stride))),
{
    load_conv(load, path, in_planes, out_planes, ksize, padding, stride)
}

impl Downsample {
    /// Every layer held is the loader's answer to the request for it.
    pub closed spec fn loaded_by<F: Fn(&ParamRequest) -> Result<Loaded, CandleError>>(&self, load: F) -> bool {
        self.conv2d.loaded_by(load) && self.bn2.loaded_by(load)
    }

    /// Loads the projection layers under `path` (always, whatever the stride
    /// and channel counts).
    pub fn new<F>(load: &F, path: &Vec<String>, in_planes: usize, out_planes: usize, stride: usize) -> (r: Result<Downsample, NetError>)
        where F: Fn(&ParamRequest) -> Result<Loaded, CandleError>,
        requires
            forall|q: &ParamRequest| #[trigger] load.requires((q,)),
        ensures
            r matches Ok(d) ==> d@ == downsample_layers(path.deep_view(), in_planes, out_planes, stride),
            r matches Ok(d) ==> d.loaded_by(*load),
            r matches Err(e) ==> explained(*load, downsample_layers(path.deep_view(), in_planes, out_planes, stride).requests(), e),
            answers_fit(*load, downsample_layers(path.deep_view(), in_planes, out_planes, stride).requests()) ==> r is Ok,
            r is Ok ==> all_fitted(*load, downsample_layers(path.deep_view(), in_planes, out_planes, stride).request_seq()),
            r matches Err(e) ==> failed_in_order(*load, downsample_layers(path.deep_view(), in_planes, out_planes, stride).request_seq(), e),
    {
        let ghost want = downsample_layers(path.deep_view(), in_planes, out_planes, stride);
        let ghost s_all = want.request_seq();
        let ghost mut done = Seq::<LayerRequest>::empty();
        let conv2d = match conv2d(load, child_path(path, "0"), in_planes, out_planes, 1, 0, stride) {
            Ok(c) => c,
            Err(e) => {
                proof {
                    lemma_refused(*load, conv_request(want.conv), want.requests(), e);
                    lemma_fails_one(*load, conv_request(want.conv), e);
                    assert(s_all.take((done.len() + seq![conv_request(want.conv)].len()) as int) =~= done + seq![conv_request(want.conv)]);
                    lemma_step_fail(*load, s_all, done, seq![conv_request(want.conv)], e);
                }
                return Err(e);
            },
        };
        proof {
            lemma_fitted_one(*load, conv_request(want.conv));
            assert(s_all.take((done.len() + seq![conv_request(want.conv)].len()) as int) =~= done + seq![conv_request(want.conv)]);
            lemma_step_ok(*load, s_all, done, seq![conv_request(want.conv)]);
            done = done + seq![conv_request(want.conv)];
        }
        let bn2 = match load_norm(load, child_path(path, "1"), out_planes) {
            Ok(n) => n,
            Err(e) => {
                proof {
                    lemma_refused(*load, norm_request(want.bn), want.requests(), e);
                    lemma_fails_one(*load, norm_request(want.bn), e);
                    assert(s_all.take((done.len() + seq![norm_request(want.bn)].len()) as int) =~= done + seq![norm_request(want.bn)]);
                    lemma_step_fail(*load, s_all, done, seq![norm_request(want.bn)], e);
                }
                return Err(e);
            },
        };
        proof {
            lemma_fitted_one(*load, norm_request(want.bn));
            assert(s_all.take((done.len() + seq![norm_request(want.bn)].len()) as int) =~= done + seq![norm_request(want.bn)]);
            lemma_step_ok(*load, s_all, done, seq![norm_request(want.bn)]);
            done = done + seq![norm_request(want.bn)];
        }
        proof {
            assert(done =~= s_all);
        }
        Ok(Downsample { conv2d, bn2, in_planes, out_planes, stride })
    }

    /// The skip connection: the projection (convolution then batch
    /// normalisation) when the stride or channel count changes, the input
    /// itself otherwise.
    pub fn forward(&self, xs: &Activation) -> (r: Result<Activation, NetError>)
        requires
            self@.safe(xs@),
        ensures
            r matches Ok(y) ==> self@.accepts(xs@) && y@ == self@.out_dims(xs@) && y.expr() == self@.expr(xs.expr()),
            r matches Err(e) ==> e is Candle,
            !self@.projects() ==> r is Ok,
    {
        if self.stride != 1 || self.in_planes != self.out_planes {
            let ys = lift(conv_forward(&self.conv2d, xs))?;
            lift(norm_forward(&self.bn2, &ys))
        } else {
            Ok(duplicate(xs))
        }
    }
}

/// The projection of a basic block under `path`, loaded only when the stride
/// is not 1 or the channel count changes.
fn downsample<F>(load: &F, path: &Vec<String>, in_planes: usize, out_planes: usize, stride: usize) -> (r: Result<Option<Downsample>, NetError>)
    where F: Fn(&ParamRequest) -> Result<Loaded, CandleError>,
    requires
        forall|q: &ParamRequest| #[trigger] load.requires((q,)),
    ensures
        r matches Ok(o) ==> downsample_view(o) == downsample_spec(path.deep_view(), in_planes, out_planes, stride),
        r matches Ok(o) ==> (o matches Some(d) ==> d.loaded_by(*load)),
        r matches Err(e) ==> explained(*load, optional_requests(downsample_spec(path.deep_view(), in_planes, out_planes, stride)), e),
        answers_fit(*load, optional_requests(downsample_spec(path.deep_view(), in_planes, out_planes, stride))) ==> r is Ok,
        r is Ok ==> all_fitted(*load, optional_request_seq(downsample_spec(path.deep_view(), in_planes, out_planes, stride))),
        r matches Err(e) ==> failed_in_order(*load, optional_request_seq(downsample_spec(path.deep_view(), in_planes, out_planes, stride)), e),
{
    if stride != 1 || in_planes != out_planes {
        match Downsample::new(load, path, in_planes, out_planes, stride) {
            Ok(d) => Ok(Some(d)),
            Err(e) => Err(e),
        }
    } else {
        Ok(None)
    }
}

// ---------------------------------------------------------------------------
// Basic block

/// The description of a basic block: two 3x3 convolutions, each followed by a
/// batch normalisation, and an optional projection on the skip connection.
pub struct BasicBlockSpec {
    pub conv1: ConvSpec,
    pub bn1: NormSpec,
    pub conv2: ConvSpec,
    pub bn2: NormSpec,
    pub downsample: Option<DownsampleSpec>,
}

impl BasicBlockSpec {
    /// Dimensions at the end of the main branch.
    pub open spec fn main_dims(self, d: Seq<usize>) -> Seq<usize> {
        conv_out(self.conv2, conv_out(self.conv1, d))
    }

    /// Dimensions at the end of the skip connection.
    pub open spec fn skip_dims(self, d: Seq<usize>) -> Seq<usize> {
        match self.downsample {
            Some(s) => s.out_dims(d),
            None => d,
        }
    }

    /// What a successful forward pass requires of the input dimensions: every
    /// layer gets the channels it expects and both branches end with the same
    /// dimensions, so that they can be added.
    pub open spec fn accepts(self, d: Seq<usize>) -> bool {
        &&& conv_accepts(self.conv1, d)
        &&& self.conv1.out_planes == self.bn1.num_features
        &&& self.conv1.out_planes == self.conv2.in_planes
        &&& self.conv2.out_planes == self.bn2.num_features
        &&& match self.downsample {
            Some(s) => s.accepts(d),
            None => true,
        }
        &&& self.skip_dims(d) == self.main_dims(d)
    }

    /// The dimensions a successful forward pass produces.
    pub open spec fn out_dims(self, d: Seq<usize>) -> Seq<usize> {
        self.main_dims(d)
    }

    /// The inputs on which the forward pass does not panic.
    pub open spec fn safe(self, d: Seq<usize>) -> bool {
        &&& conv_safe(self.conv1, d)
        &&& conv_accepts(self.conv1, d) ==> conv_safe(self.conv2, conv_out(self.conv1, d))
        &&& conv_accepts(self.conv1, d) ==> match self.downsample {
            Some(s) => s.safe(d),
            None => true,
        }
    }

    /// The requests made to the loader for the block's layers.
    pub open spec fn requests(self) -> Set<LayerRequest> {
        set![conv_request(self.conv1), norm_request(self.bn1), conv_request(self.conv2), norm_request(self.bn2)]
            + optional_requests(self.downsample)
    }

    /// The same requests in the order they are made: conv1, bn1, conv2, bn2,
    /// then the projection's.
    pub open spec fn request_seq(self) -> Seq<LayerRequest> {
        seq![conv_request(self.conv1), norm_request(self.bn1), conv_request(self.conv2), norm_request(self.bn2)]
            + optional_request_seq(self.downsample)
    }

    /// What the main branch computes from `x`: `bn2(conv2(relu(bn1(conv1(x)))))`.
    pub open spec fn main_expr(self, x: Expr) -> Expr {
        norm_expr(self.bn2, conv_expr(self.conv2, relu_expr(norm_expr(self.bn1, conv_expr(self.conv1, x)))))
    }

    /// What the block computes from `x`: `relu(skip(x) + main(x))` with the
    /// projection, `relu(main(x) + x)` without.
    pub open spec fn expr(self, x: Expr) -> Expr {
        match self.downsample {
            Some(s) => relu_expr(add_expr(s.expr(x), self.main_expr(x))),
            None => relu_expr(add_expr(self.main_expr(x), x)),
        }
    }
}

/// The basic block under `path` from `in_planes` to `out_planes` channels:
/// `conv1` (3x3, padding 1, the block's stride), `bn1`, `conv2` (3x3,
/// padding 1, stride 1), `bn2`, and under `downsample` the projection when the
/// stride is not 1 or the channel count changes.
pub open spec fn basic_block_spec(path: Seq<Seq<char>>, in_planes: usize, out_planes: usize, stride: usize) -> BasicBlockSpec {
    BasicBlockSpec {
        conv1: conv_spec(child(path, "conv1"@), in_planes, out_planes, 3, 1, stride),
        bn1: norm_spec(child(path, "bn1"@), out_planes),
        conv2: conv_spec(child(path, "conv2"@), out_planes, out_planes, 3, 1, 1),
        bn2: norm_spec(child(path, "bn2"@), out_planes),
        downsample: downsample_spec(child(path, "downsample"@), in_planes, out_planes, stride),
    }
}

/// The residual block of ResNet-18 and ResNet-34.
#[derive(Debug)]
pub struct BasicBlock {
    conv1: ConvLayer,
    bn1: NormLayer,
    conv2: ConvLayer,
    bn2: NormLayer,
    downsample: Option<Downsample>,
}

impl View for BasicBlock {
    type V = BasicBlockSpec;

    closed spec fn view(&self) -> BasicBlockSpec {
        BasicBlockSpec {
            conv1: self.conv1@,
            bn1: self.bn1@,
            conv2: self.conv2@,
            bn2: self.bn2@,
            downsample: downsample_view(self.downsample),
        }
    }
}

impl BasicBlock {
    /// Every layer held is the loader's answer to the request for it.
    pub closed spec fn loaded_by<F: Fn(&ParamRequest) -> Result<Loaded, CandleError>>(&self, load: F) -> bool {
        &&& self.conv1.loaded_by(load)
        &&& self.bn1.loaded_by(load)
        &&& self.conv2.loaded_by(load)
        &&& self.bn2.loaded_by(load)
        &&& self.downsample matches Some(d) ==> d.loaded_by(load)
    }

    /// Loads a basic block under `path`; the layers are requested in the order
    /// conv1, bn1, conv2, bn2, projection.
    pub fn new<F>(load: &F, path: &Vec<String>, in_planes: usize, out_planes: usize, stride: usize) -> (r: Result<BasicBlock, NetError>)
        where F: Fn(&ParamRequest) -> Result<Loaded, CandleError>,
        requires
            forall|q: &ParamRequest| #[trigger] load.requires((q,)),
        ensures
            r matches Ok(b) ==> b@ == basic_block_spec(path.deep_view(), in_planes, out_planes, stride),
            r matches Ok(b) ==> b.loaded_by(*load),
            r matches Err(e) ==> explained(*load, basic_block_spec(path.deep_view(), in_planes, out_planes, stride).requests(), e),
            answers_fit(*load, basic_block_spec(path.deep_view(), in_planes, out_planes, stride).requests()) ==> r is Ok,
            r is Ok ==> all_fitted(*load, basic_block_spec(path.deep_view(), in_planes, out_planes, stride).request_seq()),
            r matches Err(e) ==> failed_in_order(*load, basic_block_spec(path.deep_view(), in_planes, out_planes, stride).request_seq(), e),
    {
        let ghost want = basic_block_spec(path.deep_view(), in_planes, out_planes, stride);
        let ghost s_all = want.request_seq();
        let ghost mut done = Seq::<LayerRequest>::empty();
        let conv1 = match conv2d(load, child_path(path, "conv1"), in_planes, out_planes, 3, 1, stride) {
            Ok(c) => c,
            Err(e) => {
                proof {
                    lemma_refused(*load, conv_request(want.conv1), want.requests(), e);
                    lemma_fails_one(*load, conv_request(want.conv1), e);
                    assert(s_all.take((done.len() + seq![conv_request(want.conv1)].len()) as int) =~= done + seq![conv_request(want.conv1)]);
                    lemma_step_fail(*load, s_all, done, seq![conv_request(want.conv1)], e);
                }
                return Err(e);
            },
        };
        proof {
            lemma_fitted_one(*load, conv_request(want.conv1));
            assert(s_all.take((done.len() + seq![conv_request(want.conv1)].len()) as int) =~= done + seq![conv_request(want.conv1)]);
            lemma_step_ok(*load, s_all, done, seq![conv_request(want.conv1)]);
            done = done + seq![conv_request(want.conv1)];
        }
        let bn1 = match load_norm(load, child_path(path, "bn1"), out_planes) {
            Ok(n) => n,
            Err(e) => {
                proof {
                    lemma_refused(*load, norm_request(want.bn1), want.requests(), e);
                    lemma_fails_one(*load, norm_request(want.bn1), e);
                    assert(s_all.take((done.len() + seq![norm_request(want.bn1)].len()) as int) =~= done + seq![norm_request(want.bn1)]);
                    lemma_step_fail(*load, s_all, done, seq![norm_request(want.bn1)], e);
                }
                return Err(e);
            },
        };
        proof {
            lemma_fitted_one(*load, norm_request(want.bn1));
            assert(s_all.take((done.len() + seq![norm_request(want.bn1)].len()) as int) =~= done + seq![norm_request(want.bn1)]);
            lemma_step_ok(*load, s_all, done, seq![norm_request(want.bn1)]);
            done = done + seq![norm_request(want.bn1)];
        }
        let conv2 = match conv2d(load, child_path(path, "conv2"), out_planes, out_planes, 3, 1, 1) {
            Ok(c) => c,
            Err(e) => {
                proof {
                    lemma_refused(*load, conv_request(want.conv2), want.requests(), e);
                    lemma_fails_one(*load, conv_request(want.conv2), e);
                    assert(s_all.take((done.len() + seq![conv_request(want.conv2)].len()) as int) =~= done + seq![conv_request(want.conv2)]);
                    lemma_step_fail(*load, s_all, done, seq![conv_request(want.conv2)], e);
                }
                return Err(e);
            },
        };
        proof {
            lemma_fitted_one(*load, conv_request(want.conv2));
            assert(s_all.take((done.len() + seq![conv_request(want.conv2)].len()) as int) =~= done + seq![conv_request(want.conv2)]);
            lemma_step_ok(*load, s_all, done, seq![conv_request(want.conv2)]);
            done = done + seq![conv_request(want.conv2)];
        }
        let bn2 = match load_norm(load, child_path(path, "bn2"), out_planes) {
            Ok(n) => n,
            Err(e) => {
                proof {
                    lemma_refused(*load, norm_request(want.bn2), want.requests(), e);
                    lemma_fails_one(*load, norm_request(want.bn2), e);
                    assert(s_all.take((done.len() + seq![norm_request(want.bn2)].len()) as int) =~= done + seq![norm_request(want.bn2)]);
                    lemma_step_fail(*load, s_all, done, seq![norm_request(want.bn2)], e);
                }
                return Err(e);
            },
        };
        proof {
            lemma_fitted_one(*load, norm_request(want.bn2));
            assert(s_all.take((done.len() + seq![norm_request(want.bn2)].len()) as int) =~= done + seq![norm_request(want.bn2)]);
            lemma_step_ok(*load, s_all, done, seq![norm_request(want.bn2)]);
            done = done + seq![norm_request(want.bn2)];
        }
        let downsample = match downsample(load, &child_path(path, "downsample"), in_planes, out_planes, stride) {
            Ok(d) => d,
            Err(e) => {
                proof {
                    lemma_explained_subset(*load, optional_requests(want.downsample), want.requests(), e);
                    assert(s_all.take((done.len() + optional_request_seq(want.downsample).len()) as int) =~= done + optional_request_seq(want.downsample));
                    lemma_step_fail(*load, s_all, done, optional_request_seq(want.downsample), e);
                }
                return Err(e);
            },
        };
        proof {
            assert(s_all.take((done.len() + optional_request_seq(want.downsample).len()) as int) =~= done + optional_request_seq(want.downsample));
            lemma_step_ok(*load, s_all, done, optional_request_seq(want.downsample));
            done = done + optional_request_seq(want.downsample);
        }
        proof {
            assert(done =~= s_all);
        }
        Ok(BasicBlock { conv1, bn1, conv2, bn2, downsample })
    }

    /// `relu(skip(x) + bn2(conv2(relu(bn1(conv1(x))))))`, where the skip
    /// connection is the projection when there is one and `x` otherwise.
    pub fn forward(&self, xs: &Activation) -> (r: Result<Activation, NetError>)
        requires
            self@.safe(xs@),
        ensures
            r matches Ok(y) ==> self@.accepts(xs@) && y@ == self@.out_dims(xs@) && y.expr() == self@.expr(xs.expr()),
            r matches Err(e) ==> e is Candle,
    {
        let ys = lift(conv_forward(&self.conv1, xs))?;
        let ys = lift(norm_forward(&self.bn1, &ys))?;
        let ys = lift(relu(&ys))?;
        let ys = lift(conv_forward(&self.conv2, &ys))?;
        let ys = lift(norm_forward(&self.bn2, &ys))?;
        match &self.downsample {
            Some(downsample) => {
                let skip = downsample.forward(xs)?;
                let sum = lift(add_tensors(&skip, &ys))?;
                lift(relu(&sum))
            },
            None => {
                let sum = lift(add_tensors(&ys, xs))?;
                lift(relu(&sum))
            },
        }
    }
}

// ---------------------------------------------------------------------------
// Bottleneck block

/// The description of a bottleneck block: 1x1, 3x3 and 1x1 convolutions, each
/// followed by a batch normalisation, and a projection on the skip connection.
pub struct BottleneckBlockSpec {
    pub conv1: ConvSpec,
    pub bn1: NormSpec,
    pub conv2: ConvSpec,
    pub bn2: NormSpec,
    pub conv3: ConvSpec,
    pub bn3: NormSpec,
    pub downsample: DownsampleSpec,
}

impl BottleneckBlockSpec {
    /// Dimensions after the first convolution.
    pub open spec fn dims1(self, d: Seq<usize>) -> Seq<usize> {
        conv_out(self.conv1, d)
    }

    /// Dimensions after the second convolution.
    pub open spec fn dims2(self, d: Seq<usize>) -> Seq<usize> {
        conv_out(self.conv2, self.dims1(d))
    }

    /// Dimensions at the end of the main branch.
    pub open spec fn main_dims(self, d: Seq<usize>) -> Seq<usize> {
        conv_out(self.conv3, self.dims2(d))
    }

    /// What a successful forward pass requires of the input dimensions.
    pub open spec fn accepts(self, d: Seq<usize>) -> bool {
        &&& conv_accepts(self.conv1, d)
        &&& self.conv1.out_planes == self.bn1.num_features
        &&& self.conv1.out_planes == self.conv2.in_planes
        &&& self.conv2.out_planes == self.bn2.num_features
        &&& self.conv2.out_planes == self.conv3.in_planes
        &&& self.conv3.out_planes == self.bn3.num_features
        &&& self.downsample.accepts(d)
        &&& self.downsample.out_dims(d) == self.main_dims(d)
    }

    /// The dimensions a successful forward pass produces.
    pub open spec fn out_dims(self, d: Seq<usize>) -> Seq<usize> {
        self.main_dims(d)
    }

    /// The inputs on which the forward pass does not panic.
    pub open spec fn safe(self, d: Seq<usize>) -> bool {
        &&& conv_safe(self.conv1, d)
        &&& conv_accepts(self.conv1, d) ==> conv_safe(self.conv2, self.dims1(d))
        &&& conv_accepts(self.conv1, d) && conv_accepts(self.conv2, self.dims1(d))
                ==> conv_safe(self.conv3, self.dims2(d))
        &&& conv_accepts(self.conv1, d) && conv_accepts(self.conv2, self.dims1(d))
                && conv_accepts(self.conv3, self.dims2(d)) ==> self.downsample.safe(d)
    }

    /// The requests made to the loader for the block's layers.
    pub open spec fn requests(self) -> Set<LayerRequest> {
        set![
            conv_request(self.conv1), norm_request(self.bn1),
            conv_request(self.conv2), norm_request(self.bn2),
            conv_request(self.conv3), norm_request(self.bn3),
        ] + self.downsample.requests()
    }

    /// The same requests in the order they are made: conv1, bn1, conv2, bn2,
    /// conv3, bn3, then the projection's.
    pub open spec fn request_seq(self) -> Seq<LayerRequest> {
        seq![
            conv_request(self.conv1), norm_request(self.bn1),
            conv_request(self.conv2), norm_request(self.bn2),
            conv_request(self.conv3), norm_request(self.bn3),
        ] + self.downsample.request_seq()
    }

    /// What the main branch computes from `x`:
    /// `bn3(conv3(relu(bn2(conv2(relu(bn1(conv1(x))))))))`.
    pub open spec fn main_expr(self, x: Expr) -> Expr {
        norm_expr(self.bn3, conv_expr(self.conv3, relu_expr(norm_expr(self.bn2, conv_expr(self.conv2,
            relu_expr(norm_expr(self.bn1, conv_expr(self.conv1, x))))))))
    }

    /// What the block computes from `x`: `relu(downsample(x) + main(x))`.
    pub open spec fn expr(self, x: Expr) -> Expr {
        relu_expr(add_expr(self.downsample.expr(x), self.main_expr(x)))
    }
}

/// The bottleneck block under `path`: `conv1` (1x1, `in_planes` to
/// `out_planes`), `bn1`, `conv2` (3x3, padding 1, the block's stride), `bn2`,
/// `conv3` (1x1, `out_planes` to `e * out_planes`), `bn3`, and under `downsample`
/// a projection from `in_planes` to `e * out_planes` channels.
pub open spec fn bottleneck_block_spec(path: Seq<Seq<char>>, in_planes: usize, out_planes: usize, stride: usize, e: usize) -> BottleneckBlockSpec {
    BottleneckBlockSpec {
        conv1: conv_spec(child(path, "conv1"@), in_planes, out_planes, 1, 0, 1),
        bn1: norm_spec(child(path, "bn1"@), out_planes),
        conv2: conv_spec(child(path, "conv2"@), out_planes, out_planes, 3, 1, stride),
        bn2: norm_spec(child(path, "bn2"@), out_planes),
        conv3: conv_spec(child(path, "conv3"@), out_planes, (e * out_planes) as usize, 1, 0, 1),
        bn3: norm_spec(child(path, "bn3"@), (e * out_planes) as usize),
        downsample: downsample_layers(child(path, "downsample"@), in_planes, (e * out_planes) as usize, stride),
    }
}

/// The residual block of ResNet-50, ResNet-101 and ResNet-152.
#[derive(Debug)]
pub struct BottleneckBlock {
    conv1: ConvLayer,
    bn1: NormLayer,
    conv2: ConvLayer,
    bn2: NormLayer,
    conv3: ConvLayer,
    bn3: NormLayer,
    downsample: Downsample,
}

impl View for BottleneckBlock {
    type V = BottleneckBlockSpec;

    closed spec fn view(&self) -> BottleneckBlockSpec {
        BottleneckBlockSpec {
            conv1: self.conv1@,
            bn1: self.bn1@,
            conv2: self.conv2@,
            bn2: self.bn2@,
            conv3: self.conv3@,
            bn3: self.bn3@,
            downsample: self.downsample@,
        }
    }
}

impl BottleneckBlock {
    /// Every layer held is the loader's answer to the request for it.
    pub closed spec fn loaded_by<F: Fn(&ParamRequest) -> Result<Loaded, CandleError>>(&self, load: F) -> bool {
        &&& self.conv1.loaded_by(load)
        &&& self.bn1.loaded_by(load)
        &&& self.conv2.loaded_by(load)
        &&& self.bn2.loaded_by(load)
        &&& self.conv3.loaded_by(load)
        &&& self.bn3.loaded_by(load)
        &&& self.downsample.loaded_by(load)
    }

    /// Loads a bottleneck block under `path` with expansion `e`; the layers are
    /// requested in the order conv1, bn1, conv2, bn2, conv3, bn3, projection.
    pub fn new<F>(load: &F, path: &Vec<String>, in_planes: usize, out_planes: usize, stride: usize, e: usize) -> (r: Result<BottleneckBlock, NetError>)
        where F: Fn(&ParamRequest) -> Result<Loaded, CandleError>,
        requires
            forall|q: &ParamRequest| #[trigger] load.requires((q,)),
            e * out_planes <= usize::MAX,
        ensures
            r matches Ok(b) ==> b@ == bottleneck_block_spec(path.deep_view(), in_planes, out_planes, stride, e),
            r matches Ok(b) ==> b.loaded_by(*load),
            r matches Err(err) ==> explained(*load, bottleneck_block_spec(path.deep_view(), in_planes, out_planes, stride, e).requests(), err),
            answers_fit(*load, bottleneck_block_spec(path.deep_view(), in_planes, out_planes, stride, e).requests()) ==> r is Ok,
            r is Ok ==> all_fitted(*load, bottleneck_block_spec(path.deep_view(), in_planes, out_planes, stride, e).request_seq()),
            r matches Err(err) ==> failed_in_order(*load, bottleneck_block_spec(path.deep_view(), in_planes, out_planes, stride, e).request_seq(), err),
    {
        let ghost want = bottleneck_block_spec(path.deep_view(), in_planes, out_planes, stride, e);
        let ghost s_all = want.request_seq();
        let ghost mut done = Seq::<LayerRequest>::empty();
        let e_dim = e * out_planes;
        let conv1 = match conv2d(load, child_path(path, "conv1"), in_planes, out_planes, 1, 0, 1) {
            Ok(c) => c,
            Err(err) => {
                proof {
                    lemma_refused(*load, conv_request(want.conv1), want.requests(), err);
                    lemma_fails_one(*load, conv_request(want.conv1), err);
                    assert(s_all.take((done.len() + seq![conv_request(want.conv1)].len()) as int) =~= done + seq![conv_request(want.conv1)]);
                    lemma_step_fail(*load, s_all, done, seq![conv_request(want.conv1)], err);
                }
                return Err(err);
            },
        };
        proof {
            lemma_fitted_one(*load, conv_request(want.conv1));
            assert(s_all.take((done.len() + seq![conv_request(want.conv1)].len()) as int) =~= done + seq![conv_request(want.conv1)]);
            lemma_step_ok(*load, s_all, done, seq![conv_request(want.conv1)]);
            done = done + seq![conv_request(want.conv1)];
        }
        let bn1 = match load_norm(load, child_path(path, "bn1"), out_planes) {
            Ok(n) => n,
            Err(err) => {
                proof {
                    lemma_refused(*load, norm_request(want.bn1), want.requests(), err);
                    lemma_fails_one(*load, norm_request(want.bn1), err);
                    assert(s_all.take((done.len() + seq![norm_request(want.bn1)].len()) as int) =~= done + seq![norm_request(want.bn1)]);
                    lemma_step_fail(*load, s_all, done, seq![norm_request(want.bn1)], err);
                }
                return Err(err);
            },
        };
        proof {
            lemma_fitted_one(*load, norm_request(want.bn1));
            assert(s_all.take((done.len() + seq![norm_request(want.bn1)].len()) as int) =~= done + seq![norm_request(want.bn1)]);
            lemma_step_ok(*load, s_all, done, seq![norm_request(want.bn1)]);
            done = done + seq![norm_request(want.bn1)];
        }
        let conv2 = match conv2d(load, child_path(path, "conv2"), out_planes, out_planes, 3, 1, stride) {
            Ok(c) => c,
            Err(err) => {
                proof {
                    lemma_refused(*load, conv_request(want.conv2), want.requests(), err);
                    lemma_fails_one(*load, conv_request(want.conv2), err);
                    assert(s_all.take((done.len() + seq![conv_request(want.conv2)].len()) as int) =~= done + seq![conv_request(want.conv2)]);
                    lemma_step_fail(*load, s_all, done, seq![conv_request(want.conv2)], err);
                }
                return Err(err);
            },
        };
        proof {
            lemma_fitted_one(*load, conv_request(want.conv2));
            assert(s_all.take((done.len() + seq![conv_request(want.conv2)].len()) as int) =~= done + seq![conv_request(want.conv2)]);
            lemma_step_ok(*load, s_all, done, seq![conv_request(want.conv2)]);
            done = done + seq![conv_request(want.conv2)];
        }
        let bn2 = match load_norm(load, child_path(path, "bn2"), out_planes) {
            Ok(n) => n,
            Err(err) => {
                proof {
                    lemma_refused(*load, norm_request(want.bn2), want.requests(), err);
                    lemma_fails_one(*load, norm_request(want.bn2), err);
                    assert(s_all.take((done.len() + seq![norm_request(want.bn2)].len()) as int) =~= done + seq![norm_request(want.bn2)]);
                    lemma_step_fail(*load, s_all, done, seq![norm_request(want.bn2)], err);
                }
                return Err(err);
            },
        };
        proof {
            lemma_fitted_one(*load, norm_request(want.bn2));
            assert(s_all.take((done.len() + seq![norm_request(want.bn2)].len()) as int) =~= done + seq![norm_request(want.bn2)]);
            lemma_step_ok(*load, s_all, done, seq![norm_request(want.bn2)]);
            done = done + seq![norm_request(want.bn2)];
        }
        let conv3 = match conv2d(load, child_path(path, "conv3"), out_planes, e_dim, 1, 0, 1) {
            Ok(c) => c,
            Err(err) => {
                proof {
                    lemma_refused(*load, conv_request(want.conv3), want.requests(), err);
                    lemma_fails_one(*load, conv_request(want.conv3), err);
                    assert(s_all.take((done.len() + seq![conv_request(want.conv3)].len()) as int) =~= done + seq![conv_request(want.conv3)]);
                    lemma_step_fail(*load, s_all, done, seq![conv_request(want.conv3)], err);
                }
                return Err(err);
            },
        };
        proof {
            lemma_fitted_one(*load, conv_request(want.conv3));
            assert(s_all.take((done.len() + seq![conv_request(want.conv3)].len()) as int) =~= done + seq![conv_request(want.conv3)]);
            lemma_step_ok(*load, s_all, done, seq![conv_request(want.conv3)]);
            done = done + seq![conv_request(want.conv3)];
        }
        let bn3 = match load_norm(load, child_path(path, "bn3"), e_dim) {
            Ok(n) => n,
            Err(err) => {
                proof {
                    lemma_refused(*load, norm_request(want.bn3), want.requests(), err);
                    lemma_fails_one(*load, norm_request(want.bn3), err);
                    assert(s_all.take((done.len() + seq![norm_request(want.bn3)].len()) as int) =~= done + seq![norm_request(want.bn3)]);
                    lemma_step_fail(*load, s_all, done, seq![norm_request(want.bn3)], err);
                }
                return Err(err);
            },
        };
        proof {
            lemma_fitted_one(*load, norm_request(want.bn3));
            assert(s_all.take((done.len() + seq![norm_request(want.bn3)].len()) as int) =~= done + seq![norm_request(want.bn3)]);
            lemma_step_ok(*load, s_all, done, seq![norm_request(want.bn3)]);
            done = done + seq![norm_request(want.bn3)];
        }
        let downsample = match Downsample::new(load, &child_path(path, "downsample"), in_planes, e_dim, stride) {
            Ok(d) => d,
            Err(err) => {
                proof {
                    lemma_explained_subset(*load, want.downsample.requests(), want.requests(), err);
                    assert(s_all.take((done.len() + want.downsample.request_seq().len()) as int) =~= done + want.downsample.request_seq());
                    lemma_step_fail(*load, s_all, done, want.downsample.request_seq(), err);
                }
                return Err(err);
            },
        };
        proof {
            assert(s_all.take((done.len() + want.downsample.request_seq().len()) as int) =~= done + want.downsample.request_seq());
            lemma_step_ok(*load, s_all, done, want.downsample.request_seq());
            done = done + want.downsample.request_seq();
        }
        proof {
            assert(done =~= s_all);
        }
        Ok(BottleneckBlock { conv1, bn1, conv2, bn2, conv3, bn3, downsample })
    }

    /// `relu(downsample(x) + bn3(conv3(relu(bn2(conv2(relu(bn1(conv1(x)))))))))`.
    pub fn forward(&self, xs: &Activation) -> (r: Result<Activation, NetError>)
        requires
            self@.safe(xs@),
        ensures
            r matches Ok(y) ==> self@.accepts(xs@) && y@ == self@.out_dims(xs@) && y.expr() == self@.expr(xs.expr()),
            r matches Err(e) ==> e is Candle,
    {
        let ys = lift(conv_forward(&self.conv1, xs))?;
        let ys = lift(norm_forward(&self.bn1, &ys))?;
        let ys = lift(relu(&ys))?;
        let ys = lift(conv_forward(&self.conv2, &ys))?;
        let ys = lift(norm_forward(&self.bn2, &ys))?;
        let ys = lift(relu(&ys))?;
        let ys = lift(conv_forward(&self.conv3, &ys))?;
        let ys = lift(norm_forward(&self.bn3, &ys))?;
        let skip = self.downsample.forward(xs)?;
        let sum = lift(add_tensors(&skip, &ys))?;
        lift(relu(&sum))
    }
}

// ---------------------------------------------------------------------------
// Checking an input before a forward pass

/// Whether running the convolution on inputs of dimensions `d` does not panic.
fn conv_safe_on(c: &ConvLayer, d: &Vec<usize>) -> (b: bool)
    ensures
        b == conv_safe(c@, d@),
{
    let k = c.ksize();
    let p = c.padding();
    if c.stride() == 0 || k == 0 {
        false
    } else if d.len() == 4 && d[1] == c.in_planes() {
        (d[2] as u128) + 2 * (p as u128) >= k as u128 && (d[3] as u128) + 2 * (p as u128) >= k as u128
    } else {
        true
    }
}

/// Whether the convolution accepts inputs of dimensions `d`.
fn conv_accepts_on(c: &ConvLayer, d: &Vec<usize>) -> (b: bool)
    ensures
        b == conv_accepts(c@, d@),
{
    d.len() == 4 && d[1] == c.in_planes()
}

/// The dimensions the convolution produces from inputs of dimensions `d`.
fn conv_out_on(c: &ConvLayer, d: &Vec<usize>) -> (r: Vec<usize>)
    requires
        conv_accepts(c@, d@),
        conv_safe(c@, d@),
    ensures
        r@ == conv_out(c@, d@),
{
    let k = c.ksize() as u128;
    let p = c.padding() as u128;
    let s = c.stride() as u128;
    let h = (d[2] as u128 + 2 * p - k) / s + 1;
    let w = (d[3] as u128 + 2 * p - k) / s + 1;
    let r = vec![d[0], c.out_planes(), h as usize, w as usize];
    assert(r@ =~= conv_out(c@, d@));
    r
}

impl Downsample {
    /// Whether the forward pass does not panic on inputs of dimensions `d`.
    pub fn can_run(&self, d: &Vec<usize>) -> (b: bool)
        ensures
            b == self@.safe(d@),
    {
        if self.stride != 1 || self.in_planes != self.out_planes {
            conv_safe_on(&self.conv2d, d)
        } else {
            true
        }
    }

    /// The dimensions a forward pass on inputs of dimensions `d` produces when
    /// it succeeds, `None` when it cannot succeed.
    fn step(&self, d: &Vec<usize>) -> (r: Option<Vec<usize>>)
        requires
            self@.safe(d@),
        ensures
            r is Some <==> self@.accepts(d@),
            r matches Some(e) ==> e@ == self@.out_dims(d@),
    {
        if self.stride != 1 || self.in_planes != self.out_planes {
            if conv_accepts_on(&self.conv2d, d) && self.conv2d.out_planes() == self.bn2.num_features() {
                Some(conv_out_on(&self.conv2d, d))
            } else {
                None
            }
        } else {
            Some(d.clone())
        }
    }
}

impl BasicBlock {
    /// Whether the forward pass does not panic on inputs of dimensions `d`.
    pub fn can_run(&self, d: &Vec<usize>) -> (b: bool)
        ensures
            b == self@.safe(d@),
    {
        if !conv_safe_on(&self.conv1, d) {
            false
        } else if conv_accepts_on(&self.conv1, d) {
            let e = conv_out_on(&self.conv1, d);
            let skip_ok = match &self.downsample {
                Some(ds) => ds.can_run(d),
                None => true,
            };
            conv_safe_on(&self.conv2, &e) && skip_ok
        } else {
            true
        }
    }

    /// The dimensions a forward pass on inputs of dimensions `d` produces when
    /// it succeeds, `None` when it cannot succeed.
    pub fn step(&self, d: &Vec<usize>) -> (r: Option<Vec<usize>>)
        requires
            self@.safe(d@),
        ensures
            r is Some <==> self@.accepts(d@),
            r matches Some(e) ==> e@ == self@.out_dims(d@),
    {
        if !conv_accepts_on(&self.conv1, d) {
            return None;
        }
        let c1 = self.conv1.out_planes();
        if c1 != self.bn1.num_features() || c1 != self.conv2.in_planes()
            || self.conv2.out_planes() != self.bn2.num_features() {
            return None;
        }
        let e = conv_out_on(&self.conv1, d);
        let main = conv_out_on(&self.conv2, &e);
        let skip = match &self.downsample {
            Some(ds) => ds.step(d),
            None => Some(d.clone()),
        };
        match skip {
            Some(k) => {
                if dims_are(&k, main.as_slice()) {
                    Some(main)
                } else {
                    None
                }
            },
            None => None,
        }
    }
}

impl BottleneckBlock {
    /// Whether the forward pass does not panic on inputs of dimensions `d`.
    pub fn can_run(&self, d: &Vec<usize>) -> (b: bool)
        ensures
            b == self@.safe(d@),
    {
        if !conv_safe_on(&self.conv1, d) {
            return false;
        }
        if !conv_accepts_on(&self.conv1, d) {
            return true;
        }
        let e1 = conv_out_on(&self.conv1, d);
        if !conv_safe_on(&self.conv2, &e1) {
            return false;
        }
        if !conv_accepts_on(&self.conv2, &e1) {
            return true;
        }
        let e2 = conv_out_on(&self.conv2, &e1);
        if !conv_safe_on(&self.conv3, &e2) {
            return false;
        }
        if !conv_accepts_on(&self.conv3, &e2) {
            return true;
        }
        self.downsample.can_run(d)
    }

    /// The dimensions a forward pass on inputs of dimensions `d` produces when
    /// it succeeds, `None` when it cannot succeed.
    pub fn step(&self, d: &Vec<usize>) -> (r: Option<Vec<usize>>)
        requires
            self@.safe(d@),
        ensures
            r is Some <==> self@.accepts(d@),
            r matches Some(e) ==> e@ == self@.out_dims(d@),
    {
        if !conv_accepts_on(&self.conv1, d) {
            return None;
        }
        let c1 = self.conv1.out_planes();
        let c2 = self.conv2.out_planes();
        if c1 != self.bn1.num_features() || c1 != self.conv2.in_planes()
            || c2 != self.bn2.num_features() || c2 != self.conv3.in_planes()
            || self.conv3.out_planes() != self.bn3.num_features() {
            return None;
        }
        let e1 = conv_out_on(&self.conv1, d);
        let e2 = conv_out_on(&self.conv2, &e1);
        let main = conv_out_on(&self.conv3, &e2);
        match self.downsample.step(d) {
            Some(k) => {
                if dims_are(&k, main.as_slice()) {
                    Some(main)
                } else {
                    None
                }
            },
            None => None,
        }
    }
}

} // verus!
