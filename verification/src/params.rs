//! Layers with weights. The weights come from a loader supplied by the caller:
//! for each layer the network asks for a [`ParamRequest`] (where the weights
//! live and what they must look like) and the loader answers with a
//! [`Loaded`] candle layer. The answer is checked against the request before
//! it is used.
use vstd::prelude::*;
use crate::error::NetError;
use crate::tensor::{Activation, CandleError, Expr, conv_len};
use candle_nn::{Module, ModuleT};

verus! {

#[verifier::external_type_specification]
#[verifier::external_body]
pub struct ExConv2d(candle_nn::Conv2d);

#[verifier::external_type_specification]
#[verifier::external_body]
pub struct ExBatchNorm(candle_nn::BatchNorm);

#[verifier::external_type_specification]
#[verifier::external_body]
pub struct ExLinear(candle_nn::Linear);

/// What kind of layer is wanted, with its shape.
pub enum ParamKind {
    /// A 2d convolution without bias, weight of shape
    /// `(out_channels, in_channels, kernel_size, kernel_size)`.
    Conv2d { in_channels: usize, out_channels: usize, kernel_size: usize, padding: usize, stride: usize },
    /// A batch normalisation over `num_features` channels.
    BatchNorm { num_features: usize },
    /// A linear layer with bias, weight of shape `(out_dim, in_dim)`.
    Linear { in_dim: usize, out_dim: usize },
}

/// A request for the weights of one layer: the path of segments under which
/// they are stored, and the layer wanted.
pub struct ParamRequest {
    pub path: Vec<String>,
    pub kind: ParamKind,
}

/// A layer built by the loader, handed over with the parts read back from it
/// (see [`ConvAnswer::new`], [`NormAnswer::new`], [`LinearAnswer::new`]).
pub enum Loaded {
    Conv2d(ConvAnswer),
    BatchNorm(NormAnswer),
    Linear(LinearAnswer),
}

/// The description of a convolution layer.
pub struct ConvSpec {
    pub path: Seq<Seq<char>>,
    pub in_planes: usize,
    pub out_planes: usize,
    pub ksize: usize,
    pub padding: usize,
    pub stride: usize,
}

/// The description of a batch normalisation layer.
pub struct NormSpec {
    pub path: Seq<Seq<char>>,
    pub num_features: usize,
}

/// The description of a linear layer.
pub struct LinearSpec {
    pub path: Seq<Seq<char>>,
    pub in_dim: usize,
    pub out_dim: usize,
}

/// What is read back from a loaded candle `Conv2d`: the dimensions of its
/// weight, its padding, stride, dilation and group count, and whether it has a bias.
#[derive(Debug, Clone)]
pub struct ConvRead {
    pub weight_dims: Vec<usize>,
    pub padding: usize,
    pub stride: usize,
    pub dilation: usize,
    pub groups: usize,
    pub has_bias: bool,
}

/// The parts of a convolution as plain values.
pub struct ConvParts {
    pub weight_dims: Seq<usize>,
    pub padding: usize,
    pub stride: usize,
    pub dilation: usize,
    pub groups: usize,
    pub has_bias: bool,
}

impl View for ConvRead {
    type V = ConvParts;

    open spec fn view(&self) -> ConvParts {
        ConvParts {
            weight_dims: self.weight_dims@,
            padding: self.padding,
            stride: self.stride,
            dilation: self.dilation,
            groups: self.groups,
            has_bias: self.has_bias,
        }
    }
}

/// What is read back from a loaded candle `BatchNorm`: the dimensions of the
/// running mean and variance, and of the affine weight and bias when there are.
#[derive(Debug, Clone)]
pub struct NormRead {
    pub mean_dims: Vec<usize>,
    pub var_dims: Vec<usize>,
    pub affine_dims: Option<(Vec<usize>, Vec<usize>)>,
}

/// The parts of a batch normalisation as plain values.
pub struct NormParts {
    pub mean_dims: Seq<usize>,
    pub var_dims: Seq<usize>,
    pub affine_dims: Option<(Seq<usize>, Seq<usize>)>,
}

impl View for NormRead {
    type V = NormParts;

    open spec fn view(&self) -> NormParts {
        NormParts {
            mean_dims: self.mean_dims@,
            var_dims: self.var_dims@,
            affine_dims: match self.affine_dims {
                Some((w, b)) => Some((w@, b@)),
                None => None,
            },
        }
    }
}

/// What is read back from a loaded candle `Linear`: the dimensions of its
/// weight, and of its bias when there is one.
#[derive(Debug, Clone)]
pub struct LinearRead {
    pub weight_dims: Vec<usize>,
    pub bias_dims: Option<Vec<usize>>,
}

/// The parts of a linear layer as plain values.
pub struct LinearParts {
    pub weight_dims: Seq<usize>,
    pub bias_dims: Option<Seq<usize>>,
}

impl View for LinearRead {
    type V = LinearParts;

    open spec fn view(&self) -> LinearParts {
        LinearParts {
            weight_dims: self.weight_dims@,
            bias_dims: match self.bias_dims {
                Some(b) => Some(b@),
                None => None,
            },
        }
    }
}

/// The parts a convolution must have to fit its description: a weight of
/// shape `(out_planes, in_planes, ksize, ksize)`, the described padding and
/// stride, dilation 1, one group and no bias.
pub open spec fn conv_fits(parts: ConvParts, c: ConvSpec) -> bool {
    &&& parts.weight_dims == seq![c.out_planes, c.in_planes, c.ksize, c.ksize]
    &&& parts.padding == c.padding
    &&& parts.stride == c.stride
    &&& parts.dilation == 1
    &&& parts.groups == 1
    &&& !parts.has_bias
}

/// The parts a batch normalisation must have to fit its description: running
/// mean and variance, affine weight and bias, all of shape `(num_features,)`.
pub open spec fn norm_fits(parts: NormParts, n: NormSpec) -> bool {
    &&& parts.mean_dims == seq![n.num_features]
    &&& parts.var_dims == seq![n.num_features]
    &&& parts.affine_dims == Some((seq![n.num_features], seq![n.num_features]))
}

/// The parts a linear layer must have to fit its description: a weight of
/// shape `(out_dim, in_dim)` and a bias of shape `(out_dim,)`.
pub open spec fn linear_fits(parts: LinearParts, l: LinearSpec) -> bool {
    &&& parts.weight_dims == seq![l.out_dim, l.in_dim]
    &&& parts.bias_dims == Some(seq![l.out_dim])
}

/// A candle convolution with the parts read back from it once.
#[derive(Debug)]
pub struct ConvAnswer {
    inner: candle_nn::Conv2d,
    read: ConvRead,
}

/// A candle batch normalisation with the parts read back from it once.
#[derive(Debug)]
pub struct NormAnswer {
    inner: candle_nn::BatchNorm,
    read: NormRead,
}

/// A candle linear layer with the parts read back from it once.
#[derive(Debug)]
pub struct LinearAnswer {
    inner: candle_nn::Linear,
    read: LinearRead,
}

impl ConvAnswer {
    /// The candle layer.
    pub closed spec fn layer(&self) -> candle_nn::Conv2d {
        self.inner
    }

    /// Its parts, as read back.
    pub closed spec fn parts(&self) -> ConvParts {
        self.read@
    }

    /// Wraps a candle convolution, reading its parts back.
    pub fn new(inner: candle_nn::Conv2d) -> (a: ConvAnswer)
        ensures
            a.layer() == inner,
    {
        let read = read_conv(&inner);
        ConvAnswer { inner, read }
    }
}

impl NormAnswer {
    /// The candle layer.
    pub closed spec fn layer(&self) -> candle_nn::BatchNorm {
        self.inner
    }

    /// Its parts, as read back.
    pub closed spec fn parts(&self) -> NormParts {
        self.read@
    }

    /// Wraps a candle batch normalisation, reading its parts back.
    pub fn new(inner: candle_nn::BatchNorm) -> (a: NormAnswer)
        ensures
            a.layer() == inner,
    {
        let read = read_norm(&inner);
        NormAnswer { inner, read }
    }
}

impl LinearAnswer {
    /// The candle layer.
    pub closed spec fn layer(&self) -> candle_nn::Linear {
        self.inner
    }

    /// Its parts, as read back.
    pub closed spec fn parts(&self) -> LinearParts {
        self.read@
    }

    /// Wraps a candle linear layer, reading its parts back.
    pub fn new(inner: candle_nn::Linear) -> (a: LinearAnswer)
        ensures
            a.layer() == inner,
    {
        let read = read_linear(&inner);
        LinearAnswer { inner, read }
    }
}

/// The loader's answer fits the request: a layer of the kind requested whose
/// parts fit the requested shape.
pub open spec fn answer_fits(answer: Loaded, req: LayerRequest) -> bool {
    match req.kind {
        ParamKind::Conv2d { in_channels, out_channels, kernel_size, padding, stride } =>
            answer matches Loaded::Conv2d(a) && conv_fits(a.parts(), ConvSpec {
                path: req.path,
                in_planes: in_channels,
                out_planes: out_channels,
                ksize: kernel_size,
                padding,
                stride,
            }),
        ParamKind::BatchNorm { num_features } =>
            answer matches Loaded::BatchNorm(a) && norm_fits(a.parts(), NormSpec { path: req.path, num_features }),
        ParamKind::Linear { in_dim, out_dim } =>
            answer matches Loaded::Linear(a) && linear_fits(a.parts(), LinearSpec { path: req.path, in_dim, out_dim }),
    }
}

/// A loaded convolution with its description; its parts fit the description.
#[derive(Debug)]
pub struct ConvLayer {
    path: Vec<String>,
    inner: candle_nn::Conv2d,
    read: ConvRead,
    in_planes: usize,
    out_planes: usize,
    ksize: usize,
    padding: usize,
    stride: usize,
}

/// A loaded batch normalisation (applied in evaluation mode) with its
/// description; its parts fit the description.
#[derive(Debug)]
pub struct NormLayer {
    path: Vec<String>,
    inner: candle_nn::BatchNorm,
    read: NormRead,
    num_features: usize,
}

/// A loaded linear layer with its description; its parts fit the description.
#[derive(Debug)]
pub struct LinearLayer {
    path: Vec<String>,
    inner: candle_nn::Linear,
    read: LinearRead,
    in_dim: usize,
    out_dim: usize,
}

impl View for ConvLayer {
    type V = ConvSpec;

    closed spec fn view(&self) -> ConvSpec {
        ConvSpec {
            path: self.path.deep_view(),
            in_planes: self.in_planes,
            out_planes: self.out_planes,
            ksize: self.ksize,
            padding: self.padding,
            stride: self.stride,
        }
    }
}

impl View for NormLayer {
    type V = NormSpec;

    closed spec fn view(&self) -> NormSpec {
        NormSpec { path: self.path.deep_view(), num_features: self.num_features }
    }
}

impl View for LinearLayer {
    type V = LinearSpec;

    closed spec fn view(&self) -> LinearSpec {
        LinearSpec { path: self.path.deep_view(), in_dim: self.in_dim, out_dim: self.out_dim }
    }
}

/// A request in mathematical terms: the path of the layer's weights and the
/// layer wanted.
pub struct LayerRequest {
    pub path: Seq<Seq<char>>,
    pub kind: ParamKind,
}

/// The loader may reply `reply` to the request `req`.
pub open spec fn replied<F: Fn(&ParamRequest) -> Result<Loaded, CandleError>>(load: F, req: LayerRequest, reply: Result<Loaded, CandleError>) -> bool {
    exists|q: ParamRequest|
        q.path.deep_view() == req.path && q.kind == req.kind
            && #[trigger] load.ensures((&q,), reply)
}

/// The loader answered the request `req` with the layer `answer`.
pub open spec fn answered<F: Fn(&ParamRequest) -> Result<Loaded, CandleError>>(load: F, req: LayerRequest, answer: Loaded) -> bool {
    replied(load, req, Ok::<Loaded, CandleError>(answer))
}

/// A reply of the loader to the request `req` that leads to the error `e`:
/// the backend error itself, or a layer that does not fit the request.
pub open spec fn reply_gives(reply: Result<Loaded, CandleError>, req: LayerRequest, e: NetError) -> bool {
    match e {
        NetError::Candle(c) => reply == Err::<Loaded, CandleError>(c),
        NetError::LayerMismatch => reply matches Ok(a) && !answer_fits(a, req),
    }
}

/// The loader's reply to the request `req` accounts for the error `e`: a
/// backend error is the one the loader returned, and a mismatch follows a
/// layer of the loader that does not fit the request.
pub open spec fn reply_explains<F: Fn(&ParamRequest) -> Result<Loaded, CandleError>>(load: F, req: LayerRequest, e: NetError) -> bool {
    exists|reply: Result<Loaded, CandleError>| #[trigger] replied(load, req, reply) && reply_gives(reply, req, e)
}

/// Every reply the loader may give to any of the requests `reqs` is a layer
/// that fits the request.
pub open spec fn answers_fit<F: Fn(&ParamRequest) -> Result<Loaded, CandleError>>(load: F, reqs: Set<LayerRequest>) -> bool {
    forall|req: LayerRequest, reply: Result<Loaded, CandleError>|
        reqs.contains(req) && #[trigger] replied(load, req, reply) ==> (reply matches Ok(a) && answer_fits(a, req))
}

/// The error `e` is accounted for by the loader's reply to one of the requests `reqs`.
pub open spec fn explained<F: Fn(&ParamRequest) -> Result<Loaded, CandleError>>(load: F, reqs: Set<LayerRequest>, e: NetError) -> bool {
    exists|req: LayerRequest| reqs.contains(req) && #[trigger] reply_explains(load, req, e)
}

/// An error accounted for by one set of requests is accounted for by every
/// larger set.
pub proof fn lemma_explained_subset<F: Fn(&ParamRequest) -> Result<Loaded, CandleError>>(load: F, reqs: Set<LayerRequest>, more: Set<LayerRequest>, e: NetError)
    requires
        explained(load, reqs, e),
        reqs.subset_of(more),
    ensures
        explained(load, more, e),
        !answers_fit(load, more),
{
    let req = choose|req: LayerRequest| reqs.contains(req) && #[trigger] reply_explains(load, req, e);
    lemma_refused(load, req, more, e);
}

/// An error accounted for by the reply to one of the requests `reqs` is
/// accounted for by the set; and then not every reply to them fits.
pub proof fn lemma_refused<F: Fn(&ParamRequest) -> Result<Loaded, CandleError>>(load: F, req: LayerRequest, reqs: Set<LayerRequest>, e: NetError)
    requires
        reply_explains(load, req, e),
        reqs.contains(req),
    ensures
        explained(load, reqs, e),
        !answers_fit(load, reqs),
{
    let reply = choose|reply: Result<Loaded, CandleError>| #[trigger] replied(load, req, reply) && reply_gives(reply, req, e);
    assert(replied(load, req, reply));
}

/// The loader answered the request `req` with a layer that fits it.
pub open spec fn fitted<F: Fn(&ParamRequest) -> Result<Loaded, CandleError>>(load: F, req: LayerRequest) -> bool {
    exists|reply: Result<Loaded, CandleError>|
        #[trigger] replied(load, req, reply) && (reply matches Ok(a) && answer_fits(a, req))
}

/// Every request of `reqs` was answered with a layer that fits it.
pub open spec fn all_fitted<F: Fn(&ParamRequest) -> Result<Loaded, CandleError>>(load: F, reqs: Seq<LayerRequest>) -> bool {
    forall|j: int| 0 <= j < reqs.len() ==> #[trigger] fitted(load, reqs[j])
}

/// Asking for the requests `reqs` in order stopped with the error `e` at the
/// first request whose reply did not give a fitting layer: every request
/// before it was answered with one, and its reply accounts for `e`.
pub open spec fn failed_in_order<F: Fn(&ParamRequest) -> Result<Loaded, CandleError>>(load: F, reqs: Seq<LayerRequest>, e: NetError) -> bool {
    exists|k: int| 0 <= k < reqs.len() && all_fitted(load, reqs.take(k)) && #[trigger] reply_explains(load, reqs[k], e)
}

/// A single request whose reply accounts for `e` failed in order.
pub proof fn lemma_fails_one<F: Fn(&ParamRequest) -> Result<Loaded, CandleError>>(load: F, req: LayerRequest, e: NetError)
    requires
        reply_explains(load, req, e),
    ensures
        failed_in_order(load, seq![req], e),
{
    assert(seq![req][0] == req);
    assert(all_fitted(load, seq![req].take(0)));
}

/// A single request answered with a fitting layer.
pub proof fn lemma_fitted_one<F: Fn(&ParamRequest) -> Result<Loaded, CandleError>>(load: F, req: LayerRequest)
    requires
        fitted(load, req),
    ensures
        all_fitted(load, seq![req]),
{
    assert forall|j: int| 0 <= j < seq![req].len() implies #[trigger] fitted(load, seq![req][j]) by {
        assert(seq![req][j] == req);
    }
}

/// Requests answered with fitting layers, then more such requests.
pub proof fn lemma_fitted_concat<F: Fn(&ParamRequest) -> Result<Loaded, CandleError>>(load: F, a: Seq<LayerRequest>, b: Seq<LayerRequest>)
    requires
        all_fitted(load, a),
        all_fitted(load, b),
    ensures
        all_fitted(load, a + b),
{
    assert forall|j: int| 0 <= j < (a + b).len() implies #[trigger] fitted(load, (a + b)[j]) by {
        if j < a.len() {
            assert((a + b)[j] == a[j]);
        } else {
            assert((a + b)[j] == b[j - a.len()]);
        }
    }
}

/// Requests answered with fitting layers, then requests that failed in order:
/// together they failed in order.
pub proof fn lemma_fails_after<F: Fn(&ParamRequest) -> Result<Loaded, CandleError>>(load: F, done: Seq<LayerRequest>, rest: Seq<LayerRequest>, e: NetError)
    requires
        all_fitted(load, done),
        failed_in_order(load, rest, e),
    ensures
        failed_in_order(load, done + rest, e),
{
    let k0 = choose|k: int| 0 <= k < rest.len() && all_fitted(load, rest.take(k)) && #[trigger] reply_explains(load, rest[k], e);
    let k = done.len() + k0;
    let s = done + rest;
    lemma_fitted_concat(load, done, rest.take(k0));
    assert(s.take(k) =~= done + rest.take(k0));
    assert(s[k] == rest[k0]);
}

/// Requests that failed in order are still the first failure when more
/// requests follow them (those are never reached).
pub proof fn lemma_fails_extend<F: Fn(&ParamRequest) -> Result<Loaded, CandleError>>(load: F, p: Seq<LayerRequest>, s: Seq<LayerRequest>, e: NetError)
    requires
        failed_in_order(load, p, e),
        p.len() <= s.len(),
        s.take(p.len() as int) == p,
    ensures
        failed_in_order(load, s, e),
{
    let k = choose|k: int| 0 <= k < p.len() && all_fitted(load, p.take(k)) && #[trigger] reply_explains(load, p[k], e);
    assert(s.take(k) =~= p.take(k));
    assert(s[k] == s.take(p.len() as int)[k]);
}

/// The requests `done` were answered with fitting layers and so were the
/// next ones, `m`: together they were.
pub proof fn lemma_step_ok<F: Fn(&ParamRequest) -> Result<Loaded, CandleError>>(load: F, s: Seq<LayerRequest>, done: Seq<LayerRequest>, m: Seq<LayerRequest>)
    requires
        all_fitted(load, done),
        all_fitted(load, m),
        s.take((done.len() + m.len()) as int) == done + m,
    ensures
        all_fitted(load, done + m),
        s.take((done + m).len() as int) == done + m,
{
    lemma_fitted_concat(load, done, m);
}

/// The requests `done` were answered with fitting layers and the next ones,
/// `m`, failed in order: the whole sequence `s` failed in order there.
pub proof fn lemma_step_fail<F: Fn(&ParamRequest) -> Result<Loaded, CandleError>>(load: F, s: Seq<LayerRequest>, done: Seq<LayerRequest>, m: Seq<LayerRequest>, e: NetError)
    requires
        all_fitted(load, done),
        failed_in_order(load, m, e),
        done.len() + m.len() <= s.len(),
        s.take((done.len() + m.len()) as int) == done + m,
    ensures
        failed_in_order(load, s, e),
{
    lemma_fails_after(load, done, m, e);
    lemma_fails_extend(load, done + m, s, e);
}

/// The request for a convolution.
pub open spec fn conv_request(c: ConvSpec) -> LayerRequest {
    LayerRequest {
        path: c.path,
        kind: ParamKind::Conv2d { in_channels: c.in_planes, out_channels: c.out_planes, kernel_size: c.ksize, padding: c.padding, stride: c.stride },
    }
}

/// The request for a batch normalisation.
pub open spec fn norm_request(n: NormSpec) -> LayerRequest {
    LayerRequest { path: n.path, kind: ParamKind::BatchNorm { num_features: n.num_features } }
}

/// The request for a linear layer.
pub open spec fn linear_request(l: LinearSpec) -> LayerRequest {
    LayerRequest { path: l.path, kind: ParamKind::Linear { in_dim: l.in_dim, out_dim: l.out_dim } }
}

impl ConvLayer {
    /// The number of input channels.
    pub fn in_planes(&self) -> (n: usize)
        ensures
            n == self@.in_planes,
    {
        self.in_planes
    }

    /// The number of output channels.
    pub fn out_planes(&self) -> (n: usize)
        ensures
            n == self@.out_planes,
    {
        self.out_planes
    }

    /// The kernel size.
    pub fn ksize(&self) -> (n: usize)
        ensures
            n == self@.ksize,
    {
        self.ksize
    }

    /// The padding.
    pub fn padding(&self) -> (n: usize)
        ensures
            n == self@.padding,
    {
        self.padding
    }

    /// The stride.
    pub fn stride(&self) -> (n: usize)
        ensures
            n == self@.stride,
    {
        self.stride
    }

    /// The candle layer held.
    pub closed spec fn layer(&self) -> candle_nn::Conv2d {
        self.inner
    }

    /// The parts read back from the candle layer.
    pub closed spec fn parts(&self) -> ConvParts {
        self.read@
    }

    #[verifier::type_invariant]
    spec fn parts_fit(self) -> bool {
        conv_fits(self.read@, self@)
    }


    /// The candle layer held is the loader's answer to the request for this layer.
    pub open spec fn loaded_by<F: Fn(&ParamRequest) -> Result<Loaded, CandleError>>(&self, load: F) -> bool {
        exists|a: ConvAnswer| a.layer() == self.layer() && a.parts() == self.parts()
            && #[trigger] answered(load, conv_request(self@), Loaded::Conv2d(a))
    }
}

impl NormLayer {
    /// The number of channels normalised.
    pub fn num_features(&self) -> (n: usize)
        ensures
            n == self@.num_features,
    {
        self.num_features
    }

    /// The candle layer held.
    pub closed spec fn layer(&self) -> candle_nn::BatchNorm {
        self.inner
    }

    /// The parts read back from the candle layer.
    pub closed spec fn parts(&self) -> NormParts {
        self.read@
    }

    #[verifier::type_invariant]
    spec fn parts_fit(self) -> bool {
        norm_fits(self.read@, self@)
    }


    /// The candle layer held is the loader's answer to the request for this layer.
    pub open spec fn loaded_by<F: Fn(&ParamRequest) -> Result<Loaded, CandleError>>(&self, load: F) -> bool {
        exists|a: NormAnswer| a.layer() == self.layer() && a.parts() == self.parts()
            && #[trigger] answered(load, norm_request(self@), Loaded::BatchNorm(a))
    }
}

impl LinearLayer {
    /// The candle layer held.
    pub closed spec fn layer(&self) -> candle_nn::Linear {
        self.inner
    }

    /// The parts read back from the candle layer.
    pub closed spec fn parts(&self) -> LinearParts {
        self.read@
    }

    #[verifier::type_invariant]
    spec fn parts_fit(self) -> bool {
        linear_fits(self.read@, self@)
    }


    /// The candle layer held is the loader's answer to the request for this layer.
    pub open spec fn loaded_by<F: Fn(&ParamRequest) -> Result<Loaded, CandleError>>(&self, load: F) -> bool {
        exists|a: LinearAnswer| a.layer() == self.layer() && a.parts() == self.parts()
            && #[trigger] answered(load, linear_request(self@), Loaded::Linear(a))
    }
}

/// What building a convolution described by `want` returns after the
/// loader's reply `reply`: the loader's error; the very layer answered, when
/// it fits the request; a mismatch otherwise.
pub open spec fn conv_outcome(reply: Result<Loaded, CandleError>, want: ConvSpec, r: Result<ConvLayer, NetError>) -> bool {
    match reply {
        Err(c) => r matches Err(e) && e == NetError::Candle(c),
        Ok(answer) => if answer_fits(answer, conv_request(want)) {
            r matches Ok(l) && answer matches Loaded::Conv2d(a) && l.layer() == a.layer() && l.parts() == a.parts()
        } else {
            r matches Err(e) && e is LayerMismatch
        },
    }
}

/// What building a batch normalisation described by `want` returns after the
/// loader's reply `reply` (as for a convolution).
pub open spec fn norm_outcome(reply: Result<Loaded, CandleError>, want: NormSpec, r: Result<NormLayer, NetError>) -> bool {
    match reply {
        Err(c) => r matches Err(e) && e == NetError::Candle(c),
        Ok(answer) => if answer_fits(answer, norm_request(want)) {
            r matches Ok(l) && answer matches Loaded::BatchNorm(a) && l.layer() == a.layer() && l.parts() == a.parts()
        } else {
            r matches Err(e) && e is LayerMismatch
        },
    }
}

/// What building a linear layer described by `want` returns after the
/// loader's reply `reply` (as for a convolution).
pub open spec fn linear_outcome(reply: Result<Loaded, CandleError>, want: LinearSpec, r: Result<LinearLayer, NetError>) -> bool {
    match reply {
        Err(c) => r matches Err(e) && e == NetError::Candle(c),
        Ok(answer) => if answer_fits(answer, linear_request(want)) {
            r matches Ok(l) && answer matches Loaded::Linear(a) && l.layer() == a.layer() && l.parts() == a.parts()
        } else {
            r matches Err(e) && e is LayerMismatch
        },
    }
}

/// Reads back the parts of a loaded `Conv2d` (`weight().dims()`, the
/// `config()` fields `padding`, `stride`, `dilation`, `groups`, and whether
/// `bias()` is present). These are properties of an opaque candle value, so
/// nothing is stated of them; [`accept_conv`] checks them.
#[verifier::external_body]
fn read_conv(c: &candle_nn::Conv2d) -> ConvRead {
    let cfg = c.config();
    ConvRead {
        weight_dims: c.weight().dims().to_vec(),
        padding: cfg.padding,
        stride: cfg.stride,
        dilation: cfg.dilation,
        groups: cfg.groups,
        has_bias: c.bias().is_some(),
    }
}

/// Reads back the parts of a loaded `BatchNorm` (the dimensions of
/// `running_mean()`, `running_var()` and of the tensors of
/// `weight_and_bias()`). Nothing is stated of them; [`accept_norm`] checks them.
#[verifier::external_body]
fn read_norm(b: &candle_nn::BatchNorm) -> NormRead {
    let affine_dims = match b.weight_and_bias() {
        Some((w, bias)) => Some((w.dims().to_vec(), bias.dims().to_vec())),
        None => None,
    };
    NormRead { mean_dims: b.running_mean().dims().to_vec(), var_dims: b.running_var().dims().to_vec(), affine_dims }
}

/// Reads back the parts of a loaded `Linear` (the dimensions of `weight()` and
/// of `bias()` when present). Nothing is stated of them; [`accept_linear`]
/// checks them.
#[verifier::external_body]
fn read_linear(l: &candle_nn::Linear) -> LinearRead {
    let bias_dims = match l.bias() {
        Some(b) => Some(b.dims().to_vec()),
        None => None,
    };
    LinearRead { weight_dims: l.weight().dims().to_vec(), bias_dims }
}

/// Whether a vector holds exactly the given dimensions.
pub(crate) fn dims_are(d: &Vec<usize>, want: &[usize]) -> (b: bool)
    ensures
        b == (d@ == want@),
{
    if d.len() != want.len() {
        return false;
    }
    let mut i: usize = 0;
    while i < d.len()
        invariant
            d.len() == want.len(),
            i <= d.len(),
            forall|j: int| 0 <= j < i ==> d@[j] == want@[j],
        decreases d.len() - i,
    {
        if d[i] != want[i] {
            return false;
        }
        i = i + 1;
    }
    assert(d@ =~= want@);
    true
}

/// Accepts the loader's convolution `answer` as the layer described by `path`
/// and the shape arguments exactly when its parts fit that description;
/// otherwise a mismatch.
pub fn accept_conv(answer: ConvAnswer, path: Vec<String>, in_planes: usize, out_planes: usize, ksize: usize, padding: usize, stride: usize) -> (r: Result<ConvLayer, NetError>)
    ensures
        r is Ok <==> conv_fits(answer.parts(), ConvSpec { path: path.deep_view(), in_planes, out_planes, ksize, padding, stride }),
        r matches Ok(c) ==> {
            &&& c@ == (ConvSpec { path: path.deep_view(), in_planes, out_planes, ksize, padding, stride })
            &&& c.layer() == answer.layer()
            &&& c.parts() == answer.parts()
        },
        r matches Err(e) ==> e is LayerMismatch,
{
    let ConvAnswer { inner, read } = answer;
    proof {
        assert(seq![out_planes, in_planes, ksize, ksize] =~= [out_planes, in_planes, ksize, ksize]@);
    }
    if dims_are(&read.weight_dims, &[out_planes, in_planes, ksize, ksize]) && read.padding == padding
        && read.stride == stride && read.dilation == 1 && read.groups == 1 && !read.has_bias {
        Ok(ConvLayer { path, inner, read, in_planes, out_planes, ksize, padding, stride })
    } else {
        Err(NetError::LayerMismatch)
    }
}

/// Accepts the loader's batch normalisation `answer` as the layer over
/// `num_features` channels under `path` exactly when its parts fit; otherwise
/// a mismatch.
pub fn accept_norm(answer: NormAnswer, path: Vec<String>, num_features: usize) -> (r: Result<NormLayer, NetError>)
    ensures
        r is Ok <==> norm_fits(answer.parts(), NormSpec { path: path.deep_view(), num_features }),
        r matches Ok(n) ==> {
            &&& n@ == (NormSpec { path: path.deep_view(), num_features })
            &&& n.layer() == answer.layer()
            &&& n.parts() == answer.parts()
        },
        r matches Err(e) ==> e is LayerMismatch,
{
    let NormAnswer { inner, read } = answer;
    proof {
        assert(seq![num_features] =~= [num_features]@);
    }
    let affine_ok = match &read.affine_dims {
        Some((w, b)) => dims_are(w, &[num_features]) && dims_are(b, &[num_features]),
        None => false,
    };
    if dims_are(&read.mean_dims, &[num_features]) && dims_are(&read.var_dims, &[num_features]) && affine_ok {
        Ok(NormLayer { path, inner, read, num_features })
    } else {
        Err(NetError::LayerMismatch)
    }
}

/// Accepts the loader's linear `answer` as the layer from `in_dim` to
/// `out_dim` under `path` exactly when its parts fit; otherwise a mismatch.
pub fn accept_linear(answer: LinearAnswer, path: Vec<String>, in_dim: usize, out_dim: usize) -> (r: Result<LinearLayer, NetError>)
    ensures
        r is Ok <==> linear_fits(answer.parts(), LinearSpec { path: path.deep_view(), in_dim, out_dim }),
        r matches Ok(l) ==> {
            &&& l@ == (LinearSpec { path: path.deep_view(), in_dim, out_dim })
            &&& l.layer() == answer.layer()
            &&& l.parts() == answer.parts()
        },
        r matches Err(e) ==> e is LayerMismatch,
{
    let LinearAnswer { inner, read } = answer;
    proof {
        assert(seq![out_dim] =~= [out_dim]@);
        assert(seq![out_dim, in_dim] =~= [out_dim, in_dim]@);
    }
    let bias_ok = match &read.bias_dims {
        Some(b) => dims_are(b, &[out_dim]),
        None => false,
    };
    if dims_are(&read.weight_dims, &[out_dim, in_dim]) && bias_ok {
        Ok(LinearLayer { path, inner, read, in_dim, out_dim })
    } else {
        Err(NetError::LayerMismatch)
    }
}

/// Asks the loader for one layer and hands the request's path back.
fn request<F>(load: &F, path: Vec<String>, kind: ParamKind) -> (r: (Result<Loaded, CandleError>, Vec<String>))
    where F: Fn(&ParamRequest) -> Result<Loaded, CandleError>,
    requires
        forall|q: &ParamRequest| #[trigger] load.requires((q,)),
    ensures
        r.1.deep_view() == path.deep_view(),
        replied(*load, (LayerRequest { path: path.deep_view(), kind }), r.0),
{
    let req = ParamRequest { path, kind };
    let answer = load(&req);
    let ParamRequest { path, kind: _ } = req;
    (answer, path)
}

/// Builds a convolution layer: asks the loader for the weights under `path`
/// and accepts its answer by [`accept_conv`]: only a convolution whose weight
/// has exactly the requested shape, with the requested padding and stride,
/// dilation 1, one group and no bias. Otherwise the loader's error, or a
/// mismatch. It succeeds whenever every reply the loader may give fits.
pub fn load_conv<F>(load: &F, path: Vec<String>, in_planes: usize, out_planes: usize, ksize: usize, padding: usize, stride: usize) -> (r: Result<ConvLayer, NetError>)
    where F: Fn(&ParamRequest) -> Result<Loaded, CandleError>,
    requires
        forall|q: &ParamRequest| #[trigger] load.requires((q,)),
    ensures
        exists|reply: Result<Loaded, CandleError>| #[trigger] replied(*load, conv_request(ConvSpec {
            path: path.deep_view(),
            in_planes,
            out_planes,
            ksize,
            padding,
            stride,
        }), reply) && conv_outcome(reply, ConvSpec {
            path: path.deep_view(),
            in_planes,
            out_planes,
            ksize,
            padding,
            stride,
        }, r),
        r matches Ok(c) ==> c@ == (ConvSpec {
            path: path.deep_view(),
            in_planes,
            out_planes,
            ksize,
            padding,
            stride,
        }),
        r matches Ok(c) ==> c.loaded_by(*load) && conv_fits(c.parts(), c@),
        r is Ok ==> fitted(*load, conv_request(ConvSpec {
            path: path.deep_view(),
            in_planes,
            out_planes,
            ksize,
            padding,
            stride,
        })),
        r matches Err(e) ==> reply_explains(*load, conv_request(ConvSpec {
            path: path.deep_view(),
            in_planes,
            out_planes,
            ksize,
            padding,
            stride,
        }), e),
{
    let ghost want = ConvSpec { path: path.deep_view(), in_planes, out_planes, ksize, padding, stride };
    let kind = ParamKind::Conv2d { in_channels: in_planes, out_channels: out_planes, kernel_size: ksize, padding, stride };
    let (answer, path) = request(load, path, kind);
    match answer {
        Err(e) => Err(NetError::Candle(e)),
        Ok(Loaded::Conv2d(a)) => {
            let ghost ans = a;
            let r = accept_conv(a, path, in_planes, out_planes, ksize, padding, stride);
            assert(answered(*load, conv_request(want), Loaded::Conv2d(ans)));
            assert(answer_fits(Loaded::Conv2d(ans), conv_request(want)) == conv_fits(ans.parts(), want));
            r
        },
        Ok(_) => Err(NetError::LayerMismatch),
    }
}

/// Builds a batch normalisation layer: asks the loader for the statistics and
/// affine parameters under `path` and accepts its answer by [`accept_norm`]:
/// only a batch normalisation whose running statistics, weight and bias all
/// have shape `(num_features,)`. Otherwise the loader's error, or a mismatch.
/// It succeeds whenever every reply the loader may give fits.
pub fn load_norm<F>(load: &F, path: Vec<String>, num_features: usize) -> (r: Result<NormLayer, NetError>)
    where F: Fn(&ParamRequest) -> Result<Loaded, CandleError>,
    requires
        forall|q: &ParamRequest| #[trigger] load.requires((q,)),
    ensures
        exists|reply: Result<Loaded, CandleError>|
            #[trigger] replied(*load, norm_request(NormSpec { path: path.deep_view(), num_features }), reply)
                && norm_outcome(reply, NormSpec { path: path.deep_view(), num_features }, r),
        r matches Ok(n) ==> n@ == (NormSpec { path: path.deep_view(), num_features }),
        r matches Ok(n) ==> n.loaded_by(*load) && norm_fits(n.parts(), n@),
        r is Ok ==> fitted(*load, norm_request(NormSpec { path: path.deep_view(), num_features })),
        r matches Err(e) ==> reply_explains(*load, norm_request(NormSpec { path: path.deep_view(), num_features }), e),
{
    let ghost want = NormSpec { path: path.deep_view(), num_features };
    let (answer, path) = request(load, path, ParamKind::BatchNorm { num_features });
    match answer {
        Err(e) => Err(NetError::Candle(e)),
        Ok(Loaded::BatchNorm(a)) => {
            let ghost ans = a;
            let r = accept_norm(a, path, num_features);
            assert(answered(*load, norm_request(want), Loaded::BatchNorm(ans)));
            assert(answer_fits(Loaded::BatchNorm(ans), norm_request(want)) == norm_fits(ans.parts(), want));
            r
        },
        Ok(_) => Err(NetError::LayerMismatch),
    }
}

/// Builds a linear layer: asks the loader for the weight and bias under
/// `path` and accepts its answer by [`accept_linear`]: only a linear layer
/// whose weight has shape `(out_dim, in_dim)` and whose bias has shape
/// `(out_dim,)`. Otherwise the loader's error, or a mismatch. It succeeds
/// whenever every reply the loader may give fits.
pub fn load_linear<F>(load: &F, path: Vec<String>, in_dim: usize, out_dim: usize) -> (r: Result<LinearLayer, NetError>)
    where F: Fn(&ParamRequest) -> Result<Loaded, CandleError>,
    requires
        forall|q: &ParamRequest| #[trigger] load.requires((q,)),
    ensures
        exists|reply: Result<Loaded, CandleError>|
            #[trigger] replied(*load, linear_request(LinearSpec { path: path.deep_view(), in_dim, out_dim }), reply)
                && linear_outcome(reply, LinearSpec { path: path.deep_view(), in_dim, out_dim }, r),
        r matches Ok(l) ==> l@ == (LinearSpec { path: path.deep_view(), in_dim, out_dim }),
        r matches Ok(l) ==> l.loaded_by(*load) && linear_fits(l.parts(), l@),
        r is Ok ==> fitted(*load, linear_request(LinearSpec { path: path.deep_view(), in_dim, out_dim })),
        r matches Err(e) ==> reply_explains(*load, linear_request(LinearSpec { path: path.deep_view(), in_dim, out_dim }), e),
{
    let ghost want = LinearSpec { path: path.deep_view(), in_dim, out_dim };
    let (answer, path) = request(load, path, ParamKind::Linear { in_dim, out_dim });
    match answer {
        Err(e) => Err(NetError::Candle(e)),
        Ok(Loaded::Linear(a)) => {
            let ghost ans = a;
            let r = accept_linear(a, path, in_dim, out_dim);
            assert(answered(*load, linear_request(want), Loaded::Linear(ans)));
            assert(answer_fits(Loaded::Linear(ans), linear_request(want)) == linear_fits(ans.parts(), want));
            r
        },
        Ok(_) => Err(NetError::LayerMismatch),
    }
}

/// Applies a convolution layer (`Module::forward` of candle's `Conv2d`, i.e.
/// `Tensor::conv2d` with the layer's weight, padding and stride, dilation 1,
/// one group, no bias). candle requires a 4-dimensional input whose channel
/// count is the weight's input channels; the output has the weight's output
/// channels and spatial lengths `(len + 2 * padding - ksize) / stride + 1`.
/// The parts read back from the candle layer fit the layer's description
/// (`requires`), so the contract is stated over the description. A zero stride, a zero
/// kernel or a spatial length below `ksize - 2 * padding` make candle panic,
/// hence the `requires`.
#[verifier::external_body]
fn conv_apply(c: &ConvLayer, x: &Activation) -> (r: Result<Activation, CandleError>)
    requires
        conv_fits(c.parts(), c@),
        c@.stride > 0,
        c@.ksize > 0,
        x@.len() == 4 && x@[1] == c@.in_planes ==> {
            &&& x@[2] + 2 * c@.padding >= c@.ksize
            &&& x@[3] + 2 * c@.padding >= c@.ksize
        },
    ensures
        r matches Ok(y) ==> {
            &&& x@.len() == 4
            &&& x@[1] == c@.in_planes
            &&& y@ == seq![x@[0], c@.out_planes,
                    conv_len(x@[2] as int, c@.ksize as int, c@.padding as int, c@.stride as int) as usize,
                    conv_len(x@[3] as int, c@.ksize as int, c@.padding as int, c@.stride as int) as usize]
        },
        r matches Ok(y) ==> y.expr() == Expr::Conv(c@, Box::new(x.expr())),
{
    let t = x.tensor().apply(&c.inner)?;
    Ok(Activation::from_op(t, Ghost(Expr::Conv(c@, Box::new(x.expr())))))
}

/// Applies a batch normalisation in evaluation mode (`ModuleT::forward_t` with
/// `train == false`): the input is normalised with the running statistics,
/// which candle reshapes to the input's rank with the channel count on axis 1;
/// so a success keeps the shape, and an input of rank two or more must have
/// the layer's number of channels on axis 1. The running statistics, weight
/// and bias read back from the candle layer all have shape `(num_features,)`
/// (`requires`), so the contract is stated over the description.
#[verifier::external_body]
fn norm_apply(n: &NormLayer, x: &Activation) -> (r: Result<Activation, CandleError>)
    requires
        norm_fits(n.parts(), n@),
    ensures
        r matches Ok(y) ==> {
            &&& y@ == x@
            &&& x@.len() >= 2 ==> x@[1] == n@.num_features
        },
        r matches Ok(y) ==> y.expr() == Expr::Norm(n@, Box::new(x.expr())),
{
    let t = x.tensor().apply_t(&n.inner, false)?;
    Ok(Activation::from_op(t, Ghost(Expr::Norm(n@, Box::new(x.expr())))))
}

/// Applies a linear layer (`Module::forward` of candle's `Linear`): a matrix
/// product with the transposed weight plus the bias. candle accepts inputs of
/// rank 2 to 4 whose last axis has the weight's input size; the last axis
/// becomes the weight's output size. The weight read back from the candle
/// layer has shape `(out_dim, in_dim)` and its bias `(out_dim,)` (`requires`),
/// so the contract is stated over the description.
#[verifier::external_body]
fn linear_apply(l: &LinearLayer, x: &Activation) -> (r: Result<Activation, CandleError>)
    requires
        linear_fits(l.parts(), l@),
    ensures
        r matches Ok(y) ==> {
            &&& 2 <= x@.len() <= 4
            &&& x@.last() == l@.in_dim
            &&& y@ == x@.update(x@.len() - 1, l@.out_dim)
        },
        r matches Ok(y) ==> y.expr() == Expr::Linear(l@, Box::new(x.expr())),
{
    let t = x.tensor().apply(&l.inner)?;
    Ok(Activation::from_op(t, Ghost(Expr::Linear(l@, Box::new(x.expr())))))
}

/// Applies a convolution layer: `conv_apply` on a layer whose parts fit its
/// description, as every `ConvLayer`'s do.
pub(crate) fn conv_forward(c: &ConvLayer, x: &Activation) -> (r: Result<Activation, CandleError>)
    requires
        c@.stride > 0,
        c@.ksize > 0,
        x@.len() == 4 && x@[1] == c@.in_planes ==> {
            &&& x@[2] + 2 * c@.padding >= c@.ksize
            &&& x@[3] + 2 * c@.padding >= c@.ksize
        },
    ensures
        r matches Ok(y) ==> {
            &&& x@.len() == 4
            &&& x@[1] == c@.in_planes
            &&& y@ == seq![x@[0], c@.out_planes,
                    conv_len(x@[2] as int, c@.ksize as int, c@.padding as int, c@.stride as int) as usize,
                    conv_len(x@[3] as int, c@.ksize as int, c@.padding as int, c@.stride as int) as usize]
        },
        r matches Ok(y) ==> y.expr() == Expr::Conv(c@, Box::new(x.expr())),
{
    proof {
        use_type_invariant(c);
    }
    conv_apply(c, x)
}

/// Applies a batch normalisation in evaluation mode: `norm_apply` on a layer
/// whose parts fit its description, as every `NormLayer`'s do.
pub(crate) fn norm_forward(n: &NormLayer, x: &Activation) -> (r: Result<Activation, CandleError>)
    ensures
        r matches Ok(y) ==> {
            &&& y@ == x@
            &&& x@.len() >= 2 ==> x@[1] == n@.num_features
        },
        r matches Ok(y) ==> y.expr() == Expr::Norm(n@, Box::new(x.expr())),
{
    proof {
        use_type_invariant(n);
    }
    norm_apply(n, x)
}

/// Applies a linear layer: `linear_apply` on a layer whose parts fit its
/// description, as every `LinearLayer`'s do.
pub(crate) fn linear_forward(l: &LinearLayer, x: &Activation) -> (r: Result<Activation, CandleError>)
    ensures
        r matches Ok(y) ==> {
            &&& 2 <= x@.len() <= 4
            &&& x@.last() == l@.in_dim
            &&& y@ == x@.update(x@.len() - 1, l@.out_dim)
        },
        r matches Ok(y) ==> y.expr() == Expr::Linear(l@, Box::new(x.expr())),
{
    proof {
        use_type_invariant(l);
    }
    linear_apply(l, x)
}

} // verus!
