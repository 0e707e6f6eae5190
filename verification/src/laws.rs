//! Properties of the networks as a whole.
use vstd::prelude::*;
use crate::blocks::{basic_block_spec, bottleneck_block_spec, conv_out};
use crate::resnet::{
    basic_layer_spec, bottleneck_layer_spec, bottleneck_resnet_spec, resnet_spec,
};
use crate::blocks::{
    BasicBlock, BasicBlockSpec, BottleneckBlock, BottleneckBlockSpec, DownsampleSpec,
    downsample_spec, optional_requests,
};
use crate::error::NetError;
use crate::params::{
    ConvParts, ConvSpec, LayerRequest, LinearParts, LinearSpec, Loaded, NormParts, NormSpec,
    answer_fits, conv_fits, conv_request, linear_fits, norm_fits, norm_request, ParamKind, ParamRequest, all_fitted,
    failed_in_order, fitted, linear_request, replied, reply_explains,
};
use crate::resnet::{
    BottleneckResnetSpec, ResNetSpec, basic_stack_request_seq, basic_stack_requests,
    bottleneck_stack_request_seq, optional_linear_requests,
};
use crate::sequential::{
    basic_specs, basic_stack_accepts, basic_stack_expr, basic_stack_out, bottleneck_specs,
    bottleneck_stack_accepts, bottleneck_stack_expr, bottleneck_stack_out,
};
use crate::tensor::{Axis, CandleError, Expr, conv_len};

verus! {

/// `(len - 1) / stride + 1`: the spatial length after a convolution whose
/// kernel is `2 * padding + 1` wide.
pub open spec fn strided_len(len: usize, stride: usize) -> usize {
    ((len - 1) / (stride as int) + 1) as usize
}

/// A convolution whose kernel is `2 * p + 1` wide maps a spatial length
/// `n >= 1` to `(n - 1) / s + 1`, which lies between 1 and `n`.
pub(crate) proof fn lemma_odd_kernel_len(n: usize, p: int, s: usize)
    requires
        n >= 1,
        p >= 0,
        s > 0,
    ensures
        conv_len(n as int, 2 * p + 1, p, s as int) == (n - 1) / (s as int) + 1,
        1 <= (n - 1) / (s as int) + 1 <= n,
        conv_len(n as int, 2 * p + 1, p, s as int) as usize == strided_len(n, s),
        strided_len(n, 1) == n,
{
    assert(0 <= (n - 1) / (s as int) <= n - 1) by (nonlinear_arith)
        requires
            n >= 1,
            s > 0,
    ;
    assert((n + 2 * p - (2 * p + 1)) == n - 1);
}

/// The two branches of a basic block always agree: a block with a positive
/// stride accepts every input of shape `(batch, in_planes, h, w)` with
/// `h, w >= 1` and produces `(batch, out_planes, (h - 1) / stride + 1,
/// (w - 1) / stride + 1)`.
pub proof fn law_basic_block_shape(path: Seq<Seq<char>>, in_planes: usize, out_planes: usize, stride: usize, d: Seq<usize>)
    requires
        stride > 0,
        d.len() == 4,
        d[1] == in_planes,
        d[2] >= 1,
        d[3] >= 1,
    ensures
        basic_block_spec(path, in_planes, out_planes, stride).accepts(d),
        basic_block_spec(path, in_planes, out_planes, stride).out_dims(d)
            == seq![d[0], out_planes, strided_len(d[2], stride), strided_len(d[3], stride)],
{
    let b = basic_block_spec(path, in_planes, out_planes, stride);
    lemma_odd_kernel_len(d[2], 1, stride);
    lemma_odd_kernel_len(d[3], 1, stride);
    lemma_odd_kernel_len(d[2], 0, stride);
    lemma_odd_kernel_len(d[3], 0, stride);
    let h = strided_len(d[2], stride);
    let w = strided_len(d[3], stride);
    lemma_odd_kernel_len(h, 1, 1);
    lemma_odd_kernel_len(w, 1, 1);
    assert(conv_out(b.conv1, d) =~= seq![d[0], out_planes, h, w]);
    assert(b.main_dims(d) =~= seq![d[0], out_planes, h, w]);
    match b.downsample {
        Some(s) => {
            assert(s.out_dims(d) =~= seq![d[0], out_planes, h, w]);
        },
        None => {
            assert(d =~= seq![d[0], out_planes, h, w]);
        },
    }
}

/// A layer of basic blocks with a positive stride accepts every input of
/// shape `(batch, in_planes, h, w)` with `h, w >= 1`; with at least one block
/// it produces `(batch, out_planes, (h - 1) / stride + 1, (w - 1) / stride + 1)`,
/// with none it passes the input on.
pub proof fn law_basic_layer_shape(path: Seq<Seq<char>>, in_planes: usize, out_planes: usize, stride: usize, cnt: nat, d: Seq<usize>)
    requires
        stride > 0,
        d.len() == 4,
        d[1] == in_planes,
        d[2] >= 1,
        d[3] >= 1,
    ensures
        basic_stack_accepts(basic_layer_spec(path, in_planes, out_planes, stride, cnt), d),
        basic_stack_out(basic_layer_spec(path, in_planes, out_planes, stride, cnt), d) == if cnt == 0 {
            d
        } else {
            seq![d[0], out_planes, strided_len(d[2], stride), strided_len(d[3], stride)]
        },
    decreases cnt,
{
    if cnt > 0 {
        let layer = basic_layer_spec(path, in_planes, out_planes, stride, cnt);
        let rest = basic_layer_spec(path, in_planes, out_planes, stride, (cnt - 1) as nat);
        assert(layer.drop_last() =~= rest);
        law_basic_layer_shape(path, in_planes, out_planes, stride, (cnt - 1) as nat, d);
        lemma_odd_kernel_len(d[2], 0, stride);
        lemma_odd_kernel_len(d[3], 0, stride);
        if cnt == 1 {
            law_basic_block_shape(child_of(path, 0), in_planes, out_planes, stride, d);
        } else {
            let e = seq![d[0], out_planes, strided_len(d[2], stride), strided_len(d[3], stride)];
            law_basic_block_shape(child_of(path, (cnt - 1) as nat), out_planes, out_planes, 1, e);
            lemma_odd_kernel_len(e[2], 0, 1);
            lemma_odd_kernel_len(e[3], 0, 1);
        }
    }
}

spec fn child_of(path: Seq<Seq<char>>, i: nat) -> Seq<Seq<char>> {
    crate::names::child(path, crate::names::decimal(i))
}

/// In a layer of basic blocks only the first block may project its skip
/// connection, and it does exactly when the layer's stride is not 1 or the
/// channel count changes.
pub proof fn law_basic_layer_projection(path: Seq<Seq<char>>, in_planes: usize, out_planes: usize, stride: usize, cnt: nat, i: int)
    requires
        0 <= i < cnt,
    ensures
        basic_layer_spec(path, in_planes, out_planes, stride, cnt)[i].downsample is Some
            <==> (i == 0 && (stride != 1 || in_planes != out_planes)),
{
}

proof fn lemma_resnet_stem(nclasses: Option<usize>, c1: usize, c2: usize, c3: usize, c4: usize, d: Seq<usize>)
    requires
        d.len() == 4,
        d[1] == 3,
        d[2] >= 1,
        d[3] >= 1,
    ensures
        resnet_spec(nclasses, c1, c2, c3, c4).stem_accepts(d),
        resnet_spec(nclasses, c1, c2, c3, c4).stem_out(d) == seq![d[0], 64usize,
            strided_len(strided_len(d[2], 2), 2), strided_len(strided_len(d[3], 2), 2)],
        strided_len(strided_len(d[2], 2), 2) >= 1,
        strided_len(strided_len(d[3], 2), 2) >= 1,
{
    let net = resnet_spec(nclasses, c1, c2, c3, c4);
    lemma_odd_kernel_len(d[2], 3, 2);
    lemma_odd_kernel_len(d[3], 3, 2);
    let h = strided_len(d[2], 2);
    let w = strided_len(d[3], 2);
    assert(net.conv1_out(d) =~= seq![d[0], 64usize, h, w]);
    assert(h + 2 <= usize::MAX && w + 2 <= usize::MAX) by (nonlinear_arith)
        requires
            h <= (d[2] - 1) / 2 + 1,
            w <= (d[3] - 1) / 2 + 1,
            d[2] <= usize::MAX,
            d[3] <= usize::MAX,
    ;
    lemma_odd_kernel_len(h, 0, 2);
    lemma_odd_kernel_len(w, 0, 2);
    assert(net.padded(d) =~= seq![d[0], 64usize, (h + 2) as usize, (w + 2) as usize]);
    assert(net.stem_out(d) =~= seq![d[0], 64usize, strided_len(h, 2), strided_len(w, 2)]);
}

#[verifier::rlimit(60)]
#[verifier::spinoff_prover]
proof fn lemma_resnet_body(nclasses: Option<usize>, c1: usize, c2: usize, c3: usize, c4: usize, d: Seq<usize>)
    requires
        c1 > 0,
        c2 > 0,
        c3 > 0,
        c4 > 0,
        d.len() == 4,
        d[1] == 3,
        d[2] >= 1,
        d[3] >= 1,
    ensures
        resnet_spec(nclasses, c1, c2, c3, c4).body_accepts(d),
        resnet_spec(nclasses, c1, c2, c3, c4).out4(d).len() == 4,
        resnet_spec(nclasses, c1, c2, c3, c4).out4(d)[0] == d[0],
        resnet_spec(nclasses, c1, c2, c3, c4).out4(d)[1] == 512,
{
    let net = resnet_spec(nclasses, c1, c2, c3, c4);
    lemma_resnet_stem(nclasses, c1, c2, c3, c4, d);
    let s0 = net.stem_out(d);
    law_basic_layer_shape(seq!["layer1"@], 64, 64, 1, c1 as nat, s0);
    lemma_odd_kernel_len(s0[2], 0, 1);
    lemma_odd_kernel_len(s0[3], 0, 1);
    let s1 = net.out1(d);
    law_basic_layer_shape(seq!["layer2"@], 64, 128, 2, c2 as nat, s1);
    lemma_odd_kernel_len(s1[2], 0, 2);
    lemma_odd_kernel_len(s1[3], 0, 2);
    let s2 = net.out2(d);
    law_basic_layer_shape(seq!["layer3"@], 128, 256, 2, c3 as nat, s2);
    lemma_odd_kernel_len(s2[2], 0, 2);
    lemma_odd_kernel_len(s2[3], 0, 2);
    let s3 = net.out3(d);
    law_basic_layer_shape(seq!["layer4"@], 256, 512, 2, c4 as nat, s3);
}

/// A ResNet with at least one basic block in each layer accepts every input
/// of shape `(batch, 3, h, w)` with `h, w >= 1`, and only 4-dimensional
/// inputs with 3 channels; the output is `(batch, n)` with a final layer to
/// `n` classes, `(batch, 512)` without one.
#[verifier::rlimit(60)]
#[verifier::spinoff_prover]
pub proof fn law_resnet_output(nclasses: Option<usize>, c1: usize, c2: usize, c3: usize, c4: usize, d: Seq<usize>)
    requires
        c1 > 0,
        c2 > 0,
        c3 > 0,
        c4 > 0,
    ensures
        resnet_spec(nclasses, c1, c2, c3, c4).accepts(d) ==> d.len() == 4 && d[1] == 3,
        d.len() == 4 && d[1] == 3 && d[2] >= 1 && d[3] >= 1 ==> {
            &&& resnet_spec(nclasses, c1, c2, c3, c4).accepts(d)
            &&& resnet_spec(nclasses, c1, c2, c3, c4).out_dims(d) == match nclasses {
                Some(n) => seq![d[0], n],
                None => seq![d[0], 512usize],
            }
        },
{
    let net = resnet_spec(nclasses, c1, c2, c3, c4);
    if d.len() == 4 && d[1] == 3 && d[2] >= 1 && d[3] >= 1 {
        lemma_resnet_body(nclasses, c1, c2, c3, c4, d);
        let e = net.out4(d);
        assert(e.remove(3) =~= seq![d[0], 512usize, e[2]]);
        assert(net.pooled(d) =~= seq![d[0], 512usize]);
        match nclasses {
            Some(n) => {
                assert(net.out_dims(d) =~= seq![d[0], n]);
            },
            None => {},
        }
    }
}

/// A bottleneck block with a positive stride accepts every input of shape
/// `(batch, in_planes, h, w)` with `h, w >= 1` and produces
/// `(batch, e * out_planes, (h - 1) / stride + 1, (w - 1) / stride + 1)`: its
/// main branch and its skip connection end with the same dimensions.
pub proof fn law_bottleneck_block_shape(path: Seq<Seq<char>>, in_planes: usize, out_planes: usize, stride: usize, e: usize, d: Seq<usize>)
    requires
        stride > 0,
        e * out_planes <= usize::MAX,
        d.len() == 4,
        d[1] == in_planes,
        d[2] >= 1,
        d[3] >= 1,
    ensures
        bottleneck_block_spec(path, in_planes, out_planes, stride, e).accepts(d),
        bottleneck_block_spec(path, in_planes, out_planes, stride, e).out_dims(d)
            == seq![d[0], (e * out_planes) as usize, strided_len(d[2], stride), strided_len(d[3], stride)],
{
    let b = bottleneck_block_spec(path, in_planes, out_planes, stride, e);
    let wide = (e * out_planes) as usize;
    lemma_odd_kernel_len(d[2], 0, 1);
    lemma_odd_kernel_len(d[3], 0, 1);
    lemma_odd_kernel_len(d[2], 1, stride);
    lemma_odd_kernel_len(d[3], 1, stride);
    lemma_odd_kernel_len(d[2], 0, stride);
    lemma_odd_kernel_len(d[3], 0, stride);
    let h = strided_len(d[2], stride);
    let w = strided_len(d[3], stride);
    lemma_odd_kernel_len(h, 0, 1);
    lemma_odd_kernel_len(w, 0, 1);
    assert(b.dims1(d) =~= seq![d[0], out_planes, d[2], d[3]]);
    assert(b.dims2(d) =~= seq![d[0], out_planes, h, w]);
    assert(b.main_dims(d) =~= seq![d[0], wide, h, w]);
    if b.downsample.projects() {
        assert(b.downsample.out_dims(d) =~= seq![d[0], wide, h, w]);
    } else {
        assert(d =~= seq![d[0], wide, h, w]);
    }
}

/// A layer of bottleneck blocks (expansion 4) with a positive stride accepts
/// every input of shape `(batch, in_planes, h, w)` with `h, w >= 1` and
/// produces `(batch, 4 * out_planes, (h - 1) / stride + 1, (w - 1) / stride + 1)`.
pub proof fn law_bottleneck_layer_shape(path: Seq<Seq<char>>, in_planes: usize, out_planes: usize, stride: usize, cnt: nat, d: Seq<usize>)
    requires
        stride > 0,
        4 * out_planes <= usize::MAX,
        d.len() == 4,
        d[1] == in_planes,
        d[2] >= 1,
        d[3] >= 1,
    ensures
        bottleneck_stack_accepts(bottleneck_layer_spec(path, in_planes, out_planes, stride, cnt), d),
        bottleneck_stack_out(bottleneck_layer_spec(path, in_planes, out_planes, stride, cnt), d)
            == seq![d[0], (4 * out_planes) as usize, strided_len(d[2], stride), strided_len(d[3], stride)],
    decreases cnt,
{
    let layer = bottleneck_layer_spec(path, in_planes, out_planes, stride, cnt);
    lemma_odd_kernel_len(d[2], 0, stride);
    lemma_odd_kernel_len(d[3], 0, stride);
    if cnt <= 1 {
        assert(layer.len() == 1);
        assert(layer.last() == layer[0]);
        assert(layer[0] == bottleneck_block_spec(child_of(path, 0), in_planes, out_planes, stride, 4));
        assert(layer.drop_last() =~= Seq::<crate::blocks::BottleneckBlockSpec>::empty());
        law_bottleneck_block_shape(child_of(path, 0), in_planes, out_planes, stride, 4, d);
        assert(bottleneck_stack_out(layer.drop_last(), d) == d);
        assert(bottleneck_stack_accepts(layer.drop_last(), d));
        assert(layer.last().accepts(d));
        assert(bottleneck_stack_accepts(layer, d));
    } else {
        let rest = bottleneck_layer_spec(path, in_planes, out_planes, stride, (cnt - 1) as nat);
        assert(layer.drop_last() =~= rest);
        law_bottleneck_layer_shape(path, in_planes, out_planes, stride, (cnt - 1) as nat, d);
        let f = seq![d[0], (4 * out_planes) as usize, strided_len(d[2], stride), strided_len(d[3], stride)];
        assert(layer.last() == layer[cnt - 1]);
        assert(layer[cnt - 1] == bottleneck_block_spec(child_of(path, (cnt - 1) as nat), (4 * out_planes) as usize, out_planes, 1, 4));
        law_bottleneck_block_shape(child_of(path, (cnt - 1) as nat), (4 * out_planes) as usize, out_planes, 1, 4, f);
        lemma_odd_kernel_len(f[2], 0, 1);
        lemma_odd_kernel_len(f[3], 0, 1);
    }
}

proof fn lemma_bottleneck_resnet_stem(nclasses: Option<usize>, c1: usize, c2: usize, c3: usize, c4: usize, d: Seq<usize>)
    requires
        d.len() == 4,
        d[1] == 3,
        d[2] >= 5,
        d[3] >= 5,
    ensures
        bottleneck_resnet_spec(nclasses, c1, c2, c3, c4).stem_accepts(d),
        bottleneck_resnet_spec(nclasses, c1, c2, c3, c4).stem_out(d).len() == 4,
        bottleneck_resnet_spec(nclasses, c1, c2, c3, c4).stem_out(d)[0] == d[0],
        bottleneck_resnet_spec(nclasses, c1, c2, c3, c4).stem_out(d)[1] == 64,
        bottleneck_resnet_spec(nclasses, c1, c2, c3, c4).stem_out(d)[2] >= 1,
        bottleneck_resnet_spec(nclasses, c1, c2, c3, c4).stem_out(d)[3] >= 1,
{
    let net = bottleneck_resnet_spec(nclasses, c1, c2, c3, c4);
    lemma_odd_kernel_len(d[2], 3, 2);
    lemma_odd_kernel_len(d[3], 3, 2);
    let h = strided_len(d[2], 2);
    let w = strided_len(d[3], 2);
    assert(h >= 3 && w >= 3) by (nonlinear_arith)
        requires
            h == (d[2] - 1) / 2 + 1,
            w == (d[3] - 1) / 2 + 1,
            d[2] >= 5,
            d[3] >= 5,
    ;
    assert(net.conv1_out(d) =~= seq![d[0], 64usize, h, w]);
    assert(crate::tensor::pool_len(h as int, 3, 2) >= 1 && crate::tensor::pool_len(w as int, 3, 2) >= 1) by (nonlinear_arith)
        requires
            h >= 3,
            w >= 3,
    ;
    assert(crate::tensor::pool_len(h as int, 3, 2) <= h && crate::tensor::pool_len(w as int, 3, 2) <= w) by (nonlinear_arith)
        requires
            h >= 3,
            w >= 3,
    ;
}

#[verifier::rlimit(60)]
#[verifier::spinoff_prover]
proof fn lemma_bottleneck_resnet_body(nclasses: Option<usize>, c1: usize, c2: usize, c3: usize, c4: usize, d: Seq<usize>)
    requires
        d.len() == 4,
        d[1] == 3,
        d[2] >= 5,
        d[3] >= 5,
    ensures
        bottleneck_resnet_spec(nclasses, c1, c2, c3, c4).body_accepts(d),
        bottleneck_resnet_spec(nclasses, c1, c2, c3, c4).out4(d).len() == 4,
        bottleneck_resnet_spec(nclasses, c1, c2, c3, c4).out4(d)[0] == d[0],
        bottleneck_resnet_spec(nclasses, c1, c2, c3, c4).out4(d)[1] == 2048,
{
    let net = bottleneck_resnet_spec(nclasses, c1, c2, c3, c4);
    lemma_bottleneck_resnet_stem(nclasses, c1, c2, c3, c4, d);
    let s0 = net.stem_out(d);
    law_bottleneck_layer_shape(seq!["layer1"@], 64, 64, 1, c1 as nat, s0);
    lemma_odd_kernel_len(s0[2], 0, 1);
    lemma_odd_kernel_len(s0[3], 0, 1);
    let s1 = net.out1(d);
    law_bottleneck_layer_shape(seq!["layer2"@], 256, 128, 2, c2 as nat, s1);
    lemma_odd_kernel_len(s1[2], 0, 2);
    lemma_odd_kernel_len(s1[3], 0, 2);
    let s2 = net.out2(d);
    law_bottleneck_layer_shape(seq!["layer3"@], 512, 256, 2, c3 as nat, s2);
    lemma_odd_kernel_len(s2[2], 0, 2);
    lemma_odd_kernel_len(s2[3], 0, 2);
    let s3 = net.out3(d);
    law_bottleneck_layer_shape(seq!["layer4"@], 1024, 512, 2, c4 as nat, s3);
}

/// Averaging `(batch, 2048, h, w)` over both spatial axes with the axes kept,
/// then merging the axes from 1 on, gives `(batch, 2048)`.
proof fn lemma_pooled_features(e: Seq<usize>)
    requires
        e.len() == 4,
        e[1] == 2048,
    ensures
        crate::tensor::flatten_from_dims(e.update(2, 1usize).update(3, 1usize), 1) == seq![e[0], 2048usize],
{
    let k = e.update(2, 1usize).update(3, 1usize);
    let t = seq![2048usize, 1usize, 1usize];
    assert(k.skip(1) =~= t);
    assert(t.drop_last() =~= seq![2048usize, 1usize]);
    assert(seq![2048usize, 1usize].drop_last() =~= seq![2048usize]);
    assert(seq![2048usize].drop_last() =~= Seq::<usize>::empty());
    assert(crate::tensor::dims_product(Seq::<usize>::empty()) == 1);
    assert(crate::tensor::dims_product(seq![2048usize]) == 2048);
    assert(crate::tensor::dims_product(seq![2048usize, 1usize]) == 2048);
    assert(crate::tensor::dims_product(t) == 2048);
    assert(k.take(1).push(2048usize) =~= seq![e[0], 2048usize]);
}

/// A ResNet with bottleneck blocks accepts every input of shape
/// `(batch, 3, h, w)` with `h, w >= 5` (the 3x3 max pooling after the stem
/// has no padding), and only 4-dimensional inputs with 3 channels; the output
/// is `(batch, n)` with a final layer to `n` classes, `(batch, 2048)` without one.
#[verifier::rlimit(60)]
#[verifier::spinoff_prover]
pub proof fn law_bottleneck_resnet_output(nclasses: Option<usize>, c1: usize, c2: usize, c3: usize, c4: usize, d: Seq<usize>)
    ensures
        bottleneck_resnet_spec(nclasses, c1, c2, c3, c4).accepts(d) ==> d.len() == 4 && d[1] == 3,
        d.len() == 4 && d[1] == 3 && d[2] >= 5 && d[3] >= 5 ==> {
            &&& bottleneck_resnet_spec(nclasses, c1, c2, c3, c4).accepts(d)
            &&& bottleneck_resnet_spec(nclasses, c1, c2, c3, c4).out_dims(d) == match nclasses {
                Some(n) => seq![d[0], n],
                None => seq![d[0], 2048usize],
            }
        },
{
    let net = bottleneck_resnet_spec(nclasses, c1, c2, c3, c4);
    if d.len() == 4 && d[1] == 3 && d[2] >= 5 && d[3] >= 5 {
        lemma_bottleneck_resnet_body(nclasses, c1, c2, c3, c4, d);
        lemma_pooled_features(net.out4(d));
        assert(net.pooled(d) =~= seq![d[0], 2048usize]);
        match nclasses {
            Some(n) => {
                assert(net.out_dims(d) =~= seq![d[0], n]);
            },
            None => {},
        }
    }
}

/// Different blocks of a layer load their weights from different paths.
pub proof fn law_basic_layer_paths_distinct(path: Seq<Seq<char>>, in_planes: usize, out_planes: usize, stride: usize, cnt: nat, i: int, j: int)
    requires
        0 <= i < cnt,
        0 <= j < cnt,
        i != j,
    ensures
        basic_layer_spec(path, in_planes, out_planes, stride, cnt)[i].conv1.path
            != basic_layer_spec(path, in_planes, out_planes, stride, cnt)[j].conv1.path,
{
    let layer = basic_layer_spec(path, in_planes, out_planes, stride, cnt);
    if layer[i].conv1.path == layer[j].conv1.path {
        assert(layer[i].conv1.path[path.len() as int] == crate::names::decimal(i as nat));
        assert(layer[j].conv1.path[path.len() as int] == crate::names::decimal(j as nat));
        crate::names::law_decimal_injective(i as nat, j as nat);
    }
}

/// Appending a layer to a stack (`Sequential::push` or `add`) adds one to its
/// length, puts the layer last and keeps the others in order.
pub proof fn law_push_appends<T>(layers: Seq<T>, layer: T)
    ensures
        layers.push(layer).len() == layers.len() + 1,
        layers.push(layer).last() == layer,
        layers.push(layer).drop_last() == layers,
{
    assert(layers.push(layer).drop_last() =~= layers);
}

/// A stack of basic blocks with one block appended computes what the stack
/// computes, then that block: on expressions, on dimensions and on what is
/// accepted.
pub proof fn law_basic_stack_push(blocks: Seq<BasicBlock>, block: BasicBlock, x: Expr, d: Seq<usize>)
    ensures
        basic_specs(blocks.push(block)) == basic_specs(blocks).push(block@),
        basic_stack_expr(basic_specs(blocks.push(block)), x) == block@.expr(basic_stack_expr(basic_specs(blocks), x)),
        basic_stack_out(basic_specs(blocks.push(block)), d) == block@.out_dims(basic_stack_out(basic_specs(blocks), d)),
        basic_stack_accepts(basic_specs(blocks.push(block)), d)
            == (basic_stack_accepts(basic_specs(blocks), d) && block@.accepts(basic_stack_out(basic_specs(blocks), d))),
{
    let specs = basic_specs(blocks);
    assert(basic_specs(blocks.push(block)) =~= specs.push(block@));
    assert(specs.push(block@).drop_last() =~= specs);
}

/// A stack of bottleneck blocks with one block appended computes what the
/// stack computes, then that block: on expressions, on dimensions and on what
/// is accepted.
pub proof fn law_bottleneck_stack_push(blocks: Seq<BottleneckBlock>, block: BottleneckBlock, x: Expr, d: Seq<usize>)
    ensures
        bottleneck_specs(blocks.push(block)) == bottleneck_specs(blocks).push(block@),
        bottleneck_stack_expr(bottleneck_specs(blocks.push(block)), x)
            == block@.expr(bottleneck_stack_expr(bottleneck_specs(blocks), x)),
        bottleneck_stack_out(bottleneck_specs(blocks.push(block)), d)
            == block@.out_dims(bottleneck_stack_out(bottleneck_specs(blocks), d)),
        bottleneck_stack_accepts(bottleneck_specs(blocks.push(block)), d)
            == (bottleneck_stack_accepts(bottleneck_specs(blocks), d)
                && block@.accepts(bottleneck_stack_out(bottleneck_specs(blocks), d))),
{
    let specs = bottleneck_specs(blocks);
    assert(bottleneck_specs(blocks.push(block)) =~= specs.push(block@));
    assert(specs.push(block@).drop_last() =~= specs);
}

/// A ResNet with a final layer computes the network without it, then the
/// linear layer `fc` from 512 features to `n` classes; it requests the same
/// layers and `fc` besides.
pub proof fn law_resnet_head(n: usize, c1: usize, c2: usize, c3: usize, c4: usize, x: Expr)
    ensures
        resnet_spec(Some(n), c1, c2, c3, c4).expr(x)
            == Expr::Linear(LinearSpec { path: seq!["fc"@], in_dim: 512, out_dim: n }, Box::new(resnet_spec(None, c1, c2, c3, c4).expr(x))),
        resnet_spec(Some(n), c1, c2, c3, c4).requests()
            == resnet_spec(None, c1, c2, c3, c4).requests().insert(linear_request(LinearSpec { path: seq!["fc"@], in_dim: 512, out_dim: n })),
        resnet_spec(Some(n), c1, c2, c3, c4).request_seq()
            == resnet_spec(None, c1, c2, c3, c4).request_seq().push(linear_request(LinearSpec { path: seq!["fc"@], in_dim: 512, out_dim: n })),
{
    assert(resnet_spec(Some(n), c1, c2, c3, c4).request_seq()
        =~= resnet_spec(None, c1, c2, c3, c4).request_seq().push(linear_request(LinearSpec { path: seq!["fc"@], in_dim: 512, out_dim: n })));
    assert(resnet_spec(Some(n), c1, c2, c3, c4).requests()
        =~= resnet_spec(None, c1, c2, c3, c4).requests().insert(linear_request(LinearSpec { path: seq!["fc"@], in_dim: 512, out_dim: n })));
}

/// A ResNet with bottleneck blocks and a final layer computes the network
/// without it, then the linear layer `fc` from 2048 features to `n` classes;
/// it requests the same layers and `fc` besides.
pub proof fn law_bottleneck_resnet_head(n: usize, c1: usize, c2: usize, c3: usize, c4: usize, x: Expr)
    ensures
        bottleneck_resnet_spec(Some(n), c1, c2, c3, c4).expr(x)
            == Expr::Linear(LinearSpec { path: seq!["fc"@], in_dim: 2048, out_dim: n }, Box::new(bottleneck_resnet_spec(None, c1, c2, c3, c4).expr(x))),
        bottleneck_resnet_spec(Some(n), c1, c2, c3, c4).requests()
            == bottleneck_resnet_spec(None, c1, c2, c3, c4).requests().insert(linear_request(LinearSpec { path: seq!["fc"@], in_dim: 2048, out_dim: n })),
        bottleneck_resnet_spec(Some(n), c1, c2, c3, c4).request_seq()
            == bottleneck_resnet_spec(None, c1, c2, c3, c4).request_seq().push(linear_request(LinearSpec { path: seq!["fc"@], in_dim: 2048, out_dim: n })),
{
    assert(bottleneck_resnet_spec(Some(n), c1, c2, c3, c4).request_seq()
        =~= bottleneck_resnet_spec(None, c1, c2, c3, c4).request_seq().push(linear_request(LinearSpec { path: seq!["fc"@], in_dim: 2048, out_dim: n })));
    assert(bottleneck_resnet_spec(Some(n), c1, c2, c3, c4).requests()
        =~= bottleneck_resnet_spec(None, c1, c2, c3, c4).requests().insert(linear_request(LinearSpec { path: seq!["fc"@], in_dim: 2048, out_dim: n })));
}

/// A ResNet built without a final layer requests no linear layer: every
/// request of its blocks and stem is for a convolution or a batch normalisation.
pub proof fn law_headless_requests_no_linear(c1: usize, c2: usize, c3: usize, c4: usize, req: LayerRequest)
    requires
        resnet_spec(None, c1, c2, c3, c4).requests().contains(req),
    ensures
        !(req.kind is Linear),
{
    let net = resnet_spec(None, c1, c2, c3, c4);
    let layers = seq![net.layer1, net.layer2, net.layer3, net.layer4];
    if !(set![crate::params::conv_request(net.conv1), crate::params::norm_request(net.bn1)].contains(req)) {
        let k: int = if basic_stack_requests(net.layer1).contains(req) { 0 }
            else if basic_stack_requests(net.layer2).contains(req) { 1 }
            else if basic_stack_requests(net.layer3).contains(req) { 2 }
            else { 3 };
        assert(basic_stack_requests(layers[k]).contains(req));
        let i = choose|i: int| 0 <= i < layers[k].len() && #[trigger] layers[k][i].requests().contains(req);
        assert(layers[k][i].requests().contains(req));
    }
}

/// Nothing is requested for what is absent: the projection of a basic block
/// that keeps its stride and channels, a layer of no basic blocks, and the
/// final layer of a network built without one.
pub proof fn law_nothing_requested_when_absent(path: Seq<Seq<char>>, planes: usize, in_planes: usize, out_planes: usize, stride: usize)
    ensures
        optional_requests(downsample_spec(path, planes, planes, 1)) == Set::<LayerRequest>::empty(),
        basic_stack_requests(basic_layer_spec(path, in_planes, out_planes, stride, 0)) == Set::<LayerRequest>::empty(),
        optional_linear_requests(None) == Set::<LayerRequest>::empty(),
{
    assert(basic_stack_requests(basic_layer_spec(path, in_planes, out_planes, stride, 0)) =~= Set::<LayerRequest>::empty());
}

/// Whether a sequence of requests all got fitting layers, and which error it
/// failed with first, depend only on the loader's replies to those requests:
/// two loaders that may give the same replies to each of them (for instance
/// two weight stores that differ only under paths never requested, such as
/// `fc` for a network built without one) load the same way.
pub proof fn law_only_requested_replies_matter<F: Fn(&ParamRequest) -> Result<Loaded, CandleError>, G: Fn(&ParamRequest) -> Result<Loaded, CandleError>>(load: F, other: G, reqs: Seq<LayerRequest>, e: NetError)
    requires
        forall|j: int, reply: Result<Loaded, CandleError>| 0 <= j < reqs.len()
            ==> (#[trigger] replied(load, reqs[j], reply) == replied(other, reqs[j], reply)),
    ensures
        all_fitted(load, reqs) == all_fitted(other, reqs),
        failed_in_order(load, reqs, e) == failed_in_order(other, reqs, e),
{
    assert forall|j: int| 0 <= j < reqs.len() implies #[trigger] fitted(load, reqs[j]) == fitted(other, reqs[j]) by {
        if fitted(load, reqs[j]) {
            let reply = choose|reply: Result<Loaded, CandleError>| #[trigger] replied(load, reqs[j], reply) && (reply matches Ok(a) && crate::params::answer_fits(a, reqs[j]));
            assert(replied(other, reqs[j], reply));
        }
        if fitted(other, reqs[j]) {
            let reply = choose|reply: Result<Loaded, CandleError>| #[trigger] replied(other, reqs[j], reply) && (reply matches Ok(a) && crate::params::answer_fits(a, reqs[j]));
            assert(replied(load, reqs[j], reply));
        }
    }
    assert forall|j: int| 0 <= j < reqs.len() implies #[trigger] reply_explains(load, reqs[j], e) == reply_explains(other, reqs[j], e) by {
        if reply_explains(load, reqs[j], e) {
            let reply = choose|reply: Result<Loaded, CandleError>| #[trigger] replied(load, reqs[j], reply) && crate::params::reply_gives(reply, reqs[j], e);
            assert(replied(other, reqs[j], reply));
        }
        if reply_explains(other, reqs[j], e) {
            let reply = choose|reply: Result<Loaded, CandleError>| #[trigger] replied(other, reqs[j], reply) && crate::params::reply_gives(reply, reqs[j], e);
            assert(replied(load, reqs[j], reply));
        }
    }
    assert forall|k: int| 0 <= k <= reqs.len() implies all_fitted(load, #[trigger] reqs.take(k)) == all_fitted(other, reqs.take(k)) by {
        if all_fitted(load, reqs.take(k)) {
            assert forall|j: int| 0 <= j < reqs.take(k).len() implies #[trigger] fitted(other, reqs.take(k)[j]) by {
                assert(reqs.take(k)[j] == reqs[j]);
                assert(fitted(load, reqs.take(k)[j]));
            }
        }
        if all_fitted(other, reqs.take(k)) {
            assert forall|j: int| 0 <= j < reqs.take(k).len() implies #[trigger] fitted(load, reqs.take(k)[j]) by {
                assert(reqs.take(k)[j] == reqs[j]);
                assert(fitted(other, reqs.take(k)[j]));
            }
        }
    }
    assert(reqs.take(reqs.len() as int) =~= reqs);
    if failed_in_order(load, reqs, e) {
        let k = choose|k: int| 0 <= k < reqs.len() && all_fitted(load, reqs.take(k)) && #[trigger] reply_explains(load, reqs[k], e);
        assert(all_fitted(other, reqs.take(k)));
        assert(reply_explains(other, reqs[k], e));
    }
    if failed_in_order(other, reqs, e) {
        let k = choose|k: int| 0 <= k < reqs.len() && all_fitted(other, reqs.take(k)) && #[trigger] reply_explains(other, reqs[k], e);
        assert(all_fitted(load, reqs.take(k)));
        assert(reply_explains(load, reqs[k], e));
    }
}

// ---------------------------------------------------------------------------
// What each forward pass computes, operation by operation

/// The skip connection computes the batch normalisation of the convolution of
/// its input when the stride or the channel count changes, and hands its input
/// on unchanged otherwise.
pub proof fn law_downsample_computes(s: DownsampleSpec, x: Expr)
    ensures
        s.stride != 1 || s.in_planes != s.out_planes
            ==> s.expr(x) == Expr::Norm(s.bn, Box::new(Expr::Conv(s.conv, Box::new(x)))),
        s.stride == 1 && s.in_planes == s.out_planes ==> s.expr(x) == x,
{
}

/// A basic block computes `relu(skip + bn2(conv2(relu(bn1(conv1(x))))))`:
/// a relu stands directly on bn1's output, and the sum of the main branch
/// with the skip connection (the projection of `x`, or `x` itself) goes
/// through a final relu.
pub proof fn law_basic_block_computes(b: BasicBlockSpec, x: Expr)
    ensures
        ({
            let main = Expr::Norm(b.bn2, Box::new(Expr::Conv(b.conv2, Box::new(
                Expr::Relu(Box::new(Expr::Norm(b.bn1, Box::new(Expr::Conv(b.conv1, Box::new(x))))))))));
            b.expr(x) == match b.downsample {
                Some(s) => Expr::Relu(Box::new(Expr::Add(Box::new(s.expr(x)), Box::new(main)))),
                None => Expr::Relu(Box::new(Expr::Add(Box::new(main), Box::new(x)))),
            }
        }),
{
}

/// A bottleneck block computes
/// `relu(downsample(x) + bn3(conv3(relu(bn2(conv2(relu(bn1(conv1(x)))))))))`:
/// a relu follows each of bn1 and bn2, and the sum with the skip connection
/// goes through a final relu.
pub proof fn law_bottleneck_block_computes(b: BottleneckBlockSpec, x: Expr)
    ensures
        ({
            let h1 = Expr::Relu(Box::new(Expr::Norm(b.bn1, Box::new(Expr::Conv(b.conv1, Box::new(x))))));
            let h2 = Expr::Relu(Box::new(Expr::Norm(b.bn2, Box::new(Expr::Conv(b.conv2, Box::new(h1))))));
            let main = Expr::Norm(b.bn3, Box::new(Expr::Conv(b.conv3, Box::new(h2))));
            b.expr(x) == Expr::Relu(Box::new(Expr::Add(Box::new(b.downsample.expr(x)), Box::new(main))))
        }),
{
}

/// An empty stack hands its input on; a stack of one block computes that block.
pub proof fn law_stacks_of_few_blocks(b: BasicBlockSpec, c: BottleneckBlockSpec, x: Expr)
    ensures
        basic_stack_expr(Seq::empty(), x) == x,
        bottleneck_stack_expr(Seq::empty(), x) == x,
        basic_stack_expr(seq![b], x) == b.expr(x),
        bottleneck_stack_expr(seq![c], x) == c.expr(x),
{
    assert(seq![b].drop_last() =~= Seq::<BasicBlockSpec>::empty());
    assert(seq![c].drop_last() =~= Seq::<BottleneckBlockSpec>::empty());
}

/// A ResNet with basic blocks computes: conv1, bn1, relu, padding of the last
/// then the second-to-last axis by one on each side (repeating the edge),
/// 3x3 max pooling with stride 2, layer1 .. layer4 in order, the mean over the
/// last axis twice, and fc when there is one.
pub proof fn law_resnet_computes(net: ResNetSpec, x: Expr)
    ensures
        ({
            let stem = Expr::MaxPool(3, 2, Box::new(Expr::PadSame(Axis::SecondLast, 1, 1, Box::new(
                Expr::PadSame(Axis::Last, 1, 1, Box::new(Expr::Relu(Box::new(
                    Expr::Norm(net.bn1, Box::new(Expr::Conv(net.conv1, Box::new(x))))))))))));
            let body = basic_stack_expr(net.layer4, basic_stack_expr(net.layer3,
                basic_stack_expr(net.layer2, basic_stack_expr(net.layer1, stem))));
            let features = Expr::Mean(Axis::Last, Box::new(Expr::Mean(Axis::Last, Box::new(body))));
            net.expr(x) == match net.linear {
                Some(l) => Expr::Linear(l, Box::new(features)),
                None => features,
            }
        }),
{
}

/// A ResNet with bottleneck blocks computes: conv1, bn1, relu, 3x3 max pooling
/// with stride 2, layer1 .. layer4 in order, the mean over the second-to-last
/// then the last axis (both kept), the merge of the axes from 1 on, and fc
/// when there is one.
pub proof fn law_bottleneck_resnet_computes(net: BottleneckResnetSpec, x: Expr)
    ensures
        ({
            let stem = Expr::MaxPool(3, 2, Box::new(Expr::Relu(Box::new(
                Expr::Norm(net.bn1, Box::new(Expr::Conv(net.conv1, Box::new(x))))))));
            let body = bottleneck_stack_expr(net.layer4, bottleneck_stack_expr(net.layer3,
                bottleneck_stack_expr(net.layer2, bottleneck_stack_expr(net.layer1, stem))));
            let features = Expr::FlattenFrom(1, Box::new(Expr::MeanKeepdim(Axis::Last, Box::new(
                Expr::MeanKeepdim(Axis::SecondLast, Box::new(body))))));
            net.expr(x) == match net.linear {
                Some(l) => Expr::Linear(l, Box::new(features)),
                None => features,
            }
        }),
{
}

// ---------------------------------------------------------------------------
// Which layers are asked for, under which paths, in which order

/// The request for a convolution asks for its path and exact shape, padding
/// and stride; that for a batch normalisation for its path and channel count;
/// that for a linear layer for its path and dimensions.
pub proof fn law_requests_ask_for_the_description(c: ConvSpec, n: NormSpec, l: LinearSpec)
    ensures
        conv_request(c) == (LayerRequest {
            path: c.path,
            kind: ParamKind::Conv2d { in_channels: c.in_planes, out_channels: c.out_planes, kernel_size: c.ksize, padding: c.padding, stride: c.stride },
        }),
        norm_request(n) == (LayerRequest { path: n.path, kind: ParamKind::BatchNorm { num_features: n.num_features } }),
        linear_request(l) == (LayerRequest { path: l.path, kind: ParamKind::Linear { in_dim: l.in_dim, out_dim: l.out_dim } }),
{
}

/// A loaded layer fits a convolution's description exactly when its weight
/// has shape `(out_planes, in_planes, ksize, ksize)`, its padding and stride
/// are those described, its dilation is 1, it has one group and no bias; a
/// batch normalisation when its running mean and variance, weight and bias all
/// have shape `(num_features,)`; a linear layer when its weight has shape
/// `(out_dim, in_dim)` and its bias `(out_dim,)`. A layer of another kind
/// never fits.
pub proof fn law_what_fits(cp: ConvParts, c: ConvSpec, np: NormParts, n: NormSpec, lp: LinearParts, l: LinearSpec, answer: Loaded)
    ensures
        conv_fits(cp, c) <==> {
            &&& cp.weight_dims == seq![c.out_planes, c.in_planes, c.ksize, c.ksize]
            &&& cp.padding == c.padding
            &&& cp.stride == c.stride
            &&& cp.dilation == 1
            &&& cp.groups == 1
            &&& !cp.has_bias
        },
        norm_fits(np, n) <==> {
            &&& np.mean_dims == seq![n.num_features]
            &&& np.var_dims == seq![n.num_features]
            &&& np.affine_dims == Some((seq![n.num_features], seq![n.num_features]))
        },
        linear_fits(lp, l) <==> lp.weight_dims == seq![l.out_dim, l.in_dim] && lp.bias_dims == Some(seq![l.out_dim]),
        answer_fits(answer, conv_request(c)) ==> answer is Conv2d,
        answer_fits(answer, norm_request(n)) ==> answer is BatchNorm,
        answer_fits(answer, linear_request(l)) ==> answer is Linear,
        answer matches Loaded::Conv2d(a) ==> (answer_fits(answer, conv_request(c)) <==> conv_fits(a.parts(), c)),
        answer matches Loaded::BatchNorm(a) ==> (answer_fits(answer, norm_request(n)) <==> norm_fits(a.parts(), n)),
        answer matches Loaded::Linear(a) ==> (answer_fits(answer, linear_request(l)) <==> linear_fits(a.parts(), l)),
{
}

/// A basic block under `path` from `in_planes` to `out_planes` channels with
/// stride `stride` asks, in this order, for `conv1` (3x3, padding 1, the
/// block's stride), `bn1`, `conv2` (3x3, padding 1, stride 1), `bn2` over
/// `out_planes` channels, and, exactly when the stride is not 1 or the
/// channel count changes, `downsample.0` (1x1, padding 0, the block's stride)
/// and `downsample.1`.
pub proof fn law_basic_block_layers(path: Seq<Seq<char>>, in_planes: usize, out_planes: usize, stride: usize)
    ensures
        ({
            let b = basic_block_spec(path, in_planes, out_planes, stride);
            let ds = path.push("downsample"@);
            let projects = stride != 1 || in_planes != out_planes;
            &&& b.conv1 == (ConvSpec { path: path.push("conv1"@), in_planes, out_planes, ksize: 3, padding: 1, stride })
            &&& b.bn1 == (NormSpec { path: path.push("bn1"@), num_features: out_planes })
            &&& b.conv2 == (ConvSpec { path: path.push("conv2"@), in_planes: out_planes, out_planes, ksize: 3, padding: 1, stride: 1 })
            &&& b.bn2 == (NormSpec { path: path.push("bn2"@), num_features: out_planes })
            &&& b.downsample == if projects {
                Some(DownsampleSpec {
                    conv: ConvSpec { path: ds.push("0"@), in_planes, out_planes, ksize: 1, padding: 0, stride },
                    bn: NormSpec { path: ds.push("1"@), num_features: out_planes },
                    in_planes,
                    out_planes,
                    stride,
                })
            } else {
                None
            }
            &&& b.request_seq() == seq![
                conv_request(b.conv1), norm_request(b.bn1), conv_request(b.conv2), norm_request(b.bn2),
            ] + if projects {
                seq![conv_request(b.downsample->0.conv), norm_request(b.downsample->0.bn)]
            } else {
                Seq::empty()
            }
        }),
{
    let b = basic_block_spec(path, in_planes, out_planes, stride);
    if stride != 1 || in_planes != out_planes {
        assert(b.request_seq() =~= seq![
            conv_request(b.conv1), norm_request(b.bn1), conv_request(b.conv2), norm_request(b.bn2),
        ] + seq![conv_request(b.downsample->0.conv), norm_request(b.downsample->0.bn)]);
    } else {
        assert(b.request_seq() =~= seq![
            conv_request(b.conv1), norm_request(b.bn1), conv_request(b.conv2), norm_request(b.bn2),
        ] + Seq::<LayerRequest>::empty());
    }
}

/// A bottleneck block under `path` with expansion `e` asks, in this order,
/// for `conv1` (1x1, `in_planes` to `out_planes`), `bn1`, `conv2` (3x3,
/// padding 1, the block's stride), `bn2`, `conv3` (1x1, `out_planes` to
/// `e * out_planes`), `bn3` over `e * out_planes` channels, and always for
/// `downsample.0` (1x1, `in_planes` to `e * out_planes`, the block's stride)
/// and `downsample.1`.
pub proof fn law_bottleneck_block_layers(path: Seq<Seq<char>>, in_planes: usize, out_planes: usize, stride: usize, e: usize)
    requires
        e * out_planes <= usize::MAX,
    ensures
        ({
            let b = bottleneck_block_spec(path, in_planes, out_planes, stride, e);
            let wide = (e * out_planes) as usize;
            let ds = path.push("downsample"@);
            &&& b.conv1 == (ConvSpec { path: path.push("conv1"@), in_planes, out_planes, ksize: 1, padding: 0, stride: 1 })
            &&& b.bn1 == (NormSpec { path: path.push("bn1"@), num_features: out_planes })
            &&& b.conv2 == (ConvSpec { path: path.push("conv2"@), in_planes: out_planes, out_planes, ksize: 3, padding: 1, stride })
            &&& b.bn2 == (NormSpec { path: path.push("bn2"@), num_features: out_planes })
            &&& b.conv3 == (ConvSpec { path: path.push("conv3"@), in_planes: out_planes, out_planes: wide, ksize: 1, padding: 0, stride: 1 })
            &&& b.bn3 == (NormSpec { path: path.push("bn3"@), num_features: wide })
            &&& b.downsample == (DownsampleSpec {
                conv: ConvSpec { path: ds.push("0"@), in_planes, out_planes: wide, ksize: 1, padding: 0, stride },
                bn: NormSpec { path: ds.push("1"@), num_features: wide },
                in_planes,
                out_planes: wide,
                stride,
            })
            &&& b.request_seq() == seq![
                conv_request(b.conv1), norm_request(b.bn1), conv_request(b.conv2), norm_request(b.bn2),
                conv_request(b.conv3), norm_request(b.bn3), conv_request(b.downsample.conv), norm_request(b.downsample.bn),
            ]
        }),
{
    let b = bottleneck_block_spec(path, in_planes, out_planes, stride, e);
    assert(b.request_seq() =~= seq![
        conv_request(b.conv1), norm_request(b.bn1), conv_request(b.conv2), norm_request(b.bn2),
        conv_request(b.conv3), norm_request(b.bn3), conv_request(b.downsample.conv), norm_request(b.downsample.bn),
    ]);
}

/// A layer of `cnt` basic blocks under `path` holds them under the segments
/// `0`, `1`, ... (each index in decimal): the first from `in_planes` channels
/// with the layer's stride, the others from `out_planes` with stride 1.
pub proof fn law_basic_layer_blocks(path: Seq<Seq<char>>, in_planes: usize, out_planes: usize, stride: usize, cnt: nat, i: int)
    ensures
        basic_layer_spec(path, in_planes, out_planes, stride, cnt).len() == cnt,
        0 <= i < cnt ==> basic_layer_spec(path, in_planes, out_planes, stride, cnt)[i] == basic_block_spec(
            path.push(crate::names::decimal(i as nat)),
            if i == 0 { in_planes } else { out_planes },
            out_planes,
            if i == 0 { stride } else { 1 },
        ),
{
}

/// A layer of bottleneck blocks under `path` always holds a first block (also
/// when `cnt` is 0), under the segments `0`, `1`, ... (each index in decimal):
/// the first from `in_planes` channels with the layer's stride, the others from
/// `4 * out_planes` with stride 1, all with expansion 4.
pub proof fn law_bottleneck_layer_blocks(path: Seq<Seq<char>>, in_planes: usize, out_planes: usize, stride: usize, cnt: nat, i: int)
    ensures
        bottleneck_layer_spec(path, in_planes, out_planes, stride, cnt).len() == if cnt == 0 { 1 } else { cnt },
        0 <= i < bottleneck_layer_spec(path, in_planes, out_planes, stride, cnt).len()
            ==> bottleneck_layer_spec(path, in_planes, out_planes, stride, cnt)[i] == bottleneck_block_spec(
            path.push(crate::names::decimal(i as nat)),
            if i == 0 { in_planes } else { (4 * out_planes) as usize },
            out_planes,
            if i == 0 { stride } else { 1 },
            4,
        ),
{
}

/// A stack asks for the requests of its blocks, block after block.
pub proof fn law_stack_request_order(blocks: Seq<BasicBlockSpec>, b: BasicBlockSpec, bottlenecks: Seq<BottleneckBlockSpec>, c: BottleneckBlockSpec)
    ensures
        basic_stack_request_seq(Seq::empty()) == Seq::<LayerRequest>::empty(),
        bottleneck_stack_request_seq(Seq::empty()) == Seq::<LayerRequest>::empty(),
        basic_stack_request_seq(blocks.push(b)) == basic_stack_request_seq(blocks) + b.request_seq(),
        bottleneck_stack_request_seq(bottlenecks.push(c)) == bottleneck_stack_request_seq(bottlenecks) + c.request_seq(),
{
    assert(blocks.push(b).drop_last() =~= blocks);
    assert(bottlenecks.push(c).drop_last() =~= bottlenecks);
}

/// ResNet-18/34 (and any count of basic blocks): `conv1` (7x7, 3 to 64
/// channels, padding 3, stride 2), `bn1` over 64 channels, `layer1` .. `layer4`
/// from 64 to 64 (stride 1), 64 to 128, 128 to 256 and 256 to 512 channels
/// (stride 2), and `fc` from 512 features when there is a final layer; the
/// layers are asked for in that order.
pub proof fn law_resnet_layers(nclasses: Option<usize>, c1: usize, c2: usize, c3: usize, c4: usize)
    ensures
        ({
            let net = resnet_spec(nclasses, c1, c2, c3, c4);
            &&& net.conv1 == (ConvSpec { path: seq!["conv1"@], in_planes: 3, out_planes: 64, ksize: 7, padding: 3, stride: 2 })
            &&& net.bn1 == (NormSpec { path: seq!["bn1"@], num_features: 64 })
            &&& net.layer1 == basic_layer_spec(seq!["layer1"@], 64, 64, 1, c1 as nat)
            &&& net.layer2 == basic_layer_spec(seq!["layer2"@], 64, 128, 2, c2 as nat)
            &&& net.layer3 == basic_layer_spec(seq!["layer3"@], 128, 256, 2, c3 as nat)
            &&& net.layer4 == basic_layer_spec(seq!["layer4"@], 256, 512, 2, c4 as nat)
            &&& net.linear == match nclasses {
                Some(n) => Some(LinearSpec { path: seq!["fc"@], in_dim: 512, out_dim: n }),
                None => None,
            }
            &&& net.request_seq() == seq![conv_request(net.conv1), norm_request(net.bn1)]
                + basic_stack_request_seq(net.layer1) + basic_stack_request_seq(net.layer2)
                + basic_stack_request_seq(net.layer3) + basic_stack_request_seq(net.layer4)
                + match nclasses {
                    Some(n) => seq![linear_request(LinearSpec { path: seq!["fc"@], in_dim: 512, out_dim: n })],
                    None => Seq::empty(),
                }
        }),
{
}

/// ResNet-50/101/152 (and any count of bottleneck blocks): `conv1` (7x7, 3 to
/// 64 channels, padding 3, stride 2), `bn1` over 64 channels, `layer1` ..
/// `layer4` from 64 (width 64, stride 1), 256 (width 128), 512 (width 256) and
/// 1024 channels (width 512, stride 2), and `fc` from 2048 features when there
/// is a final layer; the layers are asked for in that order.
pub proof fn law_bottleneck_resnet_layers(nclasses: Option<usize>, c1: usize, c2: usize, c3: usize, c4: usize)
    ensures
        ({
            let net = bottleneck_resnet_spec(nclasses, c1, c2, c3, c4);
            &&& net.conv1 == (ConvSpec { path: seq!["conv1"@], in_planes: 3, out_planes: 64, ksize: 7, padding: 3, stride: 2 })
            &&& net.bn1 == (NormSpec { path: seq!["bn1"@], num_features: 64 })
            &&& net.layer1 == bottleneck_layer_spec(seq!["layer1"@], 64, 64, 1, c1 as nat)
            &&& net.layer2 == bottleneck_layer_spec(seq!["layer2"@], 256, 128, 2, c2 as nat)
            &&& net.layer3 == bottleneck_layer_spec(seq!["layer3"@], 512, 256, 2, c3 as nat)
            &&& net.layer4 == bottleneck_layer_spec(seq!["layer4"@], 1024, 512, 2, c4 as nat)
            &&& net.linear == match nclasses {
                Some(n) => Some(LinearSpec { path: seq!["fc"@], in_dim: 2048, out_dim: n }),
                None => None,
            }
            &&& net.request_seq() == seq![conv_request(net.conv1), norm_request(net.bn1)]
                + bottleneck_stack_request_seq(net.layer1) + bottleneck_stack_request_seq(net.layer2)
                + bottleneck_stack_request_seq(net.layer3) + bottleneck_stack_request_seq(net.layer4)
                + match nclasses {
                    Some(n) => seq![linear_request(LinearSpec { path: seq!["fc"@], in_dim: 2048, out_dim: n })],
                    None => Seq::empty(),
                }
        }),
{
}

// ---------------------------------------------------------------------------
// Which inputs make a forward pass panic

/// A convolution panics in candle exactly on a zero stride, a zero kernel, or
/// an accepted input (4 dimensions, its input channels) with a spatial length
/// below `ksize - 2 * padding`; `can_run` tests this.
pub proof fn law_conv_panics_exactly(c: ConvSpec, d: Seq<usize>)
    ensures
        crate::blocks::conv_safe(c, d) <==> {
            &&& c.stride > 0
            &&& c.ksize > 0
            &&& d.len() == 4 && d[1] == c.in_planes ==> d[2] + 2 * c.padding >= c.ksize && d[3] + 2 * c.padding >= c.ksize
        },
{
}

/// Blocks built with a positive stride never panic on an input whose spatial
/// axes are non-empty; a block built with stride 0 panics on every input.
pub proof fn law_blocks_panic_only_on_empty_axes(path: Seq<Seq<char>>, in_planes: usize, out_planes: usize, stride: usize, e: usize, d: Seq<usize>)
    requires
        e * out_planes <= usize::MAX,
    ensures
        stride > 0 && (d.len() == 4 ==> d[2] >= 1 && d[3] >= 1) ==> {
            &&& basic_block_spec(path, in_planes, out_planes, stride).safe(d)
            &&& bottleneck_block_spec(path, in_planes, out_planes, stride, e).safe(d)
        },
        stride == 0 ==> !basic_block_spec(path, in_planes, out_planes, stride).safe(d),
        stride == 0 ==> !crate::blocks::downsample_layers(path, in_planes, out_planes, stride).safe(d),
{
    if stride > 0 && (d.len() == 4 ==> d[2] >= 1 && d[3] >= 1) {
        crate::resnet::lemma_basic_block_runnable(basic_block_spec(path, in_planes, out_planes, stride), d);
        crate::resnet::lemma_bottleneck_block_runnable(bottleneck_block_spec(path, in_planes, out_planes, stride, e), d);
    }
}

} // verus!
