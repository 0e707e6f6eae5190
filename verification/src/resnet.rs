//! The networks: ResNet-18/34 from basic blocks and ResNet-50/101/152 from
//! bottleneck blocks.
use vstd::prelude::*;
use crate::blocks::{
    BasicBlock, BasicBlockSpec, BottleneckBlock, BottleneckBlockSpec, basic_block_spec,
    bottleneck_block_spec, conv_accepts, conv_expr, conv_out, conv_safe, conv_spec, lift,
    norm_expr, norm_spec, relu_expr,
};
use crate::error::NetError;
use crate::names::{child, child_path, decimal, decimal_string, single_path};
use crate::params::{
    ConvLayer, ConvSpec, LayerRequest, LinearLayer, LinearSpec, Loaded, NormLayer, NormSpec,
    ParamRequest, all_fitted, answers_fit, conv_forward, conv_request, explained,
    failed_in_order, lemma_explained_subset, lemma_fails_after, lemma_fails_extend,
    lemma_fails_one, lemma_fitted_concat, lemma_fitted_one, lemma_refused, lemma_step_fail,
    lemma_step_ok, linear_forward,
    linear_request, load_conv, load_linear, load_norm, norm_forward, norm_request,
};
use crate::sequential::{
    Sequential, basic_specs, basic_stack_accepts, basic_stack_expr, basic_stack_out,
    basic_stack_safe, bottleneck_specs, bottleneck_stack_accepts, bottleneck_stack_expr,
    bottleneck_stack_out, bottleneck_stack_safe,
};
use crate::tensor::{
    Activation, Axis, CandleError, Expr, flatten_from, flatten_from_dims, max_pool2d, mean, mean_keepdim, pad_with_same,
    pool_len, relu,
};

verus! {

// ---------------------------------------------------------------------------
// Layers of blocks

/// Every block was built from the loader's answers.
pub open spec fn basic_blocks_loaded_by<F: Fn(&ParamRequest) -> Result<Loaded, CandleError>>(blocks: Seq<BasicBlock>, load: F) -> bool {
    forall|i: int| 0 <= i < blocks.len() ==> #[trigger] blocks[i].loaded_by(load)
}

/// Every block was built from the loader's answers.
pub open spec fn bottleneck_blocks_loaded_by<F: Fn(&ParamRequest) -> Result<Loaded, CandleError>>(blocks: Seq<BottleneckBlock>, load: F) -> bool {
    forall|i: int| 0 <= i < blocks.len() ==> #[trigger] blocks[i].loaded_by(load)
}

/// The requests made to the loader for a stack of basic blocks: those of each block.
pub open spec fn basic_stack_requests(blocks: Seq<BasicBlockSpec>) -> Set<LayerRequest> {
    Set::new(|req: LayerRequest| exists|i: int| 0 <= i < blocks.len() && #[trigger] blocks[i].requests().contains(req))
}

/// The requests made to the loader for a stack of bottleneck blocks: those of each block.
pub open spec fn bottleneck_stack_requests(blocks: Seq<BottleneckBlockSpec>) -> Set<LayerRequest> {
    Set::new(|req: LayerRequest| exists|i: int| 0 <= i < blocks.len() && #[trigger] blocks[i].requests().contains(req))
}

/// The requests made for a stack of basic blocks, in order: block by block.
pub open spec fn basic_stack_request_seq(blocks: Seq<BasicBlockSpec>) -> Seq<LayerRequest>
    decreases blocks.len(),
{
    if blocks.len() == 0 {
        Seq::empty()
    } else {
        basic_stack_request_seq(blocks.drop_last()) + blocks.last().request_seq()
    }
}

/// The requests made for a stack of bottleneck blocks, in order: block by block.
pub open spec fn bottleneck_stack_request_seq(blocks: Seq<BottleneckBlockSpec>) -> Seq<LayerRequest>
    decreases blocks.len(),
{
    if blocks.len() == 0 {
        Seq::empty()
    } else {
        bottleneck_stack_request_seq(blocks.drop_last()) + blocks.last().request_seq()
    }
}

/// The requests of the first blocks of a stack come first in its requests.
proof fn lemma_basic_stack_seq_prefix(blocks: Seq<BasicBlockSpec>, j: int)
    requires
        0 <= j <= blocks.len(),
    ensures
        basic_stack_request_seq(blocks.take(j)).len() <= basic_stack_request_seq(blocks).len(),
        basic_stack_request_seq(blocks).take(basic_stack_request_seq(blocks.take(j)).len() as int)
            == basic_stack_request_seq(blocks.take(j)),
    decreases blocks.len(),
{
    let all = basic_stack_request_seq(blocks);
    if j == blocks.len() {
        assert(blocks.take(j) =~= blocks);
        assert(all.take(all.len() as int) =~= all);
    } else {
        lemma_basic_stack_seq_prefix(blocks.drop_last(), j);
        assert(blocks.drop_last().take(j) =~= blocks.take(j));
        let p = basic_stack_request_seq(blocks.take(j));
        let a = basic_stack_request_seq(blocks.drop_last());
        assert(all.take(p.len() as int) =~= a.take(p.len() as int));
    }
}

/// The requests of the first blocks of a stack come first in its requests.
proof fn lemma_bottleneck_stack_seq_prefix(blocks: Seq<BottleneckBlockSpec>, j: int)
    requires
        0 <= j <= blocks.len(),
    ensures
        bottleneck_stack_request_seq(blocks.take(j)).len() <= bottleneck_stack_request_seq(blocks).len(),
        bottleneck_stack_request_seq(blocks).take(bottleneck_stack_request_seq(blocks.take(j)).len() as int)
            == bottleneck_stack_request_seq(blocks.take(j)),
    decreases blocks.len(),
{
    let all = bottleneck_stack_request_seq(blocks);
    if j == blocks.len() {
        assert(blocks.take(j) =~= blocks);
        assert(all.take(all.len() as int) =~= all);
    } else {
        lemma_bottleneck_stack_seq_prefix(blocks.drop_last(), j);
        assert(blocks.drop_last().take(j) =~= blocks.take(j));
        let p = bottleneck_stack_request_seq(blocks.take(j));
        let a = bottleneck_stack_request_seq(blocks.drop_last());
        assert(all.take(p.len() as int) =~= a.take(p.len() as int));
    }
}

/// The `cnt` basic blocks of a layer under `path`, block `i` under segment
/// `i` written in decimal: the first block goes from `in_planes` to
/// `out_planes` channels with the layer's stride, the others keep
/// `out_planes` channels with stride 1.
pub open spec fn basic_layer_spec(path: Seq<Seq<char>>, in_planes: usize, out_planes: usize, stride: usize, cnt: nat) -> Seq<BasicBlockSpec> {
    Seq::new(cnt, |i: int| basic_block_spec(
        child(path, decimal(i as nat)),
        if i == 0 { in_planes } else { out_planes },
        out_planes,
        if i == 0 { stride } else { 1 },
    ))
}

/// Loads the `cnt` basic blocks of a layer under `path`, in order.
fn basic_layer<F>(load: &F, path: &Vec<String>, in_planes: usize, out_planes: usize, stride: usize, cnt: usize) -> (r: Result<Sequential<BasicBlock>, NetError>)
    where F: Fn(&ParamRequest) -> Result<Loaded, CandleError>,
    requires
        forall|q: &ParamRequest| #[trigger] load.requires((q,)),
    ensures
        r matches Ok(s) ==> basic_specs(s@) == basic_layer_spec(path.deep_view(), in_planes, out_planes, stride, cnt as nat),
        r matches Ok(s) ==> basic_blocks_loaded_by(s@, *load),
        r matches Err(e) ==> explained(*load, basic_stack_requests(basic_layer_spec(path.deep_view(), in_planes, out_planes, stride, cnt as nat)), e),
        answers_fit(*load, basic_stack_requests(basic_layer_spec(path.deep_view(), in_planes, out_planes, stride, cnt as nat))) ==> r is Ok,
        r is Ok ==> all_fitted(*load, basic_stack_request_seq(basic_layer_spec(path.deep_view(), in_planes, out_planes, stride, cnt as nat))),
        r matches Err(e) ==> failed_in_order(*load, basic_stack_request_seq(basic_layer_spec(path.deep_view(), in_planes, out_planes, stride, cnt as nat)), e),
{
    let ghost want = basic_layer_spec(path.deep_view(), in_planes, out_planes, stride, cnt as nat);
    let mut layers: Sequential<BasicBlock> = crate::sequential::seq(cnt);
    let mut block_index: usize = 0;
    assert(basic_stack_request_seq(want.take(0)) =~= Seq::<LayerRequest>::empty());
    while block_index < cnt
        invariant
            block_index <= cnt,
            forall|q: &ParamRequest| #[trigger] load.requires((q,)),
            want == basic_layer_spec(path.deep_view(), in_planes, out_planes, stride, cnt as nat),
            basic_specs(layers@) == want.take(block_index as int),
            layers@.len() == block_index,
            basic_blocks_loaded_by(layers@, *load),
            all_fitted(*load, basic_stack_request_seq(want.take(block_index as int))),
        decreases cnt - block_index,
    {
        let l_in = if block_index == 0 { in_planes } else { out_planes };
        let stride = if block_index == 0 { stride } else { 1 };
        let name = decimal_string(block_index);
        let layer = match BasicBlock::new(load, &child_path(path, name.as_str()), l_in, out_planes, stride) {
            Ok(b) => b,
            Err(e) => {
                proof {
                    let b = want[block_index as int];
                    assert(b == basic_block_spec(child(path.deep_view(), decimal(block_index as nat)), l_in, out_planes, stride));
                    assert(b.requests().subset_of(basic_stack_requests(want)));
                    lemma_explained_subset(*load, b.requests(), basic_stack_requests(want), e);
                    let done = basic_stack_request_seq(want.take(block_index as int));
                    lemma_fails_after(*load, done, b.request_seq(), e);
                    assert(want.take(block_index + 1).drop_last() =~= want.take(block_index as int));
                    assert(want.take(block_index + 1).last() == b);
                    assert(basic_stack_request_seq(want.take(block_index + 1)) == done + b.request_seq());
                    lemma_basic_stack_seq_prefix(want, block_index + 1);
                    lemma_fails_extend(*load, done + b.request_seq(), basic_stack_request_seq(want), e);
                }
                return Err(e);
            },
        };
        let ghost before = layers@;
        layers.push(layer);
        proof {
            assert(layer@ == want[block_index as int]);
            assert(layers@ == before.push(layer));
            assert(basic_specs(layers@) =~= basic_specs(before).push(layer@));
            assert(basic_specs(layers@) =~= want.take(block_index + 1));
            let b = want[block_index as int];
            let done = basic_stack_request_seq(want.take(block_index as int));
            lemma_fitted_concat(*load, done, b.request_seq());
            assert(want.take(block_index + 1).drop_last() =~= want.take(block_index as int));
            assert(want.take(block_index + 1).last() == b);
            assert(basic_stack_request_seq(want.take(block_index + 1)) == done + b.request_seq());
        }
        block_index = block_index + 1;
    }
    proof {
        assert(want.take(cnt as int) =~= want);
    }
    Ok(layers)
}

/// The `cnt` bottleneck blocks (expansion 4) of a layer under `path`: block `0`
/// from `in_planes` channels with the layer's stride, then blocks `1..cnt`
/// from `4 * out_planes` channels with stride 1.
pub open spec fn bottleneck_layer_spec(path: Seq<Seq<char>>, in_planes: usize, out_planes: usize, stride: usize, cnt: nat) -> Seq<BottleneckBlockSpec> {
    Seq::new(if cnt == 0 { 1 } else { cnt }, |i: int| bottleneck_block_spec(
        child(path, decimal(i as nat)),
        if i == 0 { in_planes } else { (4 * out_planes) as usize },
        out_planes,
        if i == 0 { stride } else { 1 },
        4,
    ))
}

/// Loads the bottleneck blocks of a layer under `path`: block `0` always,
/// then blocks `1..cnt`.
fn bottleneck_layer<F>(load: &F, path: &Vec<String>, in_planes: usize, out_planes: usize, stride: usize, cnt: usize) -> (r: Result<Sequential<BottleneckBlock>, NetError>)
    where F: Fn(&ParamRequest) -> Result<Loaded, CandleError>,
    requires
        forall|q: &ParamRequest| #[trigger] load.requires((q,)),
        4 * out_planes <= usize::MAX,
    ensures
        r matches Ok(s) ==> bottleneck_specs(s@) == bottleneck_layer_spec(path.deep_view(), in_planes, out_planes, stride, cnt as nat),
        r matches Ok(s) ==> bottleneck_blocks_loaded_by(s@, *load),
        r matches Err(e) ==> explained(*load, bottleneck_stack_requests(bottleneck_layer_spec(path.deep_view(), in_planes, out_planes, stride, cnt as nat)), e),
        answers_fit(*load, bottleneck_stack_requests(bottleneck_layer_spec(path.deep_view(), in_planes, out_planes, stride, cnt as nat))) ==> r is Ok,
        r is Ok ==> all_fitted(*load, bottleneck_stack_request_seq(bottleneck_layer_spec(path.deep_view(), in_planes, out_planes, stride, cnt as nat))),
        r matches Err(e) ==> failed_in_order(*load, bottleneck_stack_request_seq(bottleneck_layer_spec(path.deep_view(), in_planes, out_planes, stride, cnt as nat)), e),
{
    let ghost want = bottleneck_layer_spec(path.deep_view(), in_planes, out_planes, stride, cnt as nat);
    let mut blocks: Sequential<BottleneckBlock> = crate::sequential::seq(cnt);
    proof {
        reveal_strlit("0");
        assert(decimal(0) == "0"@);
    }
    let first = match BottleneckBlock::new(load, &child_path(path, "0"), in_planes, out_planes, stride, 4) {
        Ok(b) => b,
        Err(e) => {
            proof {
                let b = want[0];
                assert(b.requests().subset_of(bottleneck_stack_requests(want)));
                lemma_explained_subset(*load, b.requests(), bottleneck_stack_requests(want), e);
                assert(want.take(1).drop_last() =~= Seq::<BottleneckBlockSpec>::empty());
                assert(want.take(1).last() == b);
                assert(want.take(1).len() == 1);
        assert(bottleneck_stack_request_seq(Seq::<BottleneckBlockSpec>::empty()) =~= Seq::<LayerRequest>::empty());
        assert(bottleneck_stack_request_seq(want.take(1)) =~= Seq::<LayerRequest>::empty() + b.request_seq());
                lemma_bottleneck_stack_seq_prefix(want, 1);
                lemma_fails_extend(*load, b.request_seq(), bottleneck_stack_request_seq(want), e);
            }
            return Err(e);
        },
    };
    blocks.add(first);
    proof {
        assert(bottleneck_specs(blocks@) =~= want.take(1));
        assert(want.take(1).drop_last() =~= Seq::<BottleneckBlockSpec>::empty());
        assert(want.take(1).last() == want[0]);
        assert(want.take(1).len() == 1);
        assert(bottleneck_stack_request_seq(Seq::<BottleneckBlockSpec>::empty()) =~= Seq::<LayerRequest>::empty());
        assert(bottleneck_stack_request_seq(want.take(1)) =~= Seq::<LayerRequest>::empty() + want[0].request_seq());
    }
    let mut block_index: usize = 1;
    while block_index < cnt
        invariant
            1 <= block_index,
            block_index <= want.len(),
            4 * out_planes <= usize::MAX,
            forall|q: &ParamRequest| #[trigger] load.requires((q,)),
            want == bottleneck_layer_spec(path.deep_view(), in_planes, out_planes, stride, cnt as nat),
            bottleneck_specs(blocks@) == want.take(block_index as int),
            blocks@.len() == block_index,
            bottleneck_blocks_loaded_by(blocks@, *load),
            all_fitted(*load, bottleneck_stack_request_seq(want.take(block_index as int))),
        decreases cnt - block_index,
    {
        let name = decimal_string(block_index);
        let block = match BottleneckBlock::new(load, &child_path(path, name.as_str()), 4 * out_planes, out_planes, 1, 4) {
            Ok(b) => b,
            Err(e) => {
                proof {
                    let b = want[block_index as int];
                    assert(b == bottleneck_block_spec(child(path.deep_view(), decimal(block_index as nat)), (4 * out_planes) as usize, out_planes, 1, 4));
                    assert(b.requests().subset_of(bottleneck_stack_requests(want)));
                    lemma_explained_subset(*load, b.requests(), bottleneck_stack_requests(want), e);
                    let done = bottleneck_stack_request_seq(want.take(block_index as int));
                    lemma_fails_after(*load, done, b.request_seq(), e);
                    assert(want.take(block_index + 1).drop_last() =~= want.take(block_index as int));
                    assert(want.take(block_index + 1).last() == b);
                    assert(bottleneck_stack_request_seq(want.take(block_index + 1)) == done + b.request_seq());
                    lemma_bottleneck_stack_seq_prefix(want, block_index + 1);
                    lemma_fails_extend(*load, done + b.request_seq(), bottleneck_stack_request_seq(want), e);
                }
                return Err(e);
            },
        };
        let ghost before = blocks@;
        blocks.add(block);
        proof {
            assert(block@ == want[block_index as int]);
            assert(blocks@ == before.push(block));
            assert(bottleneck_specs(blocks@) =~= bottleneck_specs(before).push(block@));
            assert(bottleneck_specs(blocks@) =~= want.take(block_index + 1));
            let b = want[block_index as int];
            let done = bottleneck_stack_request_seq(want.take(block_index as int));
            lemma_fitted_concat(*load, done, b.request_seq());
            assert(want.take(block_index + 1).drop_last() =~= want.take(block_index as int));
            assert(want.take(block_index + 1).last() == b);
            assert(bottleneck_stack_request_seq(want.take(block_index + 1)) == done + b.request_seq());
        }
        block_index = block_index + 1;
    }
    proof {
        assert(want.take(block_index as int) =~= want);
    }
    Ok(blocks)
}

// ---------------------------------------------------------------------------
// Which layers run without panicking

/// A convolution whose kernel is `2 * padding + 1` wide and whose stride is
/// positive: it runs on every input with non-empty spatial axes and keeps
/// them non-empty.
pub open spec fn conv_runnable(c: ConvSpec) -> bool {
    c.ksize == 2 * c.padding + 1 && c.stride > 0
}

/// A 4-dimensional shape has non-empty spatial axes.
pub open spec fn spatial_nonempty(d: Seq<usize>) -> bool {
    d.len() == 4 ==> d[2] >= 1 && d[3] >= 1
}

impl BasicBlockSpec {
    /// Every convolution of the block is runnable.
    pub open spec fn runnable(self) -> bool {
        &&& conv_runnable(self.conv1)
        &&& conv_runnable(self.conv2)
        &&& match self.downsample {
            Some(s) => conv_runnable(s.conv),
            None => true,
        }
    }
}

impl BottleneckBlockSpec {
    /// Every convolution of the block is runnable.
    pub open spec fn runnable(self) -> bool {
        &&& conv_runnable(self.conv1)
        &&& conv_runnable(self.conv2)
        &&& conv_runnable(self.conv3)
        &&& conv_runnable(self.downsample.conv)
    }
}

/// A runnable convolution does not panic on inputs with non-empty spatial
/// axes, and what it produces has non-empty spatial axes again.
proof fn lemma_conv_runnable(c: ConvSpec, d: Seq<usize>)
    requires
        conv_runnable(c),
        conv_accepts(c, d) ==> d[2] >= 1 && d[3] >= 1,
    ensures
        conv_safe(c, d),
        conv_accepts(c, d) ==> conv_out(c, d).len() == 4 && spatial_nonempty(conv_out(c, d)),
{
    if conv_accepts(c, d) {
        crate::laws::lemma_odd_kernel_len(d[2], c.padding as int, c.stride);
        crate::laws::lemma_odd_kernel_len(d[3], c.padding as int, c.stride);
    }
}

pub(crate) proof fn lemma_basic_block_runnable(b: BasicBlockSpec, d: Seq<usize>)
    requires
        b.runnable(),
        spatial_nonempty(d),
    ensures
        b.safe(d),
        b.accepts(d) ==> {
            &&& b.out_dims(d).len() == 4
            &&& spatial_nonempty(b.out_dims(d))
            &&& b.out_dims(d)[0] == d[0]
            &&& b.out_dims(d)[1] == b.conv2.out_planes
        },
{
    lemma_conv_runnable(b.conv1, d);
    if conv_accepts(b.conv1, d) {
        lemma_conv_runnable(b.conv2, conv_out(b.conv1, d));
        match b.downsample {
            Some(s) => lemma_conv_runnable(s.conv, d),
            None => {},
        }
    }
}

pub(crate) proof fn lemma_bottleneck_block_runnable(b: BottleneckBlockSpec, d: Seq<usize>)
    requires
        b.runnable(),
        spatial_nonempty(d),
    ensures
        b.safe(d),
        b.accepts(d) ==> {
            &&& b.out_dims(d).len() == 4
            &&& spatial_nonempty(b.out_dims(d))
            &&& b.out_dims(d)[0] == d[0]
            &&& b.out_dims(d)[1] == b.conv3.out_planes
        },
{
    lemma_conv_runnable(b.conv1, d);
    lemma_conv_runnable(b.downsample.conv, d);
    if conv_accepts(b.conv1, d) {
        lemma_conv_runnable(b.conv2, b.dims1(d));
        if conv_accepts(b.conv2, b.dims1(d)) {
            lemma_conv_runnable(b.conv3, b.dims2(d));
        }
    }
}

/// Every block of the stack is runnable.
pub open spec fn basic_stack_runnable(blocks: Seq<BasicBlockSpec>) -> bool {
    forall|i: int| 0 <= i < blocks.len() ==> #[trigger] blocks[i].runnable()
}

/// Every block of the stack is runnable.
pub open spec fn bottleneck_stack_runnable(blocks: Seq<BottleneckBlockSpec>) -> bool {
    forall|i: int| 0 <= i < blocks.len() ==> #[trigger] blocks[i].runnable()
}

/// What a stack of runnable basic blocks produces keeps the batch axis, has
/// the channels of the last block and non-empty spatial axes.
proof fn lemma_basic_stack_out(blocks: Seq<BasicBlockSpec>, d: Seq<usize>)
    requires
        basic_stack_runnable(blocks),
        d.len() == 4,
        spatial_nonempty(d),
    ensures
        basic_stack_accepts(blocks, d) ==> {
            &&& basic_stack_out(blocks, d).len() == 4
            &&& spatial_nonempty(basic_stack_out(blocks, d))
            &&& basic_stack_out(blocks, d)[0] == d[0]
            &&& blocks.len() > 0 ==> basic_stack_out(blocks, d)[1] == blocks.last().conv2.out_planes
        },
    decreases blocks.len(),
{
    if blocks.len() > 0 {
        let rest = blocks.drop_last();
        assert(basic_stack_runnable(rest)) by {
            assert forall|i: int| 0 <= i < rest.len() implies #[trigger] rest[i].runnable() by {
                assert(rest[i] == blocks[i]);
            }
        }
        lemma_basic_stack_out(rest, d);
        assert(blocks.last() == blocks[blocks.len() - 1]);
        if basic_stack_accepts(blocks, d) {
            lemma_basic_block_runnable(blocks.last(), basic_stack_out(rest, d));
        }
    }
}

/// A stack of runnable basic blocks does not panic on inputs with non-empty
/// spatial axes.
proof fn lemma_basic_stack_safe(blocks: Seq<BasicBlockSpec>, d: Seq<usize>)
    requires
        basic_stack_runnable(blocks),
        d.len() == 4,
        spatial_nonempty(d),
    ensures
        basic_stack_safe(blocks, d),
{
    assert forall|i: int|
        0 <= i < blocks.len() && #[trigger] basic_stack_accepts(blocks.take(i), d)
        implies blocks[i].safe(basic_stack_out(blocks.take(i), d)) by {
        let pre = blocks.take(i);
        assert(basic_stack_runnable(pre)) by {
            assert forall|j: int| 0 <= j < pre.len() implies #[trigger] pre[j].runnable() by {
                assert(pre[j] == blocks[j]);
            }
        }
        lemma_basic_stack_out(pre, d);
        lemma_basic_block_runnable(blocks[i], basic_stack_out(pre, d));
    }
}

/// What a stack of runnable bottleneck blocks produces keeps the batch axis,
/// has the channels of the last block and non-empty spatial axes.
proof fn lemma_bottleneck_stack_out(blocks: Seq<BottleneckBlockSpec>, d: Seq<usize>)
    requires
        bottleneck_stack_runnable(blocks),
        d.len() == 4,
        spatial_nonempty(d),
    ensures
        bottleneck_stack_accepts(blocks, d) ==> {
            &&& bottleneck_stack_out(blocks, d).len() == 4
            &&& spatial_nonempty(bottleneck_stack_out(blocks, d))
            &&& bottleneck_stack_out(blocks, d)[0] == d[0]
            &&& blocks.len() > 0 ==> bottleneck_stack_out(blocks, d)[1] == blocks.last().conv3.out_planes
        },
    decreases blocks.len(),
{
    if blocks.len() > 0 {
        let rest = blocks.drop_last();
        assert(bottleneck_stack_runnable(rest)) by {
            assert forall|i: int| 0 <= i < rest.len() implies #[trigger] rest[i].runnable() by {
                assert(rest[i] == blocks[i]);
            }
        }
        lemma_bottleneck_stack_out(rest, d);
        assert(blocks.last() == blocks[blocks.len() - 1]);
        if bottleneck_stack_accepts(blocks, d) {
            lemma_bottleneck_block_runnable(blocks.last(), bottleneck_stack_out(rest, d));
        }
    }
}

/// A stack of runnable bottleneck blocks does not panic on inputs with
/// non-empty spatial axes.
proof fn lemma_bottleneck_stack_safe(blocks: Seq<BottleneckBlockSpec>, d: Seq<usize>)
    requires
        bottleneck_stack_runnable(blocks),
        d.len() == 4,
        spatial_nonempty(d),
    ensures
        bottleneck_stack_safe(blocks, d),
{
    assert forall|i: int|
        0 <= i < blocks.len() && #[trigger] bottleneck_stack_accepts(blocks.take(i), d)
        implies blocks[i].safe(bottleneck_stack_out(blocks.take(i), d)) by {
        let pre = blocks.take(i);
        assert(bottleneck_stack_runnable(pre)) by {
            assert forall|j: int| 0 <= j < pre.len() implies #[trigger] pre[j].runnable() by {
                assert(pre[j] == blocks[j]);
            }
        }
        lemma_bottleneck_stack_out(pre, d);
        lemma_bottleneck_block_runnable(blocks[i], bottleneck_stack_out(pre, d));
    }
}

/// Every block of a layer built with a positive stride is runnable.
proof fn lemma_basic_layer_runnable(path: Seq<Seq<char>>, in_planes: usize, out_planes: usize, stride: usize, cnt: nat)
    requires
        stride > 0,
    ensures
        basic_stack_runnable(basic_layer_spec(path, in_planes, out_planes, stride, cnt)),
{
}

/// Every block of a layer built with a positive stride is runnable.
proof fn lemma_bottleneck_layer_runnable(path: Seq<Seq<char>>, in_planes: usize, out_planes: usize, stride: usize, cnt: nat)
    requires
        stride > 0,
    ensures
        bottleneck_stack_runnable(bottleneck_layer_spec(path, in_planes, out_planes, stride, cnt)),
{
}

// ---------------------------------------------------------------------------
// ResNet-18/34

/// The description of a ResNet with basic blocks.
pub struct ResNetSpec {
    pub conv1: ConvSpec,
    pub bn1: NormSpec,
    pub layer1: Seq<BasicBlockSpec>,
    pub layer2: Seq<BasicBlockSpec>,
    pub layer3: Seq<BasicBlockSpec>,
    pub layer4: Seq<BasicBlockSpec>,
    pub linear: Option<LinearSpec>,
}

/// The network with `c1..c4` basic blocks in its four layers: `conv1` (7x7,
/// 3 to 64 channels, padding 3, stride 2), `bn1`, then `layer1` (64 to 64
/// channels, stride 1), `layer2` (64 to 128, stride 2), `layer3` (128 to 256,
/// stride 2), `layer4` (256 to 512, stride 2), and `fc` (512 to `n`) when
/// `nclasses` is `Some(n)`. Paths start at the loader's root.
pub open spec fn resnet_spec(nclasses: Option<usize>, c1: usize, c2: usize, c3: usize, c4: usize) -> ResNetSpec {
    ResNetSpec {
        conv1: conv_spec(seq!["conv1"@], 3, 64, 7, 3, 2),
        bn1: norm_spec(seq!["bn1"@], 64),
        layer1: basic_layer_spec(seq!["layer1"@], 64, 64, 1, c1 as nat),
        layer2: basic_layer_spec(seq!["layer2"@], 64, 128, 2, c2 as nat),
        layer3: basic_layer_spec(seq!["layer3"@], 128, 256, 2, c3 as nat),
        layer4: basic_layer_spec(seq!["layer4"@], 256, 512, 2, c4 as nat),
        linear: match nclasses {
            Some(n) => Some(LinearSpec { path: seq!["fc"@], in_dim: 512, out_dim: n }),
            None => None,
        },
    }
}

impl ResNetSpec {
    /// Dimensions after `conv1`.
    pub open spec fn conv1_out(self, d: Seq<usize>) -> Seq<usize> {
        conv_out(self.conv1, d)
    }

    /// Dimensions after `conv1`, `bn1`, relu and the padding of both spatial axes by one on each side.
    pub open spec fn padded(self, d: Seq<usize>) -> Seq<usize> {
        let c = self.conv1_out(d);
        seq![c[0], c[1], (c[2] + 1 + 1) as usize, (c[3] + 1 + 1) as usize]
    }

    /// What the stem (up to the max pooling) requires.
    pub open spec fn stem_accepts(self, d: Seq<usize>) -> bool {
        &&& conv_accepts(self.conv1, d)
        &&& self.conv1.out_planes == self.bn1.num_features
        &&& self.padded(d)[2] >= 3
        &&& self.padded(d)[3] >= 3
    }

    /// Dimensions after the 3x3 max pooling with stride 2.
    pub open spec fn stem_out(self, d: Seq<usize>) -> Seq<usize> {
        let p = self.padded(d);
        seq![p[0], p[1], pool_len(p[2] as int, 3, 2) as usize, pool_len(p[3] as int, 3, 2) as usize]
    }

    /// Dimensions after `layer1`.
    pub open spec fn out1(self, d: Seq<usize>) -> Seq<usize> {
        basic_stack_out(self.layer1, self.stem_out(d))
    }

    /// Dimensions after `layer2`.
    pub open spec fn out2(self, d: Seq<usize>) -> Seq<usize> {
        basic_stack_out(self.layer2, self.out1(d))
    }

    /// Dimensions after `layer3`.
    pub open spec fn out3(self, d: Seq<usize>) -> Seq<usize> {
        basic_stack_out(self.layer3, self.out2(d))
    }

    /// Dimensions after `layer4`.
    pub open spec fn out4(self, d: Seq<usize>) -> Seq<usize> {
        basic_stack_out(self.layer4, self.out3(d))
    }

    /// What the stem and the four layers require.
    pub open spec fn body_accepts(self, d: Seq<usize>) -> bool {
        &&& self.stem_accepts(d)
        &&& basic_stack_accepts(self.layer1, self.stem_out(d))
        &&& basic_stack_accepts(self.layer2, self.out1(d))
        &&& basic_stack_accepts(self.layer3, self.out2(d))
        &&& basic_stack_accepts(self.layer4, self.out3(d))
    }

    /// Dimensions after averaging over the last axis twice.
    pub open spec fn pooled(self, d: Seq<usize>) -> Seq<usize> {
        let e = self.out4(d);
        e.remove(e.len() - 1).remove(e.len() - 2)
    }

    /// What a successful forward pass requires of the input dimensions.
    pub open spec fn accepts(self, d: Seq<usize>) -> bool {
        &&& self.body_accepts(d)
        &&& self.out4(d).len() >= 2
        &&& match self.linear {
            Some(l) => 2 <= self.pooled(d).len() <= 4 && self.pooled(d).last() == l.in_dim,
            None => true,
        }
    }

    /// The dimensions a successful forward pass produces.
    pub open spec fn out_dims(self, d: Seq<usize>) -> Seq<usize> {
        match self.linear {
            Some(l) => self.pooled(d).update(self.pooled(d).len() - 1, l.out_dim),
            None => self.pooled(d),
        }
    }

    /// Every convolution of the network is runnable.
    pub open spec fn runnable(self) -> bool {
        &&& conv_runnable(self.conv1)
        &&& basic_stack_runnable(self.layer1)
        &&& basic_stack_runnable(self.layer2)
        &&& basic_stack_runnable(self.layer3)
        &&& basic_stack_runnable(self.layer4)
    }

    /// What the stem computes from `x`: conv1, bn1, relu, padding of the last
    /// then the second-to-last axis by one on each side, 3x3 max pooling with stride 2.
    pub open spec fn stem_expr(self, x: Expr) -> Expr {
        Expr::MaxPool(3, 2, Box::new(Expr::PadSame(Axis::SecondLast, 1, 1, Box::new(
            Expr::PadSame(Axis::Last, 1, 1, Box::new(relu_expr(norm_expr(self.bn1, conv_expr(self.conv1, x)))))))))
    }

    /// What the stem and the four layers compute from `x`.
    pub open spec fn body_expr(self, x: Expr) -> Expr {
        basic_stack_expr(self.layer4, basic_stack_expr(self.layer3,
            basic_stack_expr(self.layer2, basic_stack_expr(self.layer1, self.stem_expr(x)))))
    }

    /// The features: the body's result averaged over the last axis twice.
    pub open spec fn features_expr(self, x: Expr) -> Expr {
        Expr::Mean(Axis::Last, Box::new(Expr::Mean(Axis::Last, Box::new(self.body_expr(x)))))
    }

    /// What the network computes from `x`: the features, then fc when there is one.
    pub open spec fn expr(self, x: Expr) -> Expr {
        match self.linear {
            Some(l) => Expr::Linear(l, Box::new(self.features_expr(x))),
            None => self.features_expr(x),
        }
    }

    /// The requests made to the loader for the network's layers.
    pub open spec fn requests(self) -> Set<LayerRequest> {
        set![conv_request(self.conv1), norm_request(self.bn1)]
            + basic_stack_requests(self.layer1)
            + basic_stack_requests(self.layer2)
            + basic_stack_requests(self.layer3)
            + basic_stack_requests(self.layer4)
            + optional_linear_requests(self.linear)
    }

    /// The same requests in the order they are made: conv1, bn1, the blocks of
    /// layer1 .. layer4 in order, then fc when there is one.
    pub open spec fn request_seq(self) -> Seq<LayerRequest> {
        seq![conv_request(self.conv1), norm_request(self.bn1)]
            + basic_stack_request_seq(self.layer1)
            + basic_stack_request_seq(self.layer2)
            + basic_stack_request_seq(self.layer3)
            + basic_stack_request_seq(self.layer4)
            + optional_linear_request_seq(self.linear)
    }
}

/// The request made for an optional linear layer, as a sequence: none when it is absent.
pub open spec fn optional_linear_request_seq(o: Option<LinearSpec>) -> Seq<LayerRequest> {
    match o {
        Some(l) => seq![linear_request(l)],
        None => Seq::empty(),
    }
}

/// The request made for an optional linear layer: none when it is absent.
pub open spec fn optional_linear_requests(o: Option<LinearSpec>) -> Set<LayerRequest> {
    match o {
        Some(l) => set![linear_request(l)],
        None => Set::empty(),
    }
}

/// A ResNet with basic blocks (ResNet-18, ResNet-34).
#[derive(Debug)]
pub struct ResNet {
    conv1: ConvLayer,
    bn1: NormLayer,
    layer1: Sequential<BasicBlock>,
    layer2: Sequential<BasicBlock>,
    layer3: Sequential<BasicBlock>,
    layer4: Sequential<BasicBlock>,
    linear: Option<LinearLayer>,
}

/// The description of an optional linear layer.
pub open spec fn linear_view(o: Option<LinearLayer>) -> Option<LinearSpec> {
    match o {
        Some(l) => Some(l@),
        None => None,
    }
}

impl View for ResNet {
    type V = ResNetSpec;

    closed spec fn view(&self) -> ResNetSpec {
        ResNetSpec {
            conv1: self.conv1@,
            bn1: self.bn1@,
            layer1: basic_specs(self.layer1@),
            layer2: basic_specs(self.layer2@),
            layer3: basic_specs(self.layer3@),
            layer4: basic_specs(self.layer4@),
            linear: linear_view(self.linear),
        }
    }
}

impl ResNet {
    /// Every layer held is the loader's answer to the request for it.
    pub closed spec fn loaded_by<F: Fn(&ParamRequest) -> Result<Loaded, CandleError>>(&self, load: F) -> bool {
        &&& self.conv1.loaded_by(load)
        &&& self.bn1.loaded_by(load)
        &&& basic_blocks_loaded_by(self.layer1@, load)
        &&& basic_blocks_loaded_by(self.layer2@, load)
        &&& basic_blocks_loaded_by(self.layer3@, load)
        &&& basic_blocks_loaded_by(self.layer4@, load)
        &&& self.linear matches Some(l) ==> l.loaded_by(load)
    }

    #[verifier::type_invariant]
    spec fn runnable_invariant(self) -> bool {
        self@.runnable()
    }

    /// Loads a ResNet with `c1..c4` basic blocks and, when `nclasses` is
    /// `Some(n)`, a final linear layer to `n` classes. The layers are requested
    /// in the order conv1, bn1, layer1 .. layer4 (block by block), fc.
    pub fn new<F>(load: &F, nclasses: Option<usize>, c1: usize, c2: usize, c3: usize, c4: usize) -> (r: Result<ResNet, NetError>)
        where F: Fn(&ParamRequest) -> Result<Loaded, CandleError>,
        requires
            forall|q: &ParamRequest| #[trigger] load.requires((q,)),
        ensures
            r matches Ok(net) ==> net@ == resnet_spec(nclasses, c1, c2, c3, c4),
            r matches Ok(net) ==> net.loaded_by(*load),
            r matches Err(e) ==> explained(*load, resnet_spec(nclasses, c1, c2, c3, c4).requests(), e),
            answers_fit(*load, resnet_spec(nclasses, c1, c2, c3, c4).requests()) ==> r is Ok,
            r is Ok ==> all_fitted(*load, resnet_spec(nclasses, c1, c2, c3, c4).request_seq()),
            r matches Err(e) ==> failed_in_order(*load, resnet_spec(nclasses, c1, c2, c3, c4).request_seq(), e),
    {
        let ghost want = resnet_spec(nclasses, c1, c2, c3, c4);
        let ghost s_all = want.request_seq();
        let ghost mut done = Seq::<LayerRequest>::empty();
        let conv1 = match load_conv(load, single_path("conv1"), 3, 64, 7, 3, 2) {
            Ok(c) => c,
            Err(e) => {
                proof {
                    lemma_refused(*load, conv_request(want.conv1), want.requests(), e);
                    lemma_fails_one(*load, conv_request(want.conv1), e);
                    assert(s_all.take((done.len() + seq![conv_request(want.conv1)].len()) as int) =~= done + seq![conv_request(want.conv1)]);
                    lemma_step_fail(*load, s_all, done, seq![conv_request(want.conv1)], e);
                }
                return Err(e);
            },
        };
        proof {
            lemma_fitted_one(*load, conv_request(want.conv1));
            assert(s_all.take((done.len() + seq![conv_request(want.conv1)].len()) as int) =~= done + seq![conv_request(want.conv1)]);
            lemma_step_ok(*load, s_all, done, seq![conv_request(want.conv1)]);
            done = done + seq![conv_request(want.conv1)];
        }
        let bn1 = match load_norm(load, single_path("bn1"), 64) {
            Ok(n) => n,
            Err(e) => {
                proof {
                    lemma_refused(*load, norm_request(want.bn1), want.requests(), e);
                    lemma_fails_one(*load, norm_request(want.bn1), e);
                    assert(s_all.take((done.len() + seq![norm_request(want.bn1)].len()) as int) =~= done + seq![norm_request(want.bn1)]);
                    lemma_step_fail(*load, s_all, done, seq![norm_request(want.bn1)], e);
                }
                return Err(e);
            },
        };
        proof {
            lemma_fitted_one(*load, norm_request(want.bn1));
            assert(s_all.take((done.len() + seq![norm_request(want.bn1)].len()) as int) =~= done + seq![norm_request(want.bn1)]);
            lemma_step_ok(*load, s_all, done, seq![norm_request(want.bn1)]);
            done = done + seq![norm_request(want.bn1)];
        }
        let layer1 = match basic_layer(load, &single_path("layer1"), 64, 64, 1, c1) {
            Ok(l) => l,
            Err(e) => {
                proof {
                    assert(basic_stack_requests(want.layer1).subset_of(want.requests()));
                    lemma_explained_subset(*load, basic_stack_requests(want.layer1), want.requests(), e);
                    assert(s_all.take((done.len() + basic_stack_request_seq(want.layer1).len()) as int) =~= done + basic_stack_request_seq(want.layer1));
                    lemma_step_fail(*load, s_all, done, basic_stack_request_seq(want.layer1), e);
                }
                return Err(e);
            },
        };
        proof {
            assert(s_all.take((done.len() + basic_stack_request_seq(want.layer1).len()) as int) =~= done + basic_stack_request_seq(want.layer1));
            lemma_step_ok(*load, s_all, done, basic_stack_request_seq(want.layer1));
            done = done + basic_stack_request_seq(want.layer1);
        }
        let layer2 = match basic_layer(load, &single_path("layer2"), 64, 128, 2, c2) {
            Ok(l) => l,
            Err(e) => {
                proof {
                    assert(basic_stack_requests(want.layer2).subset_of(want.requests()));
                    lemma_explained_subset(*load, basic_stack_requests(want.layer2), want.requests(), e);
                    assert(s_all.take((done.len() + basic_stack_request_seq(want.layer2).len()) as int) =~= done + basic_stack_request_seq(want.layer2));
                    lemma_step_fail(*load, s_all, done, basic_stack_request_seq(want.layer2), e);
                }
                return Err(e);
            },
        };
        proof {
            assert(s_all.take((done.len() + basic_stack_request_seq(want.layer2).len()) as int) =~= done + basic_stack_request_seq(want.layer2));
            lemma_step_ok(*load, s_all, done, basic_stack_request_seq(want.layer2));
            done = done + basic_stack_request_seq(want.layer2);
        }
        let layer3 = match basic_layer(load, &single_path("layer3"), 128, 256, 2, c3) {
            Ok(l) => l,
            Err(e) => {
                proof {
                    assert(basic_stack_requests(want.layer3).subset_of(want.requests()));
                    lemma_explained_subset(*load, basic_stack_requests(want.layer3), want.requests(), e);
                    assert(s_all.take((done.len() + basic_stack_request_seq(want.layer3).len()) as int) =~= done + basic_stack_request_seq(want.layer3));
                    lemma_step_fail(*load, s_all, done, basic_stack_request_seq(want.layer3), e);
                }
                return Err(e);
            },
        };
        proof {
            assert(s_all.take((done.len() + basic_stack_request_seq(want.layer3).len()) as int) =~= done + basic_stack_request_seq(want.layer3));
            lemma_step_ok(*load, s_all, done, basic_stack_request_seq(want.layer3));
            done = done + basic_stack_request_seq(want.layer3);
        }
        let layer4 = match basic_layer(load, &single_path("layer4"), 256, 512, 2, c4) {
            Ok(l) => l,
            Err(e) => {
                proof {
                    assert(basic_stack_requests(want.layer4).subset_of(want.requests()));
                    lemma_explained_subset(*load, basic_stack_requests(want.layer4), want.requests(), e);
                    assert(s_all.take((done.len() + basic_stack_request_seq(want.layer4).len()) as int) =~= done + basic_stack_request_seq(want.layer4));
                    lemma_step_fail(*load, s_all, done, basic_stack_request_seq(want.layer4), e);
                }
                return Err(e);
            },
        };
        proof {
            assert(s_all.take((done.len() + basic_stack_request_seq(want.layer4).len()) as int) =~= done + basic_stack_request_seq(want.layer4));
            lemma_step_ok(*load, s_all, done, basic_stack_request_seq(want.layer4));
            done = done + basic_stack_request_seq(want.layer4);
        }
        let linear = match nclasses {
            Some(n) => match load_linear(load, single_path("fc"), 512, n) {
                Ok(l) => {
                    proof {
                        lemma_fitted_one(*load, linear_request(LinearSpec { path: seq!["fc"@], in_dim: 512, out_dim: n }));
                        assert(s_all.take((done.len() + 1) as int) =~= done + seq![linear_request(LinearSpec { path: seq!["fc"@], in_dim: 512, out_dim: n })]);
                        lemma_step_ok(*load, s_all, done, seq![linear_request(LinearSpec { path: seq!["fc"@], in_dim: 512, out_dim: n })]);
                        done = done + seq![linear_request(LinearSpec { path: seq!["fc"@], in_dim: 512, out_dim: n })];
                    }
                    Some(l)
                },
                Err(e) => {
                    proof {
                        lemma_refused(*load, linear_request(LinearSpec { path: seq!["fc"@], in_dim: 512, out_dim: n }), want.requests(), e);
                        lemma_fails_one(*load, linear_request(LinearSpec { path: seq!["fc"@], in_dim: 512, out_dim: n }), e);
                        assert(s_all.take((done.len() + 1) as int) =~= done + seq![linear_request(LinearSpec { path: seq!["fc"@], in_dim: 512, out_dim: n })]);
                        lemma_step_fail(*load, s_all, done, seq![linear_request(LinearSpec { path: seq!["fc"@], in_dim: 512, out_dim: n })], e);
                    }
                    return Err(e);
                },
            },
            None => None,
        };
        proof {
            lemma_basic_layer_runnable(seq!["layer1"@], 64, 64, 1, c1 as nat);
            lemma_basic_layer_runnable(seq!["layer2"@], 64, 128, 2, c2 as nat);
            lemma_basic_layer_runnable(seq!["layer3"@], 128, 256, 2, c3 as nat);
            lemma_basic_layer_runnable(seq!["layer4"@], 256, 512, 2, c4 as nat);
        }
        proof {
            assert(done =~= s_all);
        }
        Ok(ResNet { conv1, bn1, layer1, layer2, layer3, layer4, linear })
    }

    /// conv1, bn1, relu, padding of both spatial axes by one (repeating the
    /// edge values), 3x3 max pooling with stride 2, layer1 .. layer4, mean
    /// over the last axis twice, and fc when there is one.
    pub fn forward(&self, xs: &Activation) -> (r: Result<Activation, NetError>)
        requires
            conv_accepts(self@.conv1, xs@) ==> xs@[2] >= 1 && xs@[3] >= 1,
        ensures
            r matches Ok(y) ==> self@.accepts(xs@) && y@ == self@.out_dims(xs@) && y.expr() == self@.expr(xs.expr()),
            r matches Err(e) ==> e is Candle,
    {
        proof {
            use_type_invariant(self);
            lemma_conv_runnable(self@.conv1, xs@);
        }
        let xs = lift(conv_forward(&self.conv1, xs))?;
        let xs = lift(norm_forward(&self.bn1, &xs))?;
        let xs = lift(relu(&xs))?;
        let xs = lift(pad_with_same(&xs, Axis::Last, 1, 1))?;
        let xs = lift(pad_with_same(&xs, Axis::SecondLast, 1, 1))?;
        let ghost padded = xs@;
        let xs = lift(max_pool2d(&xs, 3, 2))?;
        proof {
            let (h, w) = (padded[2] as int, padded[3] as int);
            assert(pool_len(h, 3, 2) >= 1 && pool_len(w, 3, 2) >= 1) by (nonlinear_arith)
                requires h >= 3, w >= 3;
            lemma_basic_stack_safe(basic_specs(self.layer1@), xs@);
            lemma_basic_stack_out(basic_specs(self.layer1@), xs@);
        }
        let xs = self.layer1.forward(&xs)?;
        proof {
            lemma_basic_stack_safe(basic_specs(self.layer2@), xs@);
            lemma_basic_stack_out(basic_specs(self.layer2@), xs@);
        }
        let xs = self.layer2.forward(&xs)?;
        proof {
            lemma_basic_stack_safe(basic_specs(self.layer3@), xs@);
            lemma_basic_stack_out(basic_specs(self.layer3@), xs@);
        }
        let xs = self.layer3.forward(&xs)?;
        proof {
            lemma_basic_stack_safe(basic_specs(self.layer4@), xs@);
        }
        let xs = self.layer4.forward(&xs)?;
        let xs = lift(mean(&xs, Axis::Last))?;
        let xs = lift(mean(&xs, Axis::Last))?;
        match &self.linear {
            Some(fc) => lift(linear_forward(fc, &xs)),
            None => Ok(xs),
        }
    }
}

// ---------------------------------------------------------------------------
// ResNet-50/101/152

/// The description of a ResNet with bottleneck blocks.
pub struct BottleneckResnetSpec {
    pub conv1: ConvSpec,
    pub bn1: NormSpec,
    pub layer1: Seq<BottleneckBlockSpec>,
    pub layer2: Seq<BottleneckBlockSpec>,
    pub layer3: Seq<BottleneckBlockSpec>,
    pub layer4: Seq<BottleneckBlockSpec>,
    pub linear: Option<LinearSpec>,
}

/// The network with `c1..c4` bottleneck blocks (at least one each) in its four
/// layers: `conv1` (7x7, 3 to 64 channels, padding 3, stride 2), `bn1`, then
/// `layer1` (from 64 channels, width 64, stride 1), `layer2` (from 256,
/// width 128, stride 2), `layer3` (from 512, width 256, stride 2), `layer4`
/// (from 1024, width 512, stride 2), and `fc` (2048 to `n`) when `nclasses`
/// is `Some(n)`.
pub open spec fn bottleneck_resnet_spec(nclasses: Option<usize>, c1: usize, c2: usize, c3: usize, c4: usize) -> BottleneckResnetSpec {
    BottleneckResnetSpec {
        conv1: conv_spec(seq!["conv1"@], 3, 64, 7, 3, 2),
        bn1: norm_spec(seq!["bn1"@], 64),
        layer1: bottleneck_layer_spec(seq!["layer1"@], 64, 64, 1, c1 as nat),
        layer2: bottleneck_layer_spec(seq!["layer2"@], 256, 128, 2, c2 as nat),
        layer3: bottleneck_layer_spec(seq!["layer3"@], 512, 256, 2, c3 as nat),
        layer4: bottleneck_layer_spec(seq!["layer4"@], 1024, 512, 2, c4 as nat),
        linear: match nclasses {
            Some(n) => Some(LinearSpec { path: seq!["fc"@], in_dim: 2048, out_dim: n }),
            None => None,
        },
    }
}

impl BottleneckResnetSpec {
    /// Dimensions after `conv1`.
    pub open spec fn conv1_out(self, d: Seq<usize>) -> Seq<usize> {
        conv_out(self.conv1, d)
    }

    /// What the stem (up to the max pooling) requires.
    pub open spec fn stem_accepts(self, d: Seq<usize>) -> bool {
        &&& conv_accepts(self.conv1, d)
        &&& self.conv1.out_planes == self.bn1.num_features
        &&& self.conv1_out(d)[2] >= 3
        &&& self.conv1_out(d)[3] >= 3
    }

    /// Dimensions after the 3x3 max pooling with stride 2.
    pub open spec fn stem_out(self, d: Seq<usize>) -> Seq<usize> {
        let c = self.conv1_out(d);
        seq![c[0], c[1], pool_len(c[2] as int, 3, 2) as usize, pool_len(c[3] as int, 3, 2) as usize]
    }

    /// Dimensions after `layer1`.
    pub open spec fn out1(self, d: Seq<usize>) -> Seq<usize> {
        bottleneck_stack_out(self.layer1, self.stem_out(d))
    }

    /// Dimensions after `layer2`.
    pub open spec fn out2(self, d: Seq<usize>) -> Seq<usize> {
        bottleneck_stack_out(self.layer2, self.out1(d))
    }

    /// Dimensions after `layer3`.
    pub open spec fn out3(self, d: Seq<usize>) -> Seq<usize> {
        bottleneck_stack_out(self.layer3, self.out2(d))
    }

    /// Dimensions after `layer4`.
    pub open spec fn out4(self, d: Seq<usize>) -> Seq<usize> {
        bottleneck_stack_out(self.layer4, self.out3(d))
    }

    /// What the stem and the four layers require.
    pub open spec fn body_accepts(self, d: Seq<usize>) -> bool {
        &&& self.stem_accepts(d)
        &&& bottleneck_stack_accepts(self.layer1, self.stem_out(d))
        &&& bottleneck_stack_accepts(self.layer2, self.out1(d))
        &&& bottleneck_stack_accepts(self.layer3, self.out2(d))
        &&& bottleneck_stack_accepts(self.layer4, self.out3(d))
    }

    /// Dimensions after averaging over the last two axes (kept with length 1)
    /// and merging the axes from 1 on (the features of each batch element).
    pub open spec fn pooled(self, d: Seq<usize>) -> Seq<usize> {
        let e = self.out4(d);
        flatten_from_dims(e.update(e.len() - 2, 1usize).update(e.len() - 1, 1usize), 1)
    }

    /// What a successful forward pass requires of the input dimensions.
    pub open spec fn accepts(self, d: Seq<usize>) -> bool {
        &&& self.body_accepts(d)
        &&& self.out4(d).len() >= 2
        &&& match self.linear {
            Some(l) => 2 <= self.pooled(d).len() <= 4 && self.pooled(d).last() == l.in_dim,
            None => true,
        }
    }

    /// The dimensions a successful forward pass produces.
    pub open spec fn out_dims(self, d: Seq<usize>) -> Seq<usize> {
        match self.linear {
            Some(l) => self.pooled(d).update(self.pooled(d).len() - 1, l.out_dim),
            None => self.pooled(d),
        }
    }

    /// Every convolution of the network is runnable.
    pub open spec fn runnable(self) -> bool {
        &&& conv_runnable(self.conv1)
        &&& bottleneck_stack_runnable(self.layer1)
        &&& bottleneck_stack_runnable(self.layer2)
        &&& bottleneck_stack_runnable(self.layer3)
        &&& bottleneck_stack_runnable(self.layer4)
    }

    /// What the stem computes from `x`: conv1, bn1, relu, 3x3 max pooling with stride 2.
    pub open spec fn stem_expr(self, x: Expr) -> Expr {
        Expr::MaxPool(3, 2, Box::new(relu_expr(norm_expr(self.bn1, conv_expr(self.conv1, x)))))
    }

    /// What the stem and the four layers compute from `x`.
    pub open spec fn body_expr(self, x: Expr) -> Expr {
        bottleneck_stack_expr(self.layer4, bottleneck_stack_expr(self.layer3,
            bottleneck_stack_expr(self.layer2, bottleneck_stack_expr(self.layer1, self.stem_expr(x)))))
    }

    /// The features: the body's result averaged over the second-to-last then
    /// the last axis (both kept), with the axes from 1 on merged.
    pub open spec fn features_expr(self, x: Expr) -> Expr {
        Expr::FlattenFrom(1, Box::new(Expr::MeanKeepdim(Axis::Last, Box::new(
            Expr::MeanKeepdim(Axis::SecondLast, Box::new(self.body_expr(x)))))))
    }

    /// What the network computes from `x`: the features, then fc when there is one.
    pub open spec fn expr(self, x: Expr) -> Expr {
        match self.linear {
            Some(l) => Expr::Linear(l, Box::new(self.features_expr(x))),
            None => self.features_expr(x),
        }
    }

    /// The requests made to the loader for the network's layers.
    pub open spec fn requests(self) -> Set<LayerRequest> {
        set![conv_request(self.conv1), norm_request(self.bn1)]
            + bottleneck_stack_requests(self.layer1)
            + bottleneck_stack_requests(self.layer2)
            + bottleneck_stack_requests(self.layer3)
            + bottleneck_stack_requests(self.layer4)
            + optional_linear_requests(self.linear)
    }

    /// The same requests in the order they are made: conv1, bn1, the blocks of
    /// layer1 .. layer4 in order, then fc when there is one.
    pub open spec fn request_seq(self) -> Seq<LayerRequest> {
        seq![conv_request(self.conv1), norm_request(self.bn1)]
            + bottleneck_stack_request_seq(self.layer1)
            + bottleneck_stack_request_seq(self.layer2)
            + bottleneck_stack_request_seq(self.layer3)
            + bottleneck_stack_request_seq(self.layer4)
            + optional_linear_request_seq(self.linear)
    }
}

/// A ResNet with bottleneck blocks (ResNet-50, ResNet-101, ResNet-152).
#[derive(Debug)]
pub struct BottleneckResnet {
    conv1: ConvLayer,
    bn1: NormLayer,
    layer1: Sequential<BottleneckBlock>,
    layer2: Sequential<BottleneckBlock>,
    layer3: Sequential<BottleneckBlock>,
    layer4: Sequential<BottleneckBlock>,
    linear: Option<LinearLayer>,
}

impl View for BottleneckResnet {
    type V = BottleneckResnetSpec;

    closed spec fn view(&self) -> BottleneckResnetSpec {
        BottleneckResnetSpec {
            conv1: self.conv1@,
            bn1: self.bn1@,
            layer1: bottleneck_specs(self.layer1@),
            layer2: bottleneck_specs(self.layer2@),
            layer3: bottleneck_specs(self.layer3@),
            layer4: bottleneck_specs(self.layer4@),
            linear: linear_view(self.linear),
        }
    }
}

impl BottleneckResnet {
    /// Every layer held is the loader's answer to the request for it.
    pub closed spec fn loaded_by<F: Fn(&ParamRequest) -> Result<Loaded, CandleError>>(&self, load: F) -> bool {
        &&& self.conv1.loaded_by(load)
        &&& self.bn1.loaded_by(load)
        &&& bottleneck_blocks_loaded_by(self.layer1@, load)
        &&& bottleneck_blocks_loaded_by(self.layer2@, load)
        &&& bottleneck_blocks_loaded_by(self.layer3@, load)
        &&& bottleneck_blocks_loaded_by(self.layer4@, load)
        &&& self.linear matches Some(l) ==> l.loaded_by(load)
    }

    #[verifier::type_invariant]
    spec fn runnable_invariant(self) -> bool {
        self@.runnable()
    }

    /// Loads a ResNet with `c1..c4` bottleneck blocks (one at least per layer)
    /// and, when `nclasses` is `Some(n)`, a final linear layer to `n` classes.
    /// The layers are requested in the order conv1, bn1, layer1 .. layer4
    /// (block by block), fc.
    pub fn new<F>(load: &F, nclasses: Option<usize>, c1: usize, c2: usize, c3: usize, c4: usize) -> (r: Result<BottleneckResnet, NetError>)
        where F: Fn(&ParamRequest) -> Result<Loaded, CandleError>,
        requires
            forall|q: &ParamRequest| #[trigger] load.requires((q,)),
        ensures
            r matches Ok(net) ==> net@ == bottleneck_resnet_spec(nclasses, c1, c2, c3, c4),
            r matches Ok(net) ==> net.loaded_by(*load),
            r matches Err(e) ==> explained(*load, bottleneck_resnet_spec(nclasses, c1, c2, c3, c4).requests(), e),
            answers_fit(*load, bottleneck_resnet_spec(nclasses, c1, c2, c3, c4).requests()) ==> r is Ok,
            r is Ok ==> all_fitted(*load, bottleneck_resnet_spec(nclasses, c1, c2, c3, c4).request_seq()),
            r matches Err(e) ==> failed_in_order(*load, bottleneck_resnet_spec(nclasses, c1, c2, c3, c4).request_seq(), e),
    {
        let ghost want = bottleneck_resnet_spec(nclasses, c1, c2, c3, c4);
        let ghost s_all = want.request_seq();
        let ghost mut done = Seq::<LayerRequest>::empty();
        let conv1 = match load_conv(load, single_path("conv1"), 3, 64, 7, 3, 2) {
            Ok(c) => c,
            Err(e) => {
                proof {
                    lemma_refused(*load, conv_request(want.conv1), want.requests(), e);
                    lemma_fails_one(*load, conv_request(want.conv1), e);
                    assert(s_all.take((done.len() + seq![conv_request(want.conv1)].len()) as int) =~= done + seq![conv_request(want.conv1)]);
                    lemma_step_fail(*load, s_all, done, seq![conv_request(want.conv1)], e);
                }
                return Err(e);
            },
        };
        proof {
            lemma_fitted_one(*load, conv_request(want.conv1));
            assert(s_all.take((done.len() + seq![conv_request(want.conv1)].len()) as int) =~= done + seq![conv_request(want.conv1)]);
            lemma_step_ok(*load, s_all, done, seq![conv_request(want.conv1)]);
            done = done + seq![conv_request(want.conv1)];
        }
        let bn1 = match load_norm(load, single_path("bn1"), 64) {
            Ok(n) => n,
            Err(e) => {
                proof {
                    lemma_refused(*load, norm_request(want.bn1), want.requests(), e);
                    lemma_fails_one(*load, norm_request(want.bn1), e);
                    assert(s_all.take((done.len() + seq![norm_request(want.bn1)].len()) as int) =~= done + seq![norm_request(want.bn1)]);
                    lemma_step_fail(*load, s_all, done, seq![norm_request(want.bn1)], e);
                }
                return Err(e);
            },
        };
        proof {
            lemma_fitted_one(*load, norm_request(want.bn1));
            assert(s_all.take((done.len() + seq![norm_request(want.bn1)].len()) as int) =~= done + seq![norm_request(want.bn1)]);
            lemma_step_ok(*load, s_all, done, seq![norm_request(want.bn1)]);
            done = done + seq![norm_request(want.bn1)];
        }
        let layer1 = match bottleneck_layer(load, &single_path("layer1"), 64, 64, 1, c1) {
            Ok(l) => l,
            Err(e) => {
                proof {
                    assert(bottleneck_stack_requests(want.layer1).subset_of(want.requests()));
                    lemma_explained_subset(*load, bottleneck_stack_requests(want.layer1), want.requests(), e);
                    assert(s_all.take((done.len() + bottleneck_stack_request_seq(want.layer1).len()) as int) =~= done + bottleneck_stack_request_seq(want.layer1));
                    lemma_step_fail(*load, s_all, done, bottleneck_stack_request_seq(want.layer1), e);
                }
                return Err(e);
            },
        };
        proof {
            assert(s_all.take((done.len() + bottleneck_stack_request_seq(want.layer1).len()) as int) =~= done + bottleneck_stack_request_seq(want.layer1));
            lemma_step_ok(*load, s_all, done, bottleneck_stack_request_seq(want.layer1));
            done = done + bottleneck_stack_request_seq(want.layer1);
        }
        let layer2 = match bottleneck_layer(load, &single_path("layer2"), 4 * 64, 128, 2, c2) {
            Ok(l) => l,
            Err(e) => {
                proof {
                    assert(bottleneck_stack_requests(want.layer2).subset_of(want.requests()));
                    lemma_explained_subset(*load, bottleneck_stack_requests(want.layer2), want.requests(), e);
                    assert(s_all.take((done.len() + bottleneck_stack_request_seq(want.layer2).len()) as int) =~= done + bottleneck_stack_request_seq(want.layer2));
                    lemma_step_fail(*load, s_all, done, bottleneck_stack_request_seq(want.layer2), e);
                }
                return Err(e);
            },
        };
        proof {
            assert(s_all.take((done.len() + bottleneck_stack_request_seq(want.layer2).len()) as int) =~= done + bottleneck_stack_request_seq(want.layer2));
            lemma_step_ok(*load, s_all, done, bottleneck_stack_request_seq(want.layer2));
            done = done + bottleneck_stack_request_seq(want.layer2);
        }
        let layer3 = match bottleneck_layer(load, &single_path("layer3"), 4 * 128, 256, 2, c3) {
            Ok(l) => l,
            Err(e) => {
                proof {
                    assert(bottleneck_stack_requests(want.layer3).subset_of(want.requests()));
                    lemma_explained_subset(*load, bottleneck_stack_requests(want.layer3), want.requests(), e);
                    assert(s_all.take((done.len() + bottleneck_stack_request_seq(want.layer3).len()) as int) =~= done + bottleneck_stack_request_seq(want.layer3));
                    lemma_step_fail(*load, s_all, done, bottleneck_stack_request_seq(want.layer3), e);
                }
                return Err(e);
            },
        };
        proof {
            assert(s_all.take((done.len() + bottleneck_stack_request_seq(want.layer3).len()) as int) =~= done + bottleneck_stack_request_seq(want.layer3));
            lemma_step_ok(*load, s_all, done, bottleneck_stack_request_seq(want.layer3));
            done = done + bottleneck_stack_request_seq(want.layer3);
        }
        let layer4 = match bottleneck_layer(load, &single_path("layer4"), 4 * 256, 512, 2, c4) {
            Ok(l) => l,
            Err(e) => {
                proof {
                    assert(bottleneck_stack_requests(want.layer4).subset_of(want.requests()));
                    lemma_explained_subset(*load, bottleneck_stack_requests(want.layer4), want.requests(), e);
                    assert(s_all.take((done.len() + bottleneck_stack_request_seq(want.layer4).len()) as int) =~= done + bottleneck_stack_request_seq(want.layer4));
                    lemma_step_fail(*load, s_all, done, bottleneck_stack_request_seq(want.layer4), e);
                }
                return Err(e);
            },
        };
        proof {
            assert(s_all.take((done.len() + bottleneck_stack_request_seq(want.layer4).len()) as int) =~= done + bottleneck_stack_request_seq(want.layer4));
            lemma_step_ok(*load, s_all, done, bottleneck_stack_request_seq(want.layer4));
            done = done + bottleneck_stack_request_seq(want.layer4);
        }
        let linear = match nclasses {
            Some(n) => match load_linear(load, single_path("fc"), 4 * 512, n) {
                Ok(l) => {
                    proof {
                        lemma_fitted_one(*load, linear_request(LinearSpec { path: seq!["fc"@], in_dim: 2048, out_dim: n }));
                        assert(s_all.take((done.len() + 1) as int) =~= done + seq![linear_request(LinearSpec { path: seq!["fc"@], in_dim: 2048, out_dim: n })]);
                        lemma_step_ok(*load, s_all, done, seq![linear_request(LinearSpec { path: seq!["fc"@], in_dim: 2048, out_dim: n })]);
                        done = done + seq![linear_request(LinearSpec { path: seq!["fc"@], in_dim: 2048, out_dim: n })];
                    }
                    Some(l)
                },
                Err(e) => {
                    proof {
                        lemma_refused(*load, linear_request(LinearSpec { path: seq!["fc"@], in_dim: 2048, out_dim: n }), want.requests(), e);
                        lemma_fails_one(*load, linear_request(LinearSpec { path: seq!["fc"@], in_dim: 2048, out_dim: n }), e);
                        assert(s_all.take((done.len() + 1) as int) =~= done + seq![linear_request(LinearSpec { path: seq!["fc"@], in_dim: 2048, out_dim: n })]);
                        lemma_step_fail(*load, s_all, done, seq![linear_request(LinearSpec { path: seq!["fc"@], in_dim: 2048, out_dim: n })], e);
                    }
                    return Err(e);
                },
            },
            None => None,
        };
        proof {
            lemma_bottleneck_layer_runnable(seq!["layer1"@], 64, 64, 1, c1 as nat);
            lemma_bottleneck_layer_runnable(seq!["layer2"@], 256, 128, 2, c2 as nat);
            lemma_bottleneck_layer_runnable(seq!["layer3"@], 512, 256, 2, c3 as nat);
            lemma_bottleneck_layer_runnable(seq!["layer4"@], 1024, 512, 2, c4 as nat);
        }
        proof {
            assert(done =~= s_all);
        }
        Ok(BottleneckResnet { conv1, bn1, layer1, layer2, layer3, layer4, linear })
    }

    /// conv1, bn1, relu, 3x3 max pooling with stride 2, layer1 .. layer4,
    /// mean over the second-to-last then the last axis (both kept), merging
    /// of the axes from 1 on, and fc when there is one.
    pub fn forward(&self, xs: &Activation) -> (r: Result<Activation, NetError>)
        requires
            conv_accepts(self@.conv1, xs@) ==> xs@[2] >= 1 && xs@[3] >= 1,
        ensures
            r matches Ok(y) ==> self@.accepts(xs@) && y@ == self@.out_dims(xs@) && y.expr() == self@.expr(xs.expr()),
            r matches Err(e) ==> e is Candle,
    {
        proof {
            use_type_invariant(self);
            lemma_conv_runnable(self@.conv1, xs@);
        }
        let xs = lift(conv_forward(&self.conv1, xs))?;
        let xs = lift(norm_forward(&self.bn1, &xs))?;
        let xs = lift(relu(&xs))?;
        let ghost before_pool = xs@;
        let xs = lift(max_pool2d(&xs, 3, 2))?;
        proof {
            let (h, w) = (before_pool[2] as int, before_pool[3] as int);
            assert(pool_len(h, 3, 2) >= 1 && pool_len(w, 3, 2) >= 1) by (nonlinear_arith)
                requires h >= 3, w >= 3;
            lemma_bottleneck_stack_safe(bottleneck_specs(self.layer1@), xs@);
            lemma_bottleneck_stack_out(bottleneck_specs(self.layer1@), xs@);
        }
        let xs = self.layer1.forward(&xs)?;
        proof {
            lemma_bottleneck_stack_safe(bottleneck_specs(self.layer2@), xs@);
            lemma_bottleneck_stack_out(bottleneck_specs(self.layer2@), xs@);
        }
        let xs = self.layer2.forward(&xs)?;
        proof {
            lemma_bottleneck_stack_safe(bottleneck_specs(self.layer3@), xs@);
            lemma_bottleneck_stack_out(bottleneck_specs(self.layer3@), xs@);
        }
        let xs = self.layer3.forward(&xs)?;
        proof {
            lemma_bottleneck_stack_safe(bottleneck_specs(self.layer4@), xs@);
        }
        let xs = self.layer4.forward(&xs)?;
        let xs = lift(mean_keepdim(&xs, Axis::SecondLast))?;
        let xs = lift(mean_keepdim(&xs, Axis::Last))?;
        let xs = lift(flatten_from(&xs, 1))?;
        match &self.linear {
            Some(fc) => lift(linear_forward(fc, &xs)),
            None => Ok(xs),
        }
    }
}

// ---------------------------------------------------------------------------
// The standard networks

fn resnet<F>(load: &F, nclasses: Option<usize>, c1: usize, c2: usize, c3: usize, c4: usize) -> (r: Result<ResNet, NetError>)
    where F: Fn(&ParamRequest) -> Result<Loaded, CandleError>,
    requires
        forall|q: &ParamRequest| #[trigger] load.requires((q,)),
    ensures
        r matches Ok(net) ==> net@ == resnet_spec(nclasses, c1, c2, c3, c4),
        r matches Ok(net) ==> net.loaded_by(*load),
        r matches Err(e) ==> explained(*load, resnet_spec(nclasses, c1, c2, c3, c4).requests(), e),
        answers_fit(*load, resnet_spec(nclasses, c1, c2, c3, c4).requests()) ==> r is Ok,
        r is Ok ==> all_fitted(*load, resnet_spec(nclasses, c1, c2, c3, c4).request_seq()),
        r matches Err(e) ==> failed_in_order(*load, resnet_spec(nclasses, c1, c2, c3, c4).request_seq(), e),
{
    ResNet::new(load, nclasses, c1, c2, c3, c4)
}

/// ResNet-18 (2, 2, 2, 2 basic blocks) classifying into `num_classes` classes.
pub fn resnet18<F>(load: &F, num_classes: usize) -> (r: Result<ResNet, NetError>)
    where F: Fn(&ParamRequest) -> Result<Loaded, CandleError>,
    requires
        forall|q: &ParamRequest| #[trigger] load.requires((q,)),
    ensures
        r matches Ok(net) ==> net@ == resnet_spec(Some(num_classes), 2, 2, 2, 2),
        r matches Ok(net) ==> net.loaded_by(*load),
        r matches Err(e) ==> explained(*load, resnet_spec(Some(num_classes), 2, 2, 2, 2).requests(), e),
        answers_fit(*load, resnet_spec(Some(num_classes), 2, 2, 2, 2).requests()) ==> r is Ok,
        r is Ok ==> all_fitted(*load, resnet_spec(Some(num_classes), 2, 2, 2, 2).request_seq()),
        r matches Err(e) ==> failed_in_order(*load, resnet_spec(Some(num_classes), 2, 2, 2, 2).request_seq(), e),
{
    resnet(load, Some(num_classes), 2, 2, 2, 2)
}

/// ResNet-18 without its final linear layer (512 features out).
pub fn resnet18_no_final_layer<F>(load: &F) -> (r: Result<ResNet, NetError>)
    where F: Fn(&ParamRequest) -> Result<Loaded, CandleError>,
    requires
        forall|q: &ParamRequest| #[trigger] load.requires((q,)),
    ensures
        r matches Ok(net) ==> net@ == resnet_spec(None, 2, 2, 2, 2),
        r matches Ok(net) ==> net.loaded_by(*load),
        r matches Err(e) ==> explained(*load, resnet_spec(None, 2, 2, 2, 2).requests(), e),
        answers_fit(*load, resnet_spec(None, 2, 2, 2, 2).requests()) ==> r is Ok,
        r is Ok ==> all_fitted(*load, resnet_spec(None, 2, 2, 2, 2).request_seq()),
        r matches Err(e) ==> failed_in_order(*load, resnet_spec(None, 2, 2, 2, 2).request_seq(), e),
{
    resnet(load, None, 2, 2, 2, 2)
}

/// ResNet-34 (3, 4, 6, 3 basic blocks) classifying into `num_classes` classes.
pub fn resnet34<F>(load: &F, num_classes: usize) -> (r: Result<ResNet, NetError>)
    where F: Fn(&ParamRequest) -> Result<Loaded, CandleError>,
    requires
        forall|q: &ParamRequest| #[trigger] load.requires((q,)),
    ensures
        r matches Ok(net) ==> net@ == resnet_spec(Some(num_classes), 3, 4, 6, 3),
        r matches Ok(net) ==> net.loaded_by(*load),
        r matches Err(e) ==> explained(*load, resnet_spec(Some(num_classes), 3, 4, 6, 3).requests(), e),
        answers_fit(*load, resnet_spec(Some(num_classes), 3, 4, 6, 3).requests()) ==> r is Ok,
        r is Ok ==> all_fitted(*load, resnet_spec(Some(num_classes), 3, 4, 6, 3).request_seq()),
        r matches Err(e) ==> failed_in_order(*load, resnet_spec(Some(num_classes), 3, 4, 6, 3).request_seq(), e),
{
    resnet(load, Some(num_classes), 3, 4, 6, 3)
}

/// ResNet-34 without its final linear layer (512 features out).
pub fn resnet34_no_final_layer<F>(load: &F) -> (r: Result<ResNet, NetError>)
    where F: Fn(&ParamRequest) -> Result<Loaded, CandleError>,
    requires
        forall|q: &ParamRequest| #[trigger] load.requires((q,)),
    ensures
        r matches Ok(net) ==> net@ == resnet_spec(None, 3, 4, 6, 3),
        r matches Ok(net) ==> net.loaded_by(*load),
        r matches Err(e) ==> explained(*load, resnet_spec(None, 3, 4, 6, 3).requests(), e),
        answers_fit(*load, resnet_spec(None, 3, 4, 6, 3).requests()) ==> r is Ok,
        r is Ok ==> all_fitted(*load, resnet_spec(None, 3, 4, 6, 3).request_seq()),
        r matches Err(e) ==> failed_in_order(*load, resnet_spec(None, 3, 4, 6, 3).request_seq(), e),
{
    resnet(load, None, 3, 4, 6, 3)
}

fn bottleneck_resnet<F>(load: &F, nclasses: Option<usize>, c1: usize, c2: usize, c3: usize, c4: usize) -> (r: Result<BottleneckResnet, NetError>)
    where F: Fn(&ParamRequest) -> Result<Loaded, CandleError>,
    requires
        forall|q: &ParamRequest| #[trigger] load.requires((q,)),
    ensures
        r matches Ok(net) ==> net@ == bottleneck_resnet_spec(nclasses, c1, c2, c3, c4),
        r matches Ok(net) ==> net.loaded_by(*load),
        r matches Err(e) ==> explained(*load, bottleneck_resnet_spec(nclasses, c1, c2, c3, c4).requests(), e),
        answers_fit(*load, bottleneck_resnet_spec(nclasses, c1, c2, c3, c4).requests()) ==> r is Ok,
        r is Ok ==> all_fitted(*load, bottleneck_resnet_spec(nclasses, c1, c2, c3, c4).request_seq()),
        r matches Err(e) ==> failed_in_order(*load, bottleneck_resnet_spec(nclasses, c1, c2, c3, c4).request_seq(), e),
{
    BottleneckResnet::new(load, nclasses, c1, c2, c3, c4)
}

/// ResNet-50 (3, 4, 6, 3 bottleneck blocks) classifying into `num_classes` classes.
pub fn resnet50<F>(load: &F, num_classes: usize) -> (r: Result<BottleneckResnet, NetError>)
    where F: Fn(&ParamRequest) -> Result<Loaded, CandleError>,
    requires
        forall|q: &ParamRequest| #[trigger] load.requires((q,)),
    ensures
        r matches Ok(net) ==> net@ == bottleneck_resnet_spec(Some(num_classes), 3, 4, 6, 3),
        r matches Ok(net) ==> net.loaded_by(*load),
        r matches Err(e) ==> explained(*load, bottleneck_resnet_spec(Some(num_classes), 3, 4, 6, 3).requests(), e),
        answers_fit(*load, bottleneck_resnet_spec(Some(num_classes), 3, 4, 6, 3).requests()) ==> r is Ok,
        r is Ok ==> all_fitted(*load, bottleneck_resnet_spec(Some(num_classes), 3, 4, 6, 3).request_seq()),
        r matches Err(e) ==> failed_in_order(*load, bottleneck_resnet_spec(Some(num_classes), 3, 4, 6, 3).request_seq(), e),
{
    bottleneck_resnet(load, Some(num_classes), 3, 4, 6, 3)
}

/// ResNet-50 without its final linear layer.
pub fn resnet50_no_final_layer<F>(load: &F) -> (r: Result<BottleneckResnet, NetError>)
    where F: Fn(&ParamRequest) -> Result<Loaded, CandleError>,
    requires
        forall|q: &ParamRequest| #[trigger] load.requires((q,)),
    ensures
        r matches Ok(net) ==> net@ == bottleneck_resnet_spec(None, 3, 4, 6, 3),
        r matches Ok(net) ==> net.loaded_by(*load),
        r matches Err(e) ==> explained(*load, bottleneck_resnet_spec(None, 3, 4, 6, 3).requests(), e),
        answers_fit(*load, bottleneck_resnet_spec(None, 3, 4, 6, 3).requests()) ==> r is Ok,
        r is Ok ==> all_fitted(*load, bottleneck_resnet_spec(None, 3, 4, 6, 3).request_seq()),
        r matches Err(e) ==> failed_in_order(*load, bottleneck_resnet_spec(None, 3, 4, 6, 3).request_seq(), e),
{
    bottleneck_resnet(load, None, 3, 4, 6, 3)
}

/// ResNet-101 (3, 4, 23, 3 bottleneck blocks) classifying into `num_classes` classes.
pub fn resnet101<F>(load: &F, num_classes: usize) -> (r: Result<BottleneckResnet, NetError>)
    where F: Fn(&ParamRequest) -> Result<Loaded, CandleError>,
    requires
        forall|q: &ParamRequest| #[trigger] load.requires((q,)),
    ensures
        r matches Ok(net) ==> net@ == bottleneck_resnet_spec(Some(num_classes), 3, 4, 23, 3),
        r matches Ok(net) ==> net.loaded_by(*load),
        r matches Err(e) ==> explained(*load, bottleneck_resnet_spec(Some(num_classes), 3, 4, 23, 3).requests(), e),
        answers_fit(*load, bottleneck_resnet_spec(Some(num_classes), 3, 4, 23, 3).requests()) ==> r is Ok,
        r is Ok ==> all_fitted(*load, bottleneck_resnet_spec(Some(num_classes), 3, 4, 23, 3).request_seq()),
        r matches Err(e) ==> failed_in_order(*load, bottleneck_resnet_spec(Some(num_classes), 3, 4, 23, 3).request_seq(), e),
{
    bottleneck_resnet(load, Some(num_classes), 3, 4, 23, 3)
}

/// ResNet-101 without its final linear layer.
pub fn resnet101_no_final_layer<F>(load: &F) -> (r: Result<BottleneckResnet, NetError>)
    where F: Fn(&ParamRequest) -> Result<Loaded, CandleError>,
    requires
        forall|q: &ParamRequest| #[trigger] load.requires((q,)),
    ensures
        r matches Ok(net) ==> net@ == bottleneck_resnet_spec(None, 3, 4, 23, 3),
        r matches Ok(net) ==> net.loaded_by(*load),
        r matches Err(e) ==> explained(*load, bottleneck_resnet_spec(None, 3, 4, 23, 3).requests(), e),
        answers_fit(*load, bottleneck_resnet_spec(None, 3, 4, 23, 3).requests()) ==> r is Ok,
        r is Ok ==> all_fitted(*load, bottleneck_resnet_spec(None, 3, 4, 23, 3).request_seq()),
        r matches Err(e) ==> failed_in_order(*load, bottleneck_resnet_spec(None, 3, 4, 23, 3).request_seq(), e),
{
    bottleneck_resnet(load, None, 3, 4, 23, 3)
}

/// ResNet-152 (3, 8, 36, 3 bottleneck blocks) classifying into `num_classes` classes.
pub fn resnet152<F>(load: &F, num_classes: usize) -> (r: Result<BottleneckResnet, NetError>)
    where F: Fn(&ParamRequest) -> Result<Loaded, CandleError>,
    requires
        forall|q: &ParamRequest| #[trigger] load.requires((q,)),
    ensures
        r matches Ok(net) ==> net@ == bottleneck_resnet_spec(Some(num_classes), 3, 8, 36, 3),
        r matches Ok(net) ==> net.loaded_by(*load),
        r matches Err(e) ==> explained(*load, bottleneck_resnet_spec(Some(num_classes), 3, 8, 36, 3).requests(), e),
        answers_fit(*load, bottleneck_resnet_spec(Some(num_classes), 3, 8, 36, 3).requests()) ==> r is Ok,
        r is Ok ==> all_fitted(*load, bottleneck_resnet_spec(Some(num_classes), 3, 8, 36, 3).request_seq()),
        r matches Err(e) ==> failed_in_order(*load, bottleneck_resnet_spec(Some(num_classes), 3, 8, 36, 3).request_seq(), e),
{
    bottleneck_resnet(load, Some(num_classes), 3, 8, 36, 3)
}

/// ResNet-152 without its final linear layer.
pub fn resnet150_no_final_layer<F>(load: &F) -> (r: Result<BottleneckResnet, NetError>)
    where F: Fn(&ParamRequest) -> Result<Loaded, CandleError>,
    requires
        forall|q: &ParamRequest| #[trigger] load.requires((q,)),
    ensures
        r matches Ok(net) ==> net@ == bottleneck_resnet_spec(None, 3, 8, 36, 3),
        r matches Ok(net) ==> net.loaded_by(*load),
        r matches Err(e) ==> explained(*load, bottleneck_resnet_spec(None, 3, 8, 36, 3).requests(), e),
        answers_fit(*load, bottleneck_resnet_spec(None, 3, 8, 36, 3).requests()) ==> r is Ok,
        r is Ok ==> all_fitted(*load, bottleneck_resnet_spec(None, 3, 8, 36, 3).request_seq()),
        r matches Err(e) ==> failed_in_order(*load, bottleneck_resnet_spec(None, 3, 8, 36, 3).request_seq(), e),
{
    bottleneck_resnet(load, None, 3, 8, 36, 3)
}

} // verus!
