//! A stack of residual blocks applied one after the other.
use vstd::prelude::*;
use crate::blocks::{BasicBlock, BasicBlockSpec, BottleneckBlock, BottleneckBlockSpec};
use crate::error::NetError;
use crate::tensor::{Activation, Expr, duplicate};

verus! {

/// Layers applied in order.
#[derive(Debug)]
pub struct Sequential<T> {
    layers: Vec<T>,
}

impl<T> View for Sequential<T> {
    type V = Seq<T>;

    /// The layers, first applied first.
    closed spec fn view(&self) -> Seq<T> {
        self.layers@
    }
}

/// An empty stack with room for `cnt` layers.
pub fn seq<T>(cnt: usize) -> (s: Sequential<T>)
    ensures
        s@ == Seq::<T>::empty(),
{
    Sequential { layers: Vec::with_capacity(cnt) }
}

impl<T> Sequential<T> {
    /// The number of layers.
    pub fn len(&self) -> (n: usize)
        ensures
            n == self@.len(),
    {
        self.layers.len()
    }

    /// The layers, first applied first.
    pub fn layers(&self) -> (v: &Vec<T>)
        ensures
            v@ == self@,
    {
        &self.layers
    }

    /// Whether there is no layer.
    pub fn is_empty(&self) -> (b: bool)
        ensures
            b == (self@.len() == 0),
    {
        self.layers.is_empty()
    }

    /// Appends a layer, applied after the others.
    pub fn push(&mut self, layer: T)
        ensures
            final(self)@ == old(self)@.push(layer),
    {
        self.layers.push(layer);
    }

    /// Appends a layer, applied after the others (same as `push`).
    pub fn add(&mut self, layer: T)
        ensures
            final(self)@ == old(self)@.push(layer),
    {
        self.layers.push(layer);
    }
}

// ---------------------------------------------------------------------------
// Stacks of basic blocks

/// The descriptions of the blocks of a stack.
pub open spec fn basic_specs(blocks: Seq<BasicBlock>) -> Seq<BasicBlockSpec> {
    blocks.map_values(|b: BasicBlock| b@)
}

/// The dimensions after running the blocks in order.
pub open spec fn basic_stack_out(blocks: Seq<BasicBlockSpec>, d: Seq<usize>) -> Seq<usize>
    decreases blocks.len(),
{
    if blocks.len() == 0 {
        d
    } else {
        blocks.last().out_dims(basic_stack_out(blocks.drop_last(), d))
    }
}

/// What running the blocks in order computes from `x`: each block applied to
/// what the blocks before it computed.
pub open spec fn basic_stack_expr(blocks: Seq<BasicBlockSpec>, x: Expr) -> Expr
    decreases blocks.len(),
{
    if blocks.len() == 0 {
        x
    } else {
        blocks.last().expr(basic_stack_expr(blocks.drop_last(), x))
    }
}

/// Whether every block accepts what the blocks before it produce.
pub open spec fn basic_stack_accepts(blocks: Seq<BasicBlockSpec>, d: Seq<usize>) -> bool
    decreases blocks.len(),
{
    if blocks.len() == 0 {
        true
    } else {
        basic_stack_accepts(blocks.drop_last(), d) && blocks.last().accepts(basic_stack_out(blocks.drop_last(), d))
    }
}

/// Whether no block that is reached panics.
pub open spec fn basic_stack_safe(blocks: Seq<BasicBlockSpec>, d: Seq<usize>) -> bool {
    forall|i: int|
        0 <= i < blocks.len() && #[trigger] basic_stack_accepts(blocks.take(i), d)
            ==> blocks[i].safe(basic_stack_out(blocks.take(i), d))
}

/// A stack accepted as a whole is accepted up to each of its blocks.
proof fn lemma_basic_prefix_accepts(blocks: Seq<BasicBlockSpec>, j: int, d: Seq<usize>)
    requires
        0 <= j <= blocks.len(),
        basic_stack_accepts(blocks, d),
    ensures
        basic_stack_accepts(blocks.take(j), d),
    decreases blocks.len(),
{
    if j == blocks.len() {
        assert(blocks.take(j) =~= blocks);
    } else {
        lemma_basic_prefix_accepts(blocks.drop_last(), j, d);
        assert(blocks.drop_last().take(j) =~= blocks.take(j));
    }
}

impl Sequential<BasicBlock> {
    /// Whether the forward pass does not panic on inputs of dimensions `d`.
    pub fn can_run(&self, d: &Vec<usize>) -> (b: bool)
        ensures
            b == basic_stack_safe(basic_specs(self@), d@),
    {
        let ghost specs = basic_specs(self@);
        let mut cur = d.clone();
        let mut i: usize = 0;
        assert(specs.take(0) =~= Seq::<BasicBlockSpec>::empty());
        while i < self.layers.len()
            invariant
                specs == basic_specs(self@),
                self@ == self.layers@,
                i <= self.layers.len(),
                basic_stack_accepts(specs.take(i as int), d@),
                cur@ == basic_stack_out(specs.take(i as int), d@),
                forall|j: int| 0 <= j < i && #[trigger] basic_stack_accepts(specs.take(j), d@)
                    ==> specs[j].safe(basic_stack_out(specs.take(j), d@)),
            decreases self.layers.len() - i,
        {
            assert(specs[i as int] == self.layers[i as int]@);
            if !self.layers[i].can_run(&cur) {
                return false;
            }
            assert(specs.take(i + 1).drop_last() =~= specs.take(i as int));
            match self.layers[i].step(&cur) {
                None => {
                    assert forall|j: int| 0 <= j < specs.len() && #[trigger] basic_stack_accepts(specs.take(j), d@)
                        implies specs[j].safe(basic_stack_out(specs.take(j), d@)) by {
                        if j > i {
                            lemma_basic_prefix_accepts(specs.take(j), i + 1, d@);
                            assert(specs.take(j).take(i + 1) =~= specs.take(i + 1));
                        }
                    }
                    return true;
                },
                Some(e) => {
                    cur = e;
                },
            }
            i = i + 1;
        }
        assert(specs.take(i as int) =~= specs);
        true
    }
}

impl Sequential<BasicBlock> {
    /// Runs the blocks in order.
    pub fn forward(&self, xs: &Activation) -> (r: Result<Activation, NetError>)
        requires
            basic_stack_safe(basic_specs(self@), xs@),
        ensures
            r matches Ok(y) ==> {
                &&& basic_stack_accepts(basic_specs(self@), xs@)
                &&& y@ == basic_stack_out(basic_specs(self@), xs@)
                &&& y.expr() == basic_stack_expr(basic_specs(self@), xs.expr())
            },
            r matches Err(e) ==> e is Candle,
            self@.len() == 0 ==> r is Ok,
    {
        let ghost specs = basic_specs(self@);
        let mut ys = duplicate(xs);
        let mut i: usize = 0;
        assert(specs.take(0) =~= Seq::<BasicBlockSpec>::empty());
        while i < self.layers.len()
            invariant
                specs == basic_specs(self@),
                self@ == self.layers@,
                i <= self.layers.len(),
                basic_stack_safe(specs, xs@),
                basic_stack_accepts(specs.take(i as int), xs@),
                ys@ == basic_stack_out(specs.take(i as int), xs@),
                ys.expr() == basic_stack_expr(specs.take(i as int), xs.expr()),
            decreases self.layers.len() - i,
        {
            assert(specs.take(i + 1).drop_last() =~= specs.take(i as int));
            assert(specs[i as int] == self.layers[i as int]@);
            ys = self.layers[i].forward(&ys)?;
            i = i + 1;
        }
        assert(specs.take(i as int) =~= specs);
        Ok(ys)
    }
}

// ---------------------------------------------------------------------------
// Stacks of bottleneck blocks

/// The descriptions of the blocks of a stack.
pub open spec fn bottleneck_specs(blocks: Seq<BottleneckBlock>) -> Seq<BottleneckBlockSpec> {
    blocks.map_values(|b: BottleneckBlock| b@)
}

/// The dimensions after running the blocks in order.
pub open spec fn bottleneck_stack_out(blocks: Seq<BottleneckBlockSpec>, d: Seq<usize>) -> Seq<usize>
    decreases blocks.len(),
{
    if blocks.len() == 0 {
        d
    } else {
        blocks.last().out_dims(bottleneck_stack_out(blocks.drop_last(), d))
    }
}

/// What running the blocks in order computes from `x`: each block applied to
/// what the blocks before it computed.
pub open spec fn bottleneck_stack_expr(blocks: Seq<BottleneckBlockSpec>, x: Expr) -> Expr
    decreases blocks.len(),
{
    if blocks.len() == 0 {
        x
    } else {
        blocks.last().expr(bottleneck_stack_expr(blocks.drop_last(), x))
    }
}

/// Whether every block accepts what the blocks before it produce.
pub open spec fn bottleneck_stack_accepts(blocks: Seq<BottleneckBlockSpec>, d: Seq<usize>) -> bool
    decreases blocks.len(),
{
    if blocks.len() == 0 {
        true
    } else {
        bottleneck_stack_accepts(blocks.drop_last(), d)
            && blocks.last().accepts(bottleneck_stack_out(blocks.drop_last(), d))
    }
}

/// Whether no block that is reached panics.
pub open spec fn bottleneck_stack_safe(blocks: Seq<BottleneckBlockSpec>, d: Seq<usize>) -> bool {
    forall|i: int|
        0 <= i < blocks.len() && #[trigger] bottleneck_stack_accepts(blocks.take(i), d)
            ==> blocks[i].safe(bottleneck_stack_out(blocks.take(i), d))
}

/// A stack accepted as a whole is accepted up to each of its blocks.
proof fn lemma_bottleneck_prefix_accepts(blocks: Seq<BottleneckBlockSpec>, j: int, d: Seq<usize>)
    requires
        0 <= j <= blocks.len(),
        bottleneck_stack_accepts(blocks, d),
    ensures
        bottleneck_stack_accepts(blocks.take(j), d),
    decreases blocks.len(),
{
    if j == blocks.len() {
        assert(blocks.take(j) =~= blocks);
    } else {
        lemma_bottleneck_prefix_accepts(blocks.drop_last(), j, d);
        assert(blocks.drop_last().take(j) =~= blocks.take(j));
    }
}

impl Sequential<BottleneckBlock> {
    /// Whether the forward pass does not panic on inputs of dimensions `d`.
    pub fn can_run(&self, d: &Vec<usize>) -> (b: bool)
        ensures
            b == bottleneck_stack_safe(bottleneck_specs(self@), d@),
    {
        let ghost specs = bottleneck_specs(self@);
        let mut cur = d.clone();
        let mut i: usize = 0;
        assert(specs.take(0) =~= Seq::<BottleneckBlockSpec>::empty());
        while i < self.layers.len()
            invariant
                specs == bottleneck_specs(self@),
                self@ == self.layers@,
                i <= self.layers.len(),
                bottleneck_stack_accepts(specs.take(i as int), d@),
                cur@ == bottleneck_stack_out(specs.take(i as int), d@),
                forall|j: int| 0 <= j < i && #[trigger] bottleneck_stack_accepts(specs.take(j), d@)
                    ==> specs[j].safe(bottleneck_stack_out(specs.take(j), d@)),
            decreases self.layers.len() - i,
        {
            assert(specs[i as int] == self.layers[i as int]@);
            if !self.layers[i].can_run(&cur) {
                return false;
            }
            assert(specs.take(i + 1).drop_last() =~= specs.take(i as int));
            match self.layers[i].step(&cur) {
                None => {
                    assert forall|j: int| 0 <= j < specs.len() && #[trigger] bottleneck_stack_accepts(specs.take(j), d@)
                        implies specs[j].safe(bottleneck_stack_out(specs.take(j), d@)) by {
                        if j > i {
                            lemma_bottleneck_prefix_accepts(specs.take(j), i + 1, d@);
                            assert(specs.take(j).take(i + 1) =~= specs.take(i + 1));
                        }
                    }
                    return true;
                },
                Some(e) => {
                    cur = e;
                },
            }
            i = i + 1;
        }
        assert(specs.take(i as int) =~= specs);
        true
    }
}

impl Sequential<BottleneckBlock> {
    /// Runs the blocks in order.
    pub fn forward(&self, xs: &Activation) -> (r: Result<Activation, NetError>)
        requires
            bottleneck_stack_safe(bottleneck_specs(self@), xs@),
        ensures
            r matches Ok(y) ==> {
                &&& bottleneck_stack_accepts(bottleneck_specs(self@), xs@)
                &&& y@ == bottleneck_stack_out(bottleneck_specs(self@), xs@)
                &&& y.expr() == bottleneck_stack_expr(bottleneck_specs(self@), xs.expr())
            },
            r matches Err(e) ==> e is Candle,
            self@.len() == 0 ==> r is Ok,
    {
        let ghost specs = bottleneck_specs(self@);
        let mut ys = duplicate(xs);
        let mut i: usize = 0;
        assert(specs.take(0) =~= Seq::<BottleneckBlockSpec>::empty());
        while i < self.layers.len()
            invariant
                specs == bottleneck_specs(self@),
                self@ == self.layers@,
                i <= self.layers.len(),
                bottleneck_stack_safe(specs, xs@),
                bottleneck_stack_accepts(specs.take(i as int), xs@),
                ys@ == bottleneck_stack_out(specs.take(i as int), xs@),
                ys.expr() == bottleneck_stack_expr(specs.take(i as int), xs.expr()),
            decreases self.layers.len() - i,
        {
            assert(specs.take(i + 1).drop_last() =~= specs.take(i as int));
            assert(specs[i as int] == self.layers[i as int]@);
            ys = self.layers[i].forward(&ys)?;
            i = i + 1;
        }
        assert(specs.take(i as int) =~= specs);
        Ok(ys)
    }
}

} // verus!
