# resnet

ResNet image classifiers on candle tensors, verified with Verus.

- `src/names.rs` – parameter paths and the decimal names of blocks.
- `src/tensor.rs` – `Activation` (a tensor with its dimensions) and the tensor
  operations used, each with the shape it produces.
- `src/params.rs` – requests for layer weights, checking of what the loader
  returns, and the layers' forward passes.
- `src/blocks.rs` – skip-connection projection, basic block, bottleneck block.
- `src/sequential.rs` – stacks of blocks.
- `src/resnet.rs` – ResNet-18/34/50/101/152.
- `src/laws.rs` – properties of the networks as a whole.
- `app/lib.rs` – reading weights from a candle `VarBuilder` and candle
  `Module` implementations.

Weights are read by a loader that the caller passes to the constructors: for
each layer the network hands it a `ParamRequest` (path and layer shape) and
gets a candle layer back, which is checked against the request.

The loader answers with a candle layer wrapped by `ConvAnswer::new`,
`NormAnswer::new` or `LinearAnswer::new`, which read the layer's parts back
once (weight and statistics shapes, padding, stride, dilation, groups, bias).
A layer is accepted exactly when its parts fit the request (`accept_conv`,
`accept_norm`, `accept_linear`). A constructor that succeeds holds exactly the
layers it asked for, each the loader's answer to its request, and every one
of its requests was answered with a fitting layer. One that fails does so at
the first of its requests, in the order they are made, whose reply does not
give a fitting layer: the error is the loader's own, or a mismatch for an
answer that does not fit. When every reply the loader may give to the
constructor's requests fits, the constructor succeeds.

Every activation carries, as a ghost value, the expression of the operations
that produced it; each forward pass states that expression exactly, together
with the output dimensions.
