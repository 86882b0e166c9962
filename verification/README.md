# rtensors

Strided CPU tensors with views, slicing, broadcasting, convolution, matrix
products, printing, image buffers and a gradient graph with its backward
pass and derivative rules, written in Verus and proved against the
contracts of its functions. The calls into `num-traits`, `slotmap` and `image` go
through small wrappers whose contracts are trusted.

## Layout

- `src/` — the verified library.
  - `layout`, `sums`, `fits`, `meta`: shapes, strides, coordinates and the
    buffer positions a layout visits; slicing, permuting and (un)squeezing of
    layouts.
  - `tensor`, `access`, `view_as`, `value`, `pad`: owned tensors, shared and
    mutable views, element access, copies, conversion of the element type,
    reshaping and padding.
  - `unary`, `scalar`, `broadcast`, `matmul`, `conv`: element-wise maps,
    scalar and broadcast arithmetic, the L1 loss, matrix products and 2-D/3-D
    convolution over `num_traits::Float` elements.
  - `display`: the printed form of a tensor.
  - `grad`, `backward`: the gradient graph (a `slotmap` store), its
    topological order and Graphviz text, the tracking switch, and the
    backward pass.
  - `derivative`: the local derivative rules of the operations and the
    gradient-descent step (`sgd_step`, and the `Sgd` optimizer over its
    registered parameters).
  - `train`: the backward pass driven from a loss, seeded with ones in the
    loss's shape, whose results are added into the parameters' gradients.
  - `io`: tensors of shape `[height, width, channels]` as `image` buffers.
  - `laws`: properties that relate several operations.
- `tests/` — tests against concrete values.
- `app/` — what stays outside the proofs: error messages (`thiserror`),
  reading and writing image files, random initialisation (`rand`) and the
  per-thread gradient state.
