# tiny_neural

Neural-network building blocks with verified tensor, convolution and pooling
code.

- `src/` is the verified library (Verus). `Tensor<T>` is a `rows × cols`
  matrix over any `Copy` element type: construction, shape, reshape,
  transpose, broadcasting, element-wise arithmetic through `T`'s `+`, `-`, `*`,
  matrix products, sums, and column-major flattening, each with a contract
  over the tensor's abstract value. `Conv1D`, `Conv2D` and `Pool2D` state
  exactly which input elements each output position combines, and their
  output shapes. `Loss`, `PoolType` and `BackpropEngine` are the plain kinds
  the rest of the library works with.
- `app/` holds what runs on `f64` values only: activations, loss values and
  gradients, dense layers, networks, backpropagation, optimizers, dropout,
  batch normalization, random initialization, and the max/average reductions
  of pooling. It calls the verified code for all tensor work and checks each
  call's preconditions first.
- `tests/` runs the library on `f64` and integer tensors.
