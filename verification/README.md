# tract-metal

Decides how typed neural network graphs are lowered to Metal, and proves the decisions with
[Verus](https://github.com/verus-lang/verus).

* `src/` is the verified library. It works on plain values: element types, dimensions, facts,
  and graphs of its own.
  * `datum`, `dim`, `fact`, `model`, `text`, `flags`, `list`: the values.
  * `moe`, `weights`, `repack`: mixtures of experts, and the transposition of their `Q4_0`
    weights into the layout that the routed kernels read.
  * `gemm`, `matmul`, `product`: which kernel takes a matrix product, the nodes that are wired
    around it, and the proof that they compute the product.
  * `reduce`, `reduction`: reductions over several axes, split into chains, and the proof that
    the chains compute the reductions.
  * `cast`, `sdpa`, `translator`, `node`, `transform`, `command_buffer`: the other operators,
    what becomes of each node, and the passes of the transform.
  * `bitpacking`: the unpacking of bits in the textual exchange format.
* `app/` is ordinary Rust around it: conversions from and to the graphs of `tract-core`, the
  environment, and the device. The kernels come in through the trait `Backend`.
* `tests/` runs the library, with the outside crates linked.

Three functions trust outside code: the greatest common divisor of a product of symbolic
dimensions (`dim`), the transposition of packed weights, and the length of a packed block (both
`weights`). Their doc comments say what is taken for granted.
