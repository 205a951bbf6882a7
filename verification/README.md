# matrix_multiplication

Integer matrix multiplication, benchmarked across several execution strategies
(one thread, rayon, tokio tasks, OS threads and a tiled OpenCL kernel), with the
computing parts verified by Verus.

- `src/model.rs`: what a product is (`row_dot`, `is_product`), when the operands
  can be read and the `i32` accumulation stays in range, and the laws: the product
  is unique, the identity leaves a matrix unchanged, and `(a b)^T == b^T a^T`.
- `src/cpu.rs`: the row kernels, the sequential and rayon multiplications, the
  assembly of rows computed by tasks or threads, and the operand validation.
- `src/layout.rs`: tile rounding and the row-major layouts used around the kernel,
  with their round-trip laws.
- `src/generate.rs`: random operands.
- `app/`: the benchmark program: timing, tokio and thread dispatch, OpenCL, the
  `f32` statistics and the report.
