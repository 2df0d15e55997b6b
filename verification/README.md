# snarkvm_kit

Three kernels of a zero-knowledge virtual machine, written in Verus: what each function
returns or changes is stated in its contract and proved.

- **Field and curve arithmetic.** Montgomery multiplication, addition and subtraction in the
  BLS12-377 base field over eight 52-bit limbs, for one element (`ifma`) and for eight at a
  time (`fq8`); conversions from and to the scalar form (`domain`, `fq`); batched affine
  additions on G1 that share one inversion (`point_buf`, `ifma_batch_add`); bucket sums
  (`buckets`, `bucket_add`).
- **Data.** An object or its bytes, with a framed encoding (`data`, `bytes_le`) and a readable
  form (`data_text`).
- **REST queries.** Base URLs, endpoints and routes, the bounds on a request, when it is asked
  again, and what an answer means (`rest`, `text`).

Laws of the batched additions stand in `batch_laws`, those of the bucket sums in `bucket_laws`
and `order_laws`.

The contracts speak of mathematical models: the prime field (`field`, with a primality proof of
the modulus in `prime` and `certificate`), points and their addition (`curve`, with its laws in
`curve_laws` and the group law in `group`), limbs (`limbs`), Montgomery products (`montgomery`) and congruences (`arith`).

`src/` is the verified library. `app/` is ordinary Rust around it: processor detection, the
HTTP clients, work off the async threads, and JSON. Calls into outside crates that the library
makes stand behind small functions whose contracts say what is believed of them: `bytes` and
`bech32` in `data` and `data_text`, `http` (through `ureq`) and `anyhow` in `rest`.
