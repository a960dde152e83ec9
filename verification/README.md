# consistent_balances

Answers questions about the balances of accounts from two indices: the balance of the coins that an
account owns, and the balance that its address holds directly.

- `src/` is the verified library. It decides what a request asks for, which keys to read, how the two
  indices are merged into a page and what is answered. Its contracts are stated over views of its
  types; the functions whose names start with `law_` state what holds of the library as a whole.
- `app/` reads the indices, talks gRPC and GraphQL, and calls the library in between.
- `tests/` runs the library on concrete values.

Types are parsed by `sui-sdk-types`. What is stated of its parser stands beside `parse_sdk_type` in
`src/type_tag.rs`; `key_with_type`, `get_with_type` and `batch_with_types` take what it reads as an
argument.
