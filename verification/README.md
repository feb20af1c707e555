# cretonne

Pieces of a code generator and of its component-model tooling, written in
Verus with their contracts proved:

- `settings` and `settings::detail`: settings groups. A `Builder` collects
  the values of a group's settings by name (`set_bool`, `set`); the flags of
  a group read them back and print them. The shared group lives in
  `settings`, the RISC-V group in `isa::riscv::settings`, with its predicate
  `full_float`.
- `generators::component_types`: `arbitrary_val` generates a value of a
  component-model interface type from the bytes of an
  `arbitrary::Unstructured`; the value generated is a function of those bytes,
  has the requested type, and its lists stay within the length bounds.
- `component::compiler`: where compiled trampolines lie in a text section.
- `text`: decimal rendering of integers.

`app/` holds the serializable copies of the compilation metadata.

Not in this crate: the ABI interfaces `ABICallee` and `ABICaller` and the
`ComponentCompiler` interface, which are declarations over types of the code
generator and of components that this crate does not define; and the
round-trip runs of generated values through a component instance
(`static_api_test0` to `static_api_test5`), which need a component engine.
