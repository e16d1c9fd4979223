# vala

The verified core of Rust bindings to libvala, the Vala compiler library.

- `src/vapi.rs` reads the class and interface declarations of a `.vapi` file
  (namespaces, `cheader_filename` attributes, generic parameters, base lists)
  into a name-ordered map, and derives the C snake names and Rust type names
  of the wrappers.
- `src/codegen.rs` turns those declarations into the wrapper module: gee
  classes dropped, bases reclassified into parent and interfaces, one
  ref-counted handle per class with a root type, `Deref`/`AsRef`/`IsA`/
  `Implements` along the hierarchy, and the count of wrappers.
- `src/text.rs` and `src/order.rs` hold the character-level operations
  (`trim`, `lines`, `split`, searching) and the lexicographic order these rest on.
- `src/scanner.rs`, `src/source.rs`, `src/report.rs`, `src/context.rs` and
  `src/symbol.rs` hold the plain value types of the safe layer: token kinds
  and their libvala codes, source positions, diagnostic counts, context
  settings, the per-thread record that refuses a nested current context, and
  the token stream that ends at the end of the file.
- `src/collections.rs` holds the arithmetic of libvala's list views: the
  length of a list, the bounds check on a read, and the cursor of an
  iteration.

The functions in `src/` carry contracts proved by Verus, with one exception:
`string_push` in `src/text.rs` hands one character to `String::push`, and its
contract is trusted rather than proved. `app/` holds what Verus does not see:
the build step that reads the installed vapi and writes the generated module,
the lock that serialises compilations, and the safe layer over libvala's C
API, which calls into the library above for every decision it makes.
