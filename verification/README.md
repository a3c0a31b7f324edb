# skshader

The shader front end of a StereoKit binding, verified with Verus.

- `src/settings.rs`: the native compiler's settings as plain values, and
  `CompilerSettings::new`, which fills them from the user's options.
- `src/source.rs`: the expansion of `#include "stereokit.hlsli"` and the
  NUL-terminated input handed to the compiler.
- `src/cache.rs`: the registry of inline shader names, the source hash, the
  decimal form of a stored hash and the step-by-step decisions of the file
  cache.
- `src/macro_input.rs`: the reading of the `include_shader!` macro's input.
- `app/`: the native compiler's C bindings, the macro expansion with its file
  I/O, and a `main` that expands the default shader.
