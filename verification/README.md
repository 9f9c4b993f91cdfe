# registerlang, verified

A small expression language compiled to bytecode for a register machine,
written in Verus.

- `src/` is the verified library: spans, tokens and errors; the lexer (and the
  simpler scanner); the Pratt-parsing compiler that emits bytecode into a
  chunk; the packing of instructions; and the register machine, which decides
  every step of execution and hands the arithmetic on numbers to its caller.
  Numbers stay abstract in the library: the compiler keeps a number literal as
  its span in the source.
- `app/` is the program around it: reading files and lines, printing, and the
  floating point work (reading number literals as `f64`, arithmetic,
  comparisons and powers of numbers).
- `tests/` runs the library on concrete inputs.
