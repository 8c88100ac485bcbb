# redscript_codegen

The code generator of a compiler for redscript, written in Rust and verified with Verus.
It turns checked expressions into the bytecode of functions and adds to the constant pool
whatever that code refers to.

`CodeGen::build_function` and `CodeGen::build_expr` are the entry points. Their contracts
say exactly which code, which locals and which pool entries come out: they are those of
`translation::build`, the translation scheme. It gives `None` for programs that have no
code (something unknown is referred to, an expression is not supported, a function does
not fit in the address range of code), and the entry points ask callers not to pass those.

## Modules

- `ast`, `types`, `compiler`: checked programs, their types, and where the items that they
  refer to stand in the pool.
- `bytecode`: instructions, their sizes, and the layout of code.
- `pool`, `type_cache`, `builders`, `names`: the constant pool and what is added to it.
- `index_map`, `index_vec`: maps and lists of locals. `index_vec` holds the only code that
  is trusted: the calls into the `smallvec` crate.
- `translation`: the translation scheme.
- `codegen`: the generator.

What holds of every function that is generated is proved in modules of its own:

- `labels`: every label that code refers to is placed in it, exactly once.
- `layout`: laying code out keeps where instructions start; every jump leads to the start
  of an instruction; calls nest; the numbers of labels leave no trace.
- `direction`: labels are placed ahead of what refers to them, but for the jump back of a
  `while`.
- `growth`, `progress`: the pool, the code and the locals are only added to; no text is
  interned twice, and no type that goes through the type cache is defined twice.
- `references`, `soundness`: code and definitions refer only to entries of the pool of the
  right kind.
- `lambda`: what becomes of a lambda.
