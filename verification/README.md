# py2cpp

A transpiler from a small subset of Python (functions, assignments, `print`,
`input`, `int`, `len`, list `append` and indexing, `for i in range(a, b)`,
`return`) to C++, with its behaviour stated in Verus contracts and proved.

Layout:

- `src/py2cpp/types.rs`: the program model (types, values, instructions,
  functions, code) and its spec-level views.
- `src/py2cpp/pattern.rs`: the regular expressions of the `regex` crate,
  behind trusted wrappers whose results are named.
- `src/py2cpp/instructions/`: one module per construct, each with a reader
  (`py2code`) and a C++ writer (`code2cpp`).
- `src/py2cpp/code.rs`: reading a block, a function and a whole program, and
  writing the C++ text; `Code::transpile` is the entry point.
- `src/py2cpp/infer.rs`: parameter types from the calls, and the checks on
  loops.
- `src/py2cpp/chance.rs`: the random suffix given to a variable that is
  assigned a value of another type; the parsers that may draw one are
  specified over the sequence of numbers drawn.
- `app/main.rs`: reads the Python file, asks `python3 -m py_compile` whether
  it is well formed, and writes `main.cpp`.
