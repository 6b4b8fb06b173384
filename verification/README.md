# sga

A compiler front end and bytecode generator for SGA, a small language whose
keywords are written in the Standard Galactic Alphabet (the UCSUR block
U+EB40..U+EB59), verified with Verus.

`src/` is the verified library:

- `sga_alphabet`, `lexer`, `parser`, `ast`: source text to tokens to a
  syntax tree, with exact specifications of what each stage accepts and the
  error it reports otherwise; `parser_laws` proves that `IMPORT`, `STRUCT`
  and named `FN` stand only at the top level of a parsed program;
- `semantic`, `typechecker`: the scoping, mutability and ownership rules and
  the gradual type rules, each a specification of its verdict on a program;
- `codegen`, `runtime`: compilation to bytecode and the bytecode verifier;
  every compiled program passes the verifier, and every expression leaves
  exactly one value on the stack;
- `module_resolver`: `IMPORT` resolution as a state machine whose caller does
  the file work;
- `json`, `json_laws`: a JSON reader and writer, and the proof that what is
  written reads back as the same value;
- `translit`: the rewriting of ASCII keyword mnemonics into SGA letters;
- `stdlib`: the computations of the builtin functions on integers and
  strings (ranges, powers, integer parsing, splitting, replacing, trimming,
  searching);
- `env`: the variables of a running program (scopes, shadowing,
  immutability), generic over the values the machine stores.

`app/` holds the command-line program, the virtual machine and the runtime
values (which hold floating-point numbers and shared arrays), and the file
system work of `IMPORT`.
