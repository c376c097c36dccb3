# lisp

An interpreter for a small Lisp — atoms, dotted pairs, `nil`, `T`, the
built-ins `atom`, `eq`, `car`, `cdr`, `cons`, and the special forms `quote`
(also written `'e`), `cond`, `lambda` and `define` — whose lexer, parser,
evaluator and printer are verified with Verus against a mathematical model.

Layout:

- `src/lexer.rs`: tokens and `tokenize`, specified by `spec_tokenize`.
- `src/parser.rs`: S-expressions and the recursive-descent `Parser`,
  specified by `spec_parse`.
- `src/semantics.rs`: the model of values, environment frames and the
  evaluator (`spec_eval`, which runs on a nesting budget).
- `src/evaluator.rs`: `Value`, `Environment` (a store of frames addressed by
  index), `eval` and `eval_with_budget` (which reports when a nesting budget
  runs out), proved to compute what `spec_eval` describes.
- `src/printer.rs`: dotted-pair text of values.
- `src/laws.rs`: properties proved of the model: the store stays well-formed,
  evaluation is deterministic, read-after-write of `define`, child and parent
  frames, evaluation without `define` leaving existing frames alone, the
  tokenizer on joined texts, `'x` and list notation, `car`/`cdr` of
  `cons`, `quote`, and that printed data reads back as the same data.
- `src/prims.rs`: the four std operations taken on trust.
- `app/main.rs`: runs a sample program and prints its value.

Why environments are a store of frames: the environments of a running
program are shared and mutable (a closure sees later `define`s in the frame
it was made in, which is how recursion through `define` works).  Verus does
not support `RefCell`, so a shared mutable frame cannot be held by `Rc`;
instead every frame lives in one store and is named by its index, and a
closure keeps that index.  Within a frame, bindings are kept in the order
they are made and a lookup takes the latest one; that gives the
replace-on-insert behaviour of a map, and unlike a map keyed by `String` it
has a specification that lookups can be proved against.  Frames are never
freed.
