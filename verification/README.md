# trash

An interpreter for Trash, a small stack-of-frames language somewhere between
Haskell, Tcl and Forth, written in Verus.

```trash
$set stdout [$stdout "Hello, world!"]
```

## Layout

- `src/syntax.rs` – the grammar as spec functions over characters, and the
  parser proved to follow it.
- `src/check.rs` – the static check that rejects `$name` of a variable that
  was already moved and not assigned since.
- `src/semantics.rs` – what running a program does, as spec functions over a
  model of frames and streams.
- `src/interp.rs` – the interpreter, proved to do what `semantics` says.
- `src/value.rs`, `src/vars.rs`, `src/world.rs`, `src/methods.rs`,
  `src/text.rs`, `src/error.rs` – objects (scanners among them), frames,
  streams, the methods of strings, integers and booleans, number and text
  utilities, errors and their messages.
- `src/stdlib.rs` – the environment a program starts in.
- `src/laws.rs` – laws of the language: every evaluation only appends to the
  output and, when it succeeds, changes no frame but the current one; reads
  after writes; round trips of numbers, booleans and `split`.
- `app/` – the command-line program.  `app/floats.rs` keeps the conversions
  and methods of floating-point numbers on their own: the library's objects
  hold no floats, so the interpreter offers no `float` builtin.
