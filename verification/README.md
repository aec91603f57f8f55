# lox_rs

A scanner, parser, static resolver and tree-walking interpreter for the
[Lox](https://craftinginterpreters.com/the-lox-language.html) language,
with contracts checked by Verus.

Classes (`class`, `this`, `super`) are not implemented.

## Layout

- `src/` is the verified library:
  - `scanner.rs` turns source bytes into tokens; `scan` states what the
    tokens (or the errors) are for every input.
  - `grammar.rs` states, rule by rule, what the parser makes of a list of
    tokens; `parser.rs` is the recursive descent parser that does it, and
    gives every variable reference an id of its own.
  - `resolver.rs` records, for each variable reference, how many scopes out
    its variable lives, and rejects `return` outside functions and
    variables read in their own initializers.
  - `environment.rs` is the store of variable environments that closures
    share.
  - `values.rs` holds run-time values, with IEEE 754 equality and order on
    the bits of doubles.
  - `semantics.rs` is a big-step semantics of expressions and statements;
    `interpreter.rs` runs programs, and its contracts say that it does what
    the semantics says, the host answering as the recorded events say.
    The host (the `Host` and `Numerals` traits) names, by spec functions,
    its answer to each question on numbers; the contracts hold of hosts
    whose answers are those, as they are for `f64` arithmetic and Rust's
    reading and printing of `f64`. The host also keeps, as a spec function,
    the record of what it did (lines printed, the clock, files read and
    written), and the contracts say that this record grows by exactly the
    effects among the interpreter's events.
  - `messages.rs` turns tokens, trees and errors into text; numbers as the
    `Numerals` given print them.
- `app/` is the command-line program: it reads the file, runs the stages,
  and does what only the machine can (doubles, the clock, files, output).
- `tests/` holds the tests.

## Running

```console
$ lox_rs [--verbose/-v] <FILE>
```
