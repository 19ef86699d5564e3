# spel_framework_core

The verified core of a framework for writing programs as annotated Rust modules.

A program is a `#[lez_program]` module of `#[instruction]` fns. Extension crates
contribute instructions, gates and state to it, by consent of both sides: the
crate is a direct dependency and its marker stands on the module. The library
decides what that makes of the program:

- `path` holds paths as they are written, `disk` what is known of the file system.
  `dep_walk` resolves the dependency graph, `scan` reads source files module by
  module. A question without an answer is handed back to the caller.
- `extension` discovers extensions (`discovery`, `metadata`, `marker`), resolves
  derived offsets (`slots`), rewrites embedded roles, wraps fns and injects the
  accounts their gates need (`inject`).
- `idl_gen` describes a program, `account_types` and `layouts` its account
  layouts.
- `slot_offsets` emits offset constants, layout tests and asserts.

Contracts say what a function returns over spec functions on sequences, options
and integers. A function that asks the disk also says which question it asks
first. The `*_laws` modules hold what is promised across functions, among them:

- the dispatcher and the IDL see the same accounts, and a file and its text are
  described alike;
- gating strips nothing, and a producer that omits locations writes no offset;
- injection, role rewriting and offset resolution are idempotent (injection,
  where no role loses the parameter it was led to);
- the order of declarations and of marker arguments does not matter;
- an extension that is embedded loses the instructions it skips and gains its
  embed, and nothing else changes;
- every marker is accounted for, a layout has one owner, and no crate that is
  not connected declares one;
- the walk over path dependencies finds what they lead to and nothing else, a
  deeper walk or search finds nothing more, and `cargo metadata` is asked for on
  request only;
- a contributed call is bound once.

What is trusted: `nodes` calls the Rust parser (`syn`) and has `proc-macro2` write
string literals, `value` calls the TOML and JSON parsers, `text` the case mapping and quoting of the standard library. What they
give is named, as a function of the text they are given. Most names cover two
calls that belong together: a parse and the rendering of what was parsed, or a
TOML parse and its JSON form. A JSON document may nest as deep as the JSON parser
takes it, a manifest as deep as the TOML parser does. Of case mapping it is also said what it does to
ASCII letters. The IDL's discriminators are SHA-256 hashes, which `sha256`
computes and proves.

`app/` is the host side: files, `cargo metadata`, standard error, token streams.
