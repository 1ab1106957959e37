# hato

Hato sends files from one machine to another, peer to peer, over iroh. This is its
engine, written in Verus: every function states in its contract what it returns, and
Verus proves that it does.

## Layout

- `src/` is the library. It decides and computes; it does not touch the network, the
  disk or the screen.
  - `text`, `numbers`, `order`, `traces`: texts, numerals, sorting, counting.
  - `transfer`, `ticket`, `endpoint`, `scratch`: what is sent under which name, how a
    ticket and an endpoint id are read, and where scratch data goes.
  - `names`, `contacts`, `pairing`: display names, the contact book as it is shown, and
    what two machines accept of each other.
  - `sending`, `serving`, `receiving`, `listen`, `editing`: the flows of the tool as state
    machines. Each takes the outcome of a step and says what is to be done next.
  - `version`, `update`, `checksum`: self-update.
  - `errors`, `report`: what the user is told.
- `tests/` runs the library on concrete values, with the outside crates linked.
- `app/` is ordinary Rust around the library: the command line, the desktop window and
  the iroh endpoints. It performs what the state machines ask for.

## What is trusted

A few items rest on outside crates and are believed, not proved: reading endpoint ids
and tickets, deriving a public key, the blob collection, SHA-256, the texts of HTTP
statuses and of byte counts, the last component of a path, and `String::push`. Each of
them is marked `external_body` or `assume_specification`, and its comment says what is
claimed.

Properties that relate several functions are proof functions whose names begin with
`law_`.
