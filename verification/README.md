# rusty_tip

Control logic for a scanning probe microscope driven through the Nanonis
TCP interface: the binary wire protocol, the state a machine is known to be
in and what an action needs of it, tip-preparation policies, run logs and
their action trees, the INI layer, pass numbering and sections of
multi-pass configuration files (whose floating-point fields are read and
written in `app/`), GSF and NumPy exports,
and the bookkeeping of the data stream.

Layout:

- `src/` is the library, written in Verus. Every function states what it
  returns in its contract and is proved against it. Public proof functions
  named `law_*` state properties that span calls (a value encoded then
  decoded comes back, a degraded state stays degraded, a reader finds what a
  writer wrote, and so on).
- `app/` is ordinary Rust around the library: sockets, files, threads,
  serde, floating-point settings and rendering.
- `tests/` runs the library on concrete values.

The calls into `byteorder` (in `src/nanonis/be.rs`) and into the few std
functions that vstd leaves unspecified go through small trusted wrappers,
each marked `#[verifier::external_body]` with a doc comment saying what it
claims of the call.
