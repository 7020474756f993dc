# landstrip

The decisions of a process sandbox, verified with Verus. A policy document is
lowered to an access policy, and the policy decides what a sandboxed program
may open, change, connect to and bind. What it is denied is told to the
launcher as a trap, which may approve it.

- `src/` holds the verified library: paths and patterns, the lowering of
  policies, the scan for readable roots, the macOS profile and what its
  rules decide, Windows paths and the course of a Windows run, and, under
  `broker/`, what the Linux broker decides about each stopped call. Public
  functions state in `ensures` what they return. Functions named `law_` state
  what holds across functions. What differs between the machines and C
  libraries of Linux, from the byte order to the open flags, is an argument:
  `broker/machine.rs` lists it.
- `tests/` runs the library on concrete values.
- `app/` does the input and output around it: files, descriptors, system calls
  and threads. It hands the library plain values and acts on what comes back.

The library trusts four functions of other crates: `String::from_utf8_lossy`,
`String::from_utf8`, `String::push` and `serde_json::from_str`. The doc comment
above each says what is claimed of it.
