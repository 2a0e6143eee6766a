# patchbay

A verified library for patchbay, a lab for testing networked Rust programs:
simulation matrices, test output parsing and run comparison, the lab's DNS
record store and its query answers, load-balancer rules, firewall presets,
capture slots, and the command lines, plans and state machines that bring the
QEMU and Apple `container` guests up and down.

- `src/` is the library. Its functions carry `requires`/`ensures`
  contracts that Verus proves, and laws that span several functions are
  public `proof fn`s named `law_*`. The exceptions are the few
  `#[verifier::external_body]` wrappers around calls into std, serde_json,
  sha2 and the DNS crate: their contracts are trusted, not proved, and each
  one's doc comment says what it claims.
- `tests/` runs the library on concrete values.
- `app/` is the program around the library: argument handling, files,
  processes, sockets and the HTTP server. It performs the actions that the
  library's state machines ask for and hands back what came of them.
