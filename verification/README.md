# axiom_os

Axiom is a capability-based operating system: authority is carried by
capabilities that form a signed delegation graph rooted at a hardware key.
This crate holds Axiom's logic, specified and proved with Verus.

`src/` (verified):

- `crypto` — identity hashes and Ed25519 keys/signatures as byte arrays;
  SHA-256 (`sha2`) and Ed25519 verification (`ed25519-dalek`) behind two
  trusted wrappers, named by `sha256` and `ed25519_accepts`.
- `capability` — capabilities, invocations, and the exact bytes that are
  hashed (identity payload) and signed (issuance, genesis, invocation messages).
- `table` — the hash-keyed map and the nonce set that the store and the
  validator use.
- `store` — the capability store: genesis root, capabilities, tombstones,
  and transactional issuance.
- `validator` — the validation of an invocation, as a spec
  (`validation_outcome`, `lineage_check`) and as code proved to compute it.
- `laws` — attenuation along delegation edges, anchoring at the genesis root,
  revocation of lineages, replay protection, uniqueness of the identity encoding.
- `kernel` — the bare-metal substrate's pure parts: the E820 boot frame
  allocator and the bitmap frame allocator, GDT/TSS and IDT encoding, and
  hexadecimal rendering for the console.

`app/` is the kernel program: it reads the bootloader's hand-off from
physical memory, writes the VGA buffer, and executes `lgdt`/`lidt`/`ltr`,
using the values that the library computes.
