# launcher

The verified core of a launcher for Java Web Start administrators: it keeps
a store of saved server connections, reads a server's JNLP, decides which
jars to fetch into the shared cache, and plans the administrator's command
line. The functions under `src/` carry contracts that Verus proves; the
one that only reads `JAVA_HOME` from the environment states nothing of it.

## Layout

- `src/connection.rs`: the connection entry, its defaults, and the store
  (a map from id to entry) with save, delete, import and updates.
- `src/webstart.rs`: address normalisation, JNLP reading, the depth-first
  jar collector, the cache plan and the launch plan.
- `src/launch.rs`: the launch as a state machine from event to next action
  (Java check, certificate pin, load, spawn).
- `src/desktop.rs`: icons, certificate pins, console labels and desktop
  entries.
- `src/xml.rs`, `src/text.rs`, `src/codec.rs`: the parsed XML model, string
  rules (trimming, splitting, case), and SHA-256 / Base64.
- `src/laws.rs`: properties of the library as a whole, proved.
- `app/`: the process around the library (files, network, child processes),
  not verified.
- `tests/`: tests run against the compiled library.

Calls into `uuid`, `home`, `sha2`, `base64`, `reqwest` (its `Url`) and
`roxmltree` go through small trusted wrappers whose contracts are stated in
their doc comments.
