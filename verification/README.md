# isola

Runs untrusted Python and JavaScript inside reusable WebAssembly sandboxes. This crate is the part
of it that decides: what a sandbox may see, where its output goes, what a script run does next,
which requests leave the sandbox, and when a guest component has to be linked again. Every function
in `src/` is verified with Verus against the contract in its header.

## Layout

- `host`, `value`, `octets`: what passes between guest and host, and the traits of a host.
- `sandbox`, `keyed`, `ordered`, `state`: options and how they are merged, templates, the arguments
  of a call, and the state of a live instance with its output buffer and its memory.
- `outgoing`: HTTP requests of a guest, from the first check to the answer.
- `fetch`, `urls`, `body_buffer`: HTTP requests of Python code, and the decoding of bodies that
  arrive in pieces (raw, text, lines, JSON, server-sent events).
- `line_laws`: what holds of a body that is read line by line, however it arrives.
- `python_script`, `js_script`: script runs as machines from a state and an event to the next state.
- `context`, `session`, `arguments`: the life of contexts and sandboxes in an embedding program.
- `components`, `fingerprint`, `paths`: the build of guest components.
- `text`: operations on text that the other modules share.

`app/` is the ordinary Rust around the library: the build tool, and the glue to the WebAssembly
engine, QuickJS, CPython, Node.js and the network.

## What is taken on trust

Calls into other crates stand behind small items whose contracts are believed rather than proved:
the byte containers of `bytes`, header lookup in `http`, URL parsing in `url`, the line parser of
`eventsource`, the section reader of `wasmparser`, and number access in `serde_json`; of the
standard library, `String::push` and `String::from_utf8`. Each names the function it stands for and
says what it claims of it.
