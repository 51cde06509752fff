# bit

A desktop "pet" that you mostly talk to. It transcribes your speech locally, hands it to a
language model that carries out what you asked with a growing set of tools, and answers
with only "yes" or "no".

The rules it goes by are a Verus library: the functions in `src/` have contracts over
mathematical models, and Verus proves that the code keeps them.

## Layout

- `src/` — the verified library
  - `text`, `paths`, `json`, `output`, `roster` — strings, paths, JSON trees, the bound on
    what tools hand back, lists of named things
  - `config` — settings and the API key
  - `agent` — requests, replies, tool calls, and how free text becomes a yes or a no
  - `tools` — the built-in tools
  - `workflows` — named routines: how they are kept, found, run and turned into scripts
  - `mcp` — MCP servers: storage, the wire, tool names, routing; `mcp::registry` the state
    of each server, `mcp::http` remote servers and signing in, `mcp::oauth` token files
  - `stt`, `audio` — transcription models and recording
  - `motion` — where the Bit goes on the desktop
  - `session` — from the press of the shortcut to the answer
- `tests/` — the library on concrete values
- `app/` — the program around it: windows, files, processes, sockets, the microphone, and
  floating-point arithmetic

Names that begin with `law_` are public proofs of what holds across functions: that a saved
workflow is the one its name leads to, that a conversation ends, that a failed call makes
its server connect anew, that no two servers share a token file.

What is not proved is what the library takes from outside: `serde_json`'s reading and
writing of JSON, and a few functions of the standard library on Unicode text. Each stands in
one place, in `src/json.rs` or `src/text.rs`, with a comment that says what is taken for
granted. Two functions there, which carry a value over to `serde_json` and back, claim
nothing.
