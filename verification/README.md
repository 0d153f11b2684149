# tuff_brg

The verified core of a bridge that checks the text an AI assistant streams
into a browser page against anchor facts, and stops the output when a claim
contradicts them.

- `src/` — the library, verified with Verus:
  - `text` — white space, trimming, splitting, lines and substring search over `Seq<char>`;
  - `lightweight` — the meaning database (tag → required meaning) and the verifier that holds a payload to it;
  - `formats` — the meanings given in the environment, the meaning database file and the lightweight log, with the laws that a written line reads back;
  - `bridge` — the bridge's decisions on each incoming message, on the fast path's finding and on the pipeline's verdict (when a STOP is sent);
  - `history` — the history entries of the lightweight log, with operation ids that never collide;
  - `pending` — proposed facts and their approval;
  - `message`, `models`, `pipeline` — the protocol's values, the pipeline's verdicts, the input splitter.
- `app/` — the I/O around it: JSON (serde), files, environment, sockets and the HTTP history endpoints.
- `tests/` — tests of the library on concrete values.
