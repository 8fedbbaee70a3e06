# mixtape

The tools and HTTP server of the mixtape agent framework, with their logic
verified by Verus.

- `src/` is the verified library. `server/` converts agent events to the
  AG-UI and AgentCore streaming protocols, decides how interrupts and
  errors are answered, and plans the router's endpoints. `tools/` holds the
  file system, search, edit, process, fetch and AWS tools: their inputs,
  the checks they make, the reports they write, and the plain, ANSI and
  Markdown renderings of those reports. `text.rs` holds the string
  functions and their specifications.
- `app/` is the I/O around the library: reading and writing files, walking
  directories, running processes, HTTP requests and AWS signing, the axum
  handlers, and the JSON forms of inputs, requests and events.
- `tests/` runs the library on concrete values.

Laws that relate several functions are public proof functions named
`law_*`; for example, each report that a tool writes reads back, through
the parser its renderings use, as the values it was written from.
