# plan_ai_core

Infrastructure for chats with an agent: persisted sessions with pins and
phases, runs of an agent against the signals that stop it, approval of tool
calls by a human, tools over the endpoints of a registry, streaming to clients,
and framing on the wire.

- `src/` is the library. Its contracts say what each function returns or
  changes, and Verus proves them. Calls into other crates stand behind trusted
  items, each with a doc comment that says what is believed of the call.
- `tests/` runs the library on given values.
- `app/` is what surrounds it: channels and tasks, files and tables, the
  serialised copies of its types, and telemetry.

Prices, which are floating-point numbers, are opaque to the library; `app/`
multiplies them. The agent framework and the registry of endpoints are traits
of `app/` that a host implements.
