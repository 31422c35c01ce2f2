# prvnz-edge-core

Digital Product Passports for small edge nodes, as a library verified with Verus.

- `schema`: the receipt of an agent's step as a JSON-LD passport (CEN/CLC JTC 24,
  GS1 EPCIS 2.0), and back.
- `trigger`: lifecycle events from a feed of JSON lines.
- `policy`: where a receipt goes, by its tags and the names of its claims.
- `disclosure` and `envelope`: claims under selective disclosure, in SD-JWT
  envelopes.
- `config`, `receipt`, `time`, `digest`, `json`, `text`, `order`: what these are
  built from.
- `outside`: the calls into other crates, each with what is believed of it.

The functions under `src/` carry contracts that say what they return. What holds of several functions
together is stated by the proof functions whose names start with `law_`.

`app/` is the command line and the glue to the inference kernel, `tests/` runs the
library.
