# railway_rs

An Indian Railways information service: train running status, station
boards, schedules, seat availability, PNR status and an AI assistant, read
from several upstream sources (NTES, IRCTC, Paytm, ConfirmTkt, Ixigo,
RailYatri and others) and raced against each other for the fastest answer.

## Layout

- `src/` is the library, verified with Verus. It holds the parsers for the
  upstream pages and answers, the request builders, the fan-out and
  failover decisions, the TTL cache, the cookie jars, the request metrics,
  the NTES request encryption, the SSE and tool-call stream decoding of the
  AI gateway, the ChatML prompt rendering and the decision protocol of the
  in-process model. Every public function states what it returns in its
  `ensures`; properties that relate several calls stand as public proof
  functions beside the code they speak of.
- Calls into outside crates (chrono, regex, serde_json, md-5, aes/cbc,
  base64, hex, urlencoding) and into the parts of std that Verus does not
  specify go through small trusted wrappers, each with a doc comment saying
  what its contract claims of the outside function.
- `app/` is the process around the library: configuration from the
  environment, HTTP with reqwest and axum, the async fan-out race, the
  clock, floating-point metrics and the Prometheus exposition. It hands the
  library plain values and acts on what comes back.
- `tests/` runs the library on concrete inputs.
