# faber

Sessions talk to a model, runs carry a turn out, and environments are the
machines a run can reach. This crate is the logic of that service, written in
Verus: what its functions promise is stated in their contracts, and Verus proves
it.

- `src/run*`: a run from its request to its terminal event, the history it
  leaves, and the registries that subscribers and stops reach it through.
- `src/environments.rs`, `src/environment/`: what can be bound to a session, and
  what a bound machine does, whether it is local, far away or in a container.
- `src/routes*`, `src/agent*`, `src/access.rs`: what requests ask for and how
  they are answered.
- `src/models*`: the rows behind them, and the refresh of the preset catalog.
- `src/presentation*`: where a preview is served from.
- `src/json.rs`, `src/text.rs`, `src/encoding.rs`, `src/message.rs`: values that
  everything else speaks of.

Laws that span several functions are public `proof fn`s beside them. What comes
from outside crates (JSON, archives, digests, URLs, base64, ids, random bytes,
the clock) stands behind small functions marked `external_body`, each with a
comment that says what is taken on trust.

`tests/` runs the compiled library. `app/` is the service around it: HTTP
handlers, the database, the docker daemon and the local machine.
