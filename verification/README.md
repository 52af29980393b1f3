# Billing API

A service that bills organisations for what their projects use on a serverless
platform: it meters requests and CPU seconds, takes their price off the credit of
each organisation, deletes the services of an organisation whose credit is used up,
and rolls them out again when the credit is filled up.

- `src/` is the verified library: what the service decides, all but its floating-point
  arithmetic, as functions with contracts. A process that needs the outside (the creation
  of a project, a rollout, a change of a credit, the deletion of an organisation, a
  webhook, billing) hands out one action at a time and goes on with the event that answers
  it, or is broken off where the action failed. The promises that span several steps are
  stated as the public proof functions whose names begin with `law_`.
- `app/` is the program around it: the HTTP API, the database, the metrics service, the
  clock, and what is floating point: the samples are read there, and priced at the rates
  that stand there.
- `tests/` runs the library.

Usages and what is stashed of them are floating-point numbers. The library carries
them as their bits and never looks inside. What it promises about amounts
(`src/accounting.rs`) is stated over any reading of the bits for which the prices are
exact.
