# tcglookup

Client for the TCG Price Lookup API, with its logic verified in Verus.

- `src/` is the verified library: percent-encoding of card ids
  (`urlencode`), the requests of each endpoint (paths and query parameters),
  the splitting of large batch searches into runs of 20 ids, the step by
  step sending of those runs (stopping at the first failure) and the merging
  of their pages, the headers of every request, the classification of HTTP responses into errors, the
  reading of rate-limit headers, and the client builder's configuration.
- `app/` is the async HTTP client around it: `Client`, the endpoint handles,
  the JSON data types and the error type with its `Display`, using `reqwest`,
  `serde`, `serde_json` and `thiserror`.
- `tests/` exercises the library on concrete values.
