# api_gateway

The request-handling logic of the ALICE i18n API gateway, verified with Verus.

- `src/` — the verified library:
  - `rate_limit` — exact integer token buckets, plan limits, per-request admission;
  - `auth` — claims, bearer-token versus API-key choice, admin check;
  - `proxy` — forwarding rules, upstream status, `Location` rewriting;
  - `admin` — allowed update fields, update paths, revenue summary;
  - `supabase` — profile-store addresses and `Content-Range` counts;
  - `calendar` — Unix time to proleptic Gregorian dates and `YYYY-MM-DD` text;
  - `errors`, `service`, `text` — error answers, health/license answers, string helpers.
- `app/main.rs` — the axum server: routing, HTTP clients, JWT decoding, JSON,
  the shared map of buckets, and floating-point timing.
- `tests/` — tests run against the compiled library.
