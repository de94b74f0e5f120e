# pos_backend

Backend for a commute weather app: it tells a user whether to bring a rain
jacket on the way to and from work, shows the wet stretches of an off day,
and pushes an alert shortly before a rainy departure.

- `src/` is the verified library (Verus): every rule has a contract over plain
  mathematical models, and the properties the design promises are proved as
  lemmas (for example that the jacket view never shows more than four rows and
  that rows are separated by more than an hour of dry weather, or that a user is
  alerted at most once a day).
- `app/` is the service around it: HTTP routes (axum), the Postgres store
  (sqlx), fetching the met.no forecast and sending Expo pushes (reqwest), and
  the alert job's timer (tokio).
- `tests/` exercise the library on concrete values.

Times are modelled as whole seconds plus nanoseconds (a leap second is read
as the last nanosecond of the second it extends); the
Oslo time-zone conversions are made by chrono-tz behind four trusted wrappers in
`src/clock.rs`.
