# onboarding_bot

A Slack bot that records the members who join a workspace and answers slash
commands such as `/nuevos 01/2024 03/2024` with the people who joined in that
interval, grouped by month.

- `src/` is the verified library (Verus): the calendar model, date parsing,
  grouping by month, reply texts, and the decisions of each endpoint.
  `src/bridge.rs` holds the trusted calls into chrono, uuid and std.
- `app/` is the server around it: Rocket routes, Postgres (Diesel) and Redis
  access, environment and file handling.
- `tests/` runs the library on concrete values.
