# Slate

A data orchestrator for AI workloads: it moves datasets, model weights and checkpoints
between object stores, with a job queue, retries, pipelines, schedules, cost estimates
and a REST API. The library is verified with Verus.

## Layout

- `src/` is the library. Every function states in its contract what it returns or
  changes, and Verus proves it.
- `tests/` runs the library, with the outside crates linked.
- `app/` is the program around it: command line, SQLite, HTTP, the stores themselves.

## What the library holds

| Module | What it is about |
|---|---|
| `text`, `digits` | prefixes, pieces, decimal numbers in text |
| `double` | IEEE 754 doubles over integers, so that shown amounts are exact to the digit |
| `time`, `ids` | instants in UTC and UUIDs, with their texts |
| `job`, `row` | jobs, schedules, requests, and their rows in the database |
| `table`, `store`, `laws` | the tables, every operation on them, and what always holds |
| `config`, `store_url` | settings from the environment, and what a store URL names |
| `chunks`, `progress`, `transfer` | ranges of an object, reports, and the transfer engine |
| `cost` | egress prices |
| `schedule` | when a cron expression runs next |
| `worker`, `api`, `cli`, `bench` | the decisions of the worker, the API, the command line and the benchmark |

## What is taken on trust

The library calls `chrono`, `uuid`, `url`, `object_store` (its paths), `bytes` and `cron`.
Each call stands in a small function marked `external_body`; its doc comment names the
outside function and says what is claimed of it.
