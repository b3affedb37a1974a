# tonggeret-dashboard

A collector that scrapes Prometheus targets, keeps recent samples for range
queries, and serves them with the stored history. The logic is a library
verified with Verus; the program around it does the input and output.

- `src/`: the library. Its modules:
  - `config`, `cli`: configuration and command line.
  - `exposition`, `scrape`, `cycle`: from exposition text to what is stored and
    counted. `scrape_laws` states what holds of everything that is stored.
  - `query`, `selector`, `range`, `matrix`, `api`: the buffer of recent samples
    and range queries over it, with `query_laws`.
  - `queue`, `targets`, `urls`, `status`, `control`: the job queue, the target
    registry, collector status and the control API, with `queue_laws` and
    `target_laws`.
  - `cold`, `proxy`: cold files, and the dashboard's side of the worker API.
  - `text`, `labels`, `numbers`, `counts`, `clock`: what the others build on.
- `tests/`: tests of the library.
- `app/`: the `collector` program.

Sample values are doubles. The library carries them as their 64 bits and never
computes with them; the arithmetic on query parameters is done in `app/`.
