# dsvchc

A health-check service. It loads plugins (shared libraries with a small C
interface), adds the checks that its YAML configuration names, and answers
`GET /health` with a JSON report of every check's result.

- `src/` is the verified library (Verus): the ordered registry of plugins and
  checks (`registry`, `names`), the plugin protocol's status codes
  (`protocol`), the order of a round of checks, the aggregation of their
  results and the order of release (`plugins`), the report and its JSON text
  (`report`, `json`), the routing and answers of the HTTP endpoint (`server`),
  the configuration as a value and the order of start-up (`config`), and the
  answers of the sample plugin (`sample_plugin`).
- `app/` is the program around it: command line, reading the configuration
  file, loading the libraries and calling their C interface, the HTTP loop and
  the signal handling, and the sample plugin's C entry points.
- `tests/` runs the library on concrete values.
