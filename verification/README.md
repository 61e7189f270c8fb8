# linux-audit-mcp

Read-only checks of Linux servers over SSH, in two modes: a security audit with a weighted
0-100 score, and an operational-health snapshot with `OK`/`WARN`/`CRIT` verdicts, a history and
anomaly detection. The logic is written in Verus and proved against its contracts.

## Layout

- `src/` is the library, all of it verified.
  - `catalog`, `ssh`: which commands may be sent, and how `ssh` is invoked.
  - `checks`, `audit`, `scoring`: the checks, what they make of command output, and the score.
  - `health`: parsers, metrics, the course of a snapshot (`collect`) and its report.
  - `history`, `anomaly`, `run::annotate`: what is kept of a snapshot, and what a fresh one is
    compared with.
  - `config`, `cli`, `run`: targets and groups, the selection of hosts, group reports, exit codes.
  - `report`, `report_sarif`, `json`, `json_text`, `snapshot_text`: rendering, and reading stored
    snapshots back. A JSON document is a `serde_json` value; `json` puts it together and models
    what it holds. A single report keeps its keys in the order of its fields; a listing of several
    (a group, a history, SARIF) has them sorted.
  - `text`, `textmap`, `calendar`, `quantity`, `double`, `rank`: text, maps, dates, exact
    quotients, quotients rounded to fifty-three binary digits, sorting.
- `app/` is the program around it: the command line, the config file, the `ssh` process, the
  history files and the MCP server.
- `tests/` runs the library on concrete values.

## Numbers

The library has no floating point. A reading, a threshold or a rate is held in millionths
(`i64`) or as an exact quotient of whole numbers; a span of time is held in nanoseconds; a score
is computed in hundredths. A load per core, and a reading that is printed, is rounded as a
double-precision number would be.

## Contracts

A text is modelled by the sequence of its characters, a report by a `...View` of its fields. Every
function states its result as a spec function of its inputs, so a report's text is fixed to the
last character. What holds throughout (nothing outside the catalog is sent, a target that is not
opted in never sees `sudo`, a failure never raises the score, anomalies never change a verdict,
the snapshots that are recorded are read back) is stated and proved in functions whose names
begin with `law_`.

What a few functions outside the library give is taken on trust: of the standard library,
`String::push`, the debug form of a text and of a character, and `str::to_lowercase`; of
`serde_json`, how a `Value` and a `Number` are made and taken apart, `from_str`, `to_string`,
`to_string_pretty` and `Value::sort_all_objects`.
