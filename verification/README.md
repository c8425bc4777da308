# Prompt compressor

A request to a large model is often longer than what it asks for. This library has a small local
model write a shorter prompt and sends that prompt only where every requirement of the request is
found in it again: its technical terms, its numbers, its negations and other constraints, its code
blocks, paths, file names, quoted texts and error codes. Where one is missing the request itself is
sent, with the reason.

The library under `src/` is written in Verus. What each function returns is stated over sequences
of characters and proved.

- `text`, `contents`, `integers`, `text_map`: strings, lists, numbers and ordered maps.
- `compression`: the service that answers requests, the checks of a shorter prompt, and the
  estimate of tokens.
- `config`: profiles, models, runtimes and wordings, and what is wrong with a catalogue of them.
- `runtime`: everything around a model. What a request goes through before (`preprocess`, `noise`,
  `typos`, `corrections`), what is read from it (`structure`, `clauses`, `terms`, `constraints`),
  what is made of an answer (`output_parser`, `polish`, `restoration`, `draft`), how a model is run
  (`embedded`, `sessions`, `budget`, `prompts`, `benchmark`, `thread_tuning`), fetched
  (`model_download`, `model_files`) and reached over HTTP (`http`, `server`).
- `evaluation`: how outputs are judged against a suite of cases.

Public proof functions state what holds of the library as a whole, such as that an answer which is
not the request itself passed every check, that corrections leave quoted literals as they are, or
that a failure of a runtime never reaches the caller.

`app/` is the command line program around the library: files, network, processes, the engine of
the embedded model, and ratios in floating point.

A few functions of `serde_json`, `sha2`, `uuid` and the standard library are trusted. Each stands
behind a small function or declaration whose comment says what is taken for granted.
