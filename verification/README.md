# imagegen

A command-line client for OpenAI's gpt-image models, built around a verified
library.

- `src/` is the library, checked with Verus: size validation and the
  gpt-image-2 size hints, the request body and multipart form, classification
  of API errors, key resolution (flag, environment, Codex CLI login), selection of image models, output file naming
  (slugs, numbered and automatically named paths) and the exit codes of the
  tool. Paths are handled as strings with `/` as the separator.
- `app/` is the program around it: argument parsing, the HTTP client, reading
  and writing files, and printing.
- `tests/` exercises the library on concrete values.
