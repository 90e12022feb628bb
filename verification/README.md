# russel

An in-memory cache of byte values grouped in named clusters, served over
HTTP, with a few Windows service helpers around it.

- `src/` is the verified library: the cache (`cache`, over a table of
  distinct string names in `table`), the HTTP request handling (`server`),
  the Vigenère byte cipher (`crypto`), the user `Path` update (`env_var`),
  the command-line commands (`input`), the `nssm` install arguments
  (`service`) and the configuration values (`config`).
- `app/` is the program: it reads `config/config.json`, runs the actix-web
  server over a shared cache, reads and writes the registry, and starts
  `nssm`.
- `tests/` exercises the library on concrete values.
