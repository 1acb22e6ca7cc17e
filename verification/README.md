# prefetch

Format-aware prefetching of files into the OS page cache, with its logic
verified by Verus.

`src/` is the verified library:

- `gguf` parses GGUF model headers (header, metadata, tensor table) from
  the file's bytes into a layout of logical layer groups in inference order;
  `gguf::properties` holds the laws of the parse as a whole.
- `providers` describes any file as prioritised byte-range segments, from a
  registered provider or a `.prefetch.toml` manifest; `gguf_provider` turns
  a GGUF layout into such segments.
- `engine` decides a prefetch run step by step: which segments, in which
  chunks, and where the memory budget (`strategy`) stops it; `progress`
  counts what was advised.
- `cache_status` turns page residency into per-file and per-segment
  figures; `platform` holds the page and chunk arithmetic of the backends.
- `discovery`, `config`, `paths` and `security` hold the decisions of
  Ollama model discovery, configuration defaults, default locations and
  socket permissions.
- `order`, `strmap` and `text` are the supporting stable ordering, string
  map and character routines.

`app/` is the command-line program around the library: argument parsing,
files, memory maps, system calls, serialisation and printing.
`tests/` exercises the library on concrete inputs.
