# ir

`ir` runs self-describing R scripts and renders Quarto sources: the
packages, R version and snapshot date sit in the file's frontmatter, and
`ir` resolves them into a cached library before R starts.

## Layout

- `src/` is the library, verified with Verus. It holds the decisions:
  reading frontmatter (`spec`, `script`, `quarto`, `yaml`), parsing the
  command line (`cli`), choosing R and snapshot dates (`runtime`, `rig`),
  keying and reading the resolution caches (`resolve_cache`, `python`,
  `digest`), finding package executables and writing their launchers
  (`tool`), and the messages of `ir cache` (`cache`). Each public function
  states its result in its contract; the laws the library keeps (cache keys
  ignore the order of requirements, a marker reads back what was written,
  quoted launcher words read back unchanged, tool shadowing and resolver
  retries) are proof functions beside the code they speak of.
- `tests/` exercises the library on concrete values.
- `app/` is the program: argument handling, the environment, files,
  processes and rig, around the library's functions.

## Resolver drivers

The program runs R code that resolves packages: `tooling.R` and
`resolve.R`, and, to clear the R tooling caches, `cache-clean.R`. It reads
them from a `driver` directory next to the `ir` executable.
