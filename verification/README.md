# kcptun_std

The verified core of the kcptun client and server: what they decide and compute, with contracts that
Verus proves.

- `src/` is the library.
  - `cli`: flags, their values and the help text.
  - `config`, `gojson`: the configuration, the JSON overlay, the mode presets and the checks.
  - `comp`, `internals`: the compressed stream, chunk by chunk.
  - `pipe`, `smuxio`, `qpp`: the state of one direction, of one multiplexed stream, and of the
    ciphertext on its way out.
  - `crypt`, `smuxcfg`, `mainutil`, `runtime`, `signal`: what happens at startup and on the way out.
  - `log`, `gotime`, `snmp`, `pprof`: log lines, dates, counter records and the profiling endpoint.
  - `goaddr`, `multiport`, `text`, `version`: addresses, text and the version line.
- `app/` is the I/O around it: sockets, files, signals, the clock and the process.
- `tests/` runs the library on concrete values.

Laws that relate several functions are public proof functions; they stand next to what they are
about, and those of the command line in `cli::laws` and `cli::values`, and the default settings in
`config::defaults`. What is taken from other crates (the snappy
block coder, CRC-32C, PBKDF2, the calendar, the regular expression and the bounded queue) is called
through small wrappers, each of which says in its contract what is relied upon.
