# namir

The logic of a guitar amplifier made of neural models, written in Rust and verified with Verus: the
stages of the audio chain, the registry of parameters, the standalone application and the plugin
behind their windows, and the screen that both show.

- `src/` is the library. Every function states what it does in `requires` and `ensures`, and what
  holds across functions is stated as public proof functions next to them.
- `tests/` runs the library on real samples, with `rubato` and `rtrb` linked.
- `app/` is the product around it: floating-point signal processing, windows, threads and files.

A sample is carried as the bits of a floating-point number. The library decides which operation
happens to which samples, and in what order; the arithmetic itself is handed in. Processors that
keep a state between blocks go through a rack, which hands their state from each run to the next and
keeps a record of the runs. What a stage promises of a block is exactly which runs it adds to that
record, and that its output is made of what those runs gave.

Four functions are taken on trust, each with a contract that says what is believed of it:
`rtrb::Producer::push` and `rtrb::Consumer::pop` in `src/ring.rs`, `str::trim` and
`std::path::Path::file_name` in `src/text.rs`.
