# rseq tools

A Verus library for the host side of register sequences: short programs that read and write the
registers of a sensor over a bus, run on a microcontroller, and report what they find.

The library holds everything that can be decided from plain values, with the contract of each
function proved:

- the line: checksums, frames and their streaming decoder, trace records, control requests and load
  payloads (`crc32`, `frame`, `wire`, `tracing_bus`, `transport`), and what holds of them together
  (`wire_laws`, `bus_laws`);
- reports: their decoders and samples, health counts, captures and their replay (`decoder`,
  `decoder_options`, `samples`, `health`, `processor`, `capture`, `capture_meta`, `replay`);
- registers: the catalogue of a chip, what is dumped, read and written, and what is shown of it
  (`bits`, `catalog`, `dump`, `panel`, `page`, `regview`);
- sequences: their statements and listings, the blocks they are edited as, and the text the blocks
  stand for (`program`, `listing`, `visual`, `visual_source`, `blocks`, `document`), with the proof
  that blocks survive the way through text (`visual_laws`);
- the editor: places in a text, completion and semantic tokens (`position`, `completion`,
  `semantic`);
- the console and the workbench: what is watched, saved and told (`watch`, `watch_lines`, `csv`,
  `cli`, `console`, `dispatch`, `line`, `session`, `workbench`, `workspace`, `connection`, `shown`,
  `charts`).

Laws that relate several functions are public proof functions whose names start with `law_`.

`app/` is the console program: arguments, files, sockets, serial lines, threads, and all that is
computed in floating point. `tests/` runs the library from outside.
