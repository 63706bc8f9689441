# cvsd_extractor

Extracts CVSD compressed audio and decodes sound programs from Williams/Bally
WPC-89 pinball sound ROMs (U14, U15, U18), with the decoding logic verified
in Verus.

- `src/` — the verified library:
  - `cvsd_chip.rs`: the HC55536 CVSD decoder, register-level code proved
    against an integer model of the chip pipeline.
  - `wpc89.rs`: ROM header, 6809 address translation, the CVSD sample table
    and CVSD data decoding.
  - `sound_program.rs`: opcode table, sequence bytecode decoder (a step
    machine), voice descriptors, the command dispatch table, program
    extraction and the text report.
  - `text.rs`: hexadecimal/decimal number text and padding.
  - `error.rs`: error values.
- `app/` — the command-line tool: argument parsing, file reading, WAV writing
  (hound) and resampling (rubato).
- `tests/` — tests of the library on synthetic ROM images.

Usage:

```sh
cvsd-extractor extract --u14 rom/BL_U14.L1 --u15 rom/BL_U15.L1 --u18 rom/BL_U18.L1 --output out
cvsd-extractor programs --u18 rom/BL_U18.L1
```
