# pos_print

Printing helpers of a point-of-sale desktop application, written in Verus.

`src/` is the verified library:

- `base64` — decoding of the Base64 ticket resources, with the proofs that
  decoding inverts standard encoding and ignores ASCII whitespace;
- `text` — file-name sanitising, ASCII filtering, fitting and padding of
  ticket columns, trimming, PowerShell quoting and decimal numbers;
- `escpos` — the ESC/POS bytes of a sale ticket;
- `report` — printer-test records, test file names, document headers and the
  line format of the test log;
- `commands` — SumatraPDF arguments, PowerShell scripts, share targets;
- `outcomes` — the record produced for each outcome of a printing test.

`app/` holds what touches the system: files, printers (through the
`printers` crate), processes and JSON (through `serde`/`serde_json`).
