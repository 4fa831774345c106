# modat

A dashboard for GSM/LTE USB modems (SMS in PDU mode, USSD, delivery
reports, scheduled messages, an AT terminal and network information),
whose logic is a Verus-verified library.

## Layout

- `src/` — the verified library. Every function states its behaviour in
  `requires`/`ensures` over mathematical models (`Seq`, `Set`, `int`) and
  is proved by Verus.
  - `text`, `scan`, `hex` — characters, decimal and hex text, tagged numbers.
  - `septets`, `gsm`, `pdu`, `submit`, `concat` — GSM 7-bit packing, the
    GSM 03.38 alphabet, reading and writing SMS PDUs, multi-part messages.
  - `sending`, `delivery`, `inbox`, `contacts` — sending results, status
    reports, the inbox and the phonebook.
  - `ussd`, `lines`, `cell`, `modem`, `ports` — USSD sessions, the lines a
    modem prints, the serving cell's reports, the connection state and the
    serial ports.
  - `logbook`, `schedule`, `settings`, `terminal` — the log, scheduled
    messages, stored settings and the AT terminal.
- `app/` — the window, serial and HTTP I/O, files and threads around the
  library (not verified).
- `tests/` — tests of the library on concrete values.

Laws that span several calls (read-back of what is written, what a list
keeps after each operation) are public proof functions named `lemma_*`.
