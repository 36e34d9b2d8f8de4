# mtbctl

A control tool for the modem NV items of Qualcomm-based phones, driven
through `/vendor/bin/mtb`: reading, writing and deleting NV items, band
locks, modem feature switches, serving-cell reports, JSON imports, and
backups that every change is preceded by.

- `src/` is the library, verified with Verus: input validation, the parsers
  for `mtb` output, the band masks, the feature table, the import format,
  the RPC front door, backup manifests (ids, ordering, integrity) and the
  read-back decisions that say whether a change landed.
- `app/` is the `mtbctl` program: it runs `mtb`, reads and writes files, and
  turns results into JSON.
- `tests/` exercises the library on concrete inputs.
