# magictaskbar

The decision logic of a Windows taskbar service, written in Verus and proved
against its contracts: which windows the taskbar lists, the icon whitelist,
Wi-Fi and Bluetooth bookkeeping, input-method switching, the text formats the
service reads and writes (netsh output, WLAN profile XML, the whitelist file,
registry values, binary window-message records) and its small state machines.

- `src/` is the verified library. Each module states its model with spec
  functions and proves every public function against them; the laws of the
  library (properties that relate several calls or hold of every state) are
  the public `lemma_*` proof functions.
- `tests/` runs the library on concrete values.
- `app/` is a small command-line front end: it does the file, process and
  clock work that the library leaves to its caller and prints results as
  JSON.

Calls into `std` and `encoding_rs` whose results the library cannot compute
itself (Unicode case mapping, `Path` comparisons, GBK decoding, hashing) go
through a handful of `#[verifier::external_body]` wrappers whose contracts
name their results.
