# daholyvm-core

Simple Windows virtual machines for Linux: host capability detection, VM
configuration and storage layout, and the exact QEMU, `qemu-img` and `swtpm`
command lines, with every decision stated as a contract and proved with Verus.

## Layout

| Path | What it holds |
| --- | --- |
| `src/` | The verified library. Every function has a contract; the laws the library keeps are public proof functions. |
| `tests/` | Tests of the library on concrete values. |
| `app/` | The `daholyvm` command line: reading the host, running processes, TOML and JSON, and printing. |

The library never touches the machine. It decides what to do from the facts
a front end hands it (file contents, whether a path exists, how a process
ended) and answers with values: a checklist, an argument vector, or an
ordered plan of steps such as "copy the variable store", "start swtpm",
"wait for its socket", "start QEMU". The front end performs them.

## Paths are bytes

A filename on Linux is a sequence of bytes and need not be UTF-8. The
library holds every path as bytes (`Vec<u8>`): the data and runtime
directories taken from `XDG_DATA_HOME`, `HOME` and `XDG_RUNTIME_DIR`, each
`PATH` entry, the installation medium, the firmware files and every argument
handed to QEMU, `qemu-img` and `swtpm`. Paths are joined and commas escaped
byte by byte, so a non-UTF-8 filename reaches the processes unchanged rather
than lossily mangled; the front end converts with `OsStrExt` and
`OsStringExt`. Only what is shown to a person (the checklist, error
messages, summaries) decodes a path as UTF-8, with U+FFFD in place of
invalid sequences, as `Path::display` does. Directory entries whose names
are not UTF-8 cannot be valid VM names and are skipped when listing.

## Commands

```
daholyvm doctor [--json]                      # can this host run a VM?
daholyvm create win11 --iso ~/Win11.iso       # make one
daholyvm run win11                            # boot it
daholyvm list                                 # what exists
```
