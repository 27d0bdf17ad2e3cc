# haval_tool

The decisions of a desktop installer for the Haval multimedia application, verified with Verus.

- `releases`: which GitHub releases can be installed, and what is shown of each (`json` holds the
  plain JSON tree that it reads).
- `shell`: the commands that the car's shell is given, with proofs about how the shell reads them.
- `install`: the steps of an installation and what a failed step means.
- `watch`: what the lines that the car sends back mean.
- `connection`: the car's hotspot and the one Telnet connection.
- `error`: the errors and their messages.
- `text`: text primitives, and what is trusted of the standard library's.

`app/` is the program around the library: network access, timers and the user interface.
