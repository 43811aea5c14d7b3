# web_sw_cor24_forth

The logic of a browser front end for the COR24 Forth systems (`forth.s`,
forth-in-forth and forth-on-forth), written in Verus and proved against
its contracts.

- `src/` is the verified library:
  - `config`: the Forth tiers and the stack presets.
  - `base64` and `snapshot`: snapshot capture and restore, the content
    hash and storage key, and the embedded snapshot blob.
  - `demos`: the demo lists and their ordering check.
  - `text` and `fmt`: line splitting, trimming, the UART byte streams,
    and decimal and hex formatting.
  - `repl`: the REPL's state machine (bootstrap, the tick pump, input
    history, demos and uploaded scripts).
  - `debugger`: the debugger tab's state machine and its inspection logic
    (stacks, memory map, disassembly window, labels, dictionary, threads,
    compile log).
  - `help`: the Help dialog's tabs and Markdown rendering.
- `app/` is the Yew user interface around it. It drives the emulator,
  the timers, local storage and the DOM, and hands the library plain
  values.
- `tests/` runs the library on concrete inputs.
