# maa_auto_reverse_rs

A helper that automates the shop of a game through MAA Framework: it reads the
six shop slots by OCR, decides what to buy (items, operators to keep,
operators to buy and sell again), carries that out in the game window, and
offers a desktop interface and a one-shot scan on the command line.

## Layout

- `src/` — the library, verified with Verus:
  - `text` — trimming, splitting and joining of name lists;
  - `config` — settings, strategy, OCR corrections (a sorted map), the
    editable lists and what is imported from older configuration files;
  - `strategy` — text normalisation, list matching, classification and the
    ordered plan of a round;
  - `engine` — the per-round state machine: from a state and what was found
    to the next state and the next command;
  - `layout`, `overlay` — the screen regions and where the marks of the
    annotated frames go;
  - `recognition`, `report` — OCR text cleaning, prices, cards and the texts
    shown or printed;
  - `ui_state`, `windowing`, `win_input`, `launch` — the interface's status
    machine, window selection, key scan codes and command-line quoting.
- `tests/` — tests of the library.
- `app/` — the program around it: files, logging, the MAA session that
  performs the engine's commands, pixel measures in floating point, drawing,
  and the Windows-only parts (interface, hotkeys, input, elevation).
