# goodomen

The rules of a third-person shooter whose levels are written in Lua, verified
with [Verus](https://github.com/verus-lang/verus).

- `src/` is the library. Its functions are verified against their contracts; the
  contracts of the calls into the interpreter (`lua`), and of `String::push`
  (`text`), are believed.
- `tests/` runs the library on concrete values.
- `app/` is the program around it: files, the window, the interpreter, and what
  is computed in floating point.

## What is where

| module | what it holds |
|---|---|
| `world`, `stasis`, `streaming` | the objects of a level, what is frozen, what is taken out |
| `rooms`, `level`, `boot` | rooms and checkpoints, how a level starts, what it asks for |
| `brain`, `crowd`, `doganboy`, `walkers` | the machines that move the enemies |
| `body`, `damage`, `doors`, `spawners`, `timers`, `anim`, `sounds`, `modes`, `inventory`, `input` | what can happen to an object, and what a script can ask of it |
| `tick`, `tally`, `sweep` | the order of a tick, and what is counted of a run |
| `script`, `twice`, `lua` | the older dialect that the scripts are written in, that making one ready twice changes nothing, and the interpreter |
| `save`, `install`, `corpus`, `frames`, `keys`, `menu`, `args` | files and what they come to, pictures, keys, menus and arguments |
| `rand`, `tables`, `measure`, `names`, `order`, `text` | what the rest stands on |

Floating-point numbers do not occur in the library. A number that only decides
is handed in as a *measure*, an integer that is ordered as the number is; a
number that is only passed on is of a type parameter.
