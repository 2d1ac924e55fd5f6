# makepad-platform

The decisions behind a user interface that is painted in software and driven by a host:
what of a frame is painted again, which pixels a triangle covers, how work is shared out
among threads, when shaders are compiled and where their libraries are kept, how windows
and frames follow one another, how messages are framed on a pipe, and how a host that goes
silent is told from an application that has nothing to do.

The library is in `src/`. Every function of it states what it returns or changes, and
Verus proves it, but for three that are trusted: `encode` in `png`, which calls the PNG
encoder of `makepad-zune-png`, and the standard library's `String::push` (in `text`) and
`char::from_u32` (in `dropfiles`), whose contracts are taken from their documentation.
Numbers with a fraction are carried as their bits; what is computed with
them is asked of the caller.

| Modules | What they decide |
| --- | --- |
| `damage`, `render`, `frames` | which part of a frame is painted, and which frames are shown |
| `virtual_gpu`, `instances`, `fragment`, `glyph`, `texture` | which pixels are painted, in which order, and what a shader is given |
| `chunks`, `draw_plan`, `view` | how draw calls are prepared and shared out |
| `jit`, `aot`, `aot_generator` | how shaders are compiled, found and made part of the program |
| `event_loop`, `windows`, `display_context` | what happens when, and to which window |
| `studio_pipe`, `studio_tick_watchdog`, `embed_host`, `embed_probe` | what an application and its host say to each other |
| `dropfiles`, `png`, `sonda_teclado_movil` | files that are dragged, pictures, and a probe of the keyboard |
| `text`, `single`, `double` | texts, and numbers as bits |

What holds of several functions together is stated by the public proof functions whose
names begin with `law_`.

`app/` is the program around the library: the environment, files, pipes, threads, dynamic
libraries, and floating point. `tests/` runs the library on given values.
