# BogoForge

BogoForge looks for the shuffle that sorts. A seed deals 25 values; a range of
indices stands for that many seeds; a backend works through a range and reports
the board on which most values are seated correctly.

The library under `src/` is verified with Verus. Every function states what it
returns, and the laws that hold across functions are public proof functions whose
names begin with `law_`.

| Module | What it holds |
| --- | --- |
| `compute::rng`, `compute::shuffle` | splitmix64, xoshiro128++, bounded draws, one shuffle and its score |
| `compute::batch` | sixteen shuffles side by side, equal to the scalar ones lane for lane |
| `compute::transition`, `linear`, `powers`, `orbit` | why bounded draws come to an end: the generator's step as a linear map, many steps at once, and that they lead from every state but zero to every other |
| `compute::cycle`, `compute::primes` | the arithmetic behind it: periods of walks, and the prime factors of the number of states |
| `compute::range`, `compute::cpu` | the best shuffle of a range, on any number of threads |
| `compute::amd` | what is asked of the HIP runtime, and what its answers mean |
| `runtime`, `logging` | start-up step by step, and the lines of the log |
| `tui` | the screen, widget by widget: figures, styled lines, bars and cards, and where they stand; the keys; the telemetry behind it |
| `double`, `float`, `digits`, `decimal`, `text` | double precision in integers, decimal digits, text |

Five things are taken on trust, each where it is declared: how `orx_parallel`
combines the results of the batches (`compute::cpu`), how `ratatui` cuts up a
rectangle and what a frame leaves of one (`tui::layout`), how
`String::from_utf8_lossy` decodes bytes (`tui::smi`), and that `String::push`
appends (`text`). What the decoding gives has a name, `lossy_text`, with nothing
more said of it than that it depends on the bytes, and what UTF-8 gives.

`app/` is the program around the library: configuration, threads, the terminal,
the HIP calls. It reads `conf.toml`, takes its ranges from `leases.toml`

```toml
[[lease]]
base_seed = 42
lo = 0
hi = 1000000
```

and logs the best board of each.

`tests/` runs the library: boards and ranges with known outcomes, figures against
the floating point of the machine, the tools' output, the screen line by line, and
every step of start-up.
