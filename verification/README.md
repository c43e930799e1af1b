# voice-orders

Speak a phrase, press the keys: `voice-orders` listens on a microphone,
recognizes the phrases of a profile, and types what each one stands for. This
repository holds the logic behind it as a library which [Verus] verifies, and
the program around that library.

## Layout

- `src/` is the library. Every function states what it returns or changes, and
  Verus proves it.
  - `audio` turns what a device delivers into frames of 16-bit mono PCM: sample
    conversion, down-mixing, resampling and framing, and the choice of a device
    and of a format.
  - `config` is the profile and the machine's own configuration: durations, key
    names, output plans, hotkeys, recognition settings, where a profile comes
    from, and how the two configurations are merged.
  - `commands` holds the rules of each subcommand: what it decides, what it
    prints, and the exit code it leaves with.
  - `errors`, `hotkey`, `output`, `path`, `ranking`, `recognition`, `text`,
    `time` and `words` are what the rest is made of.
- `app/` is ordinary Rust: the command line, files and the network, the
  microphone, the terminal, signals and child processes.
- `tests/` runs the library.

## What is proved

Contracts speak of mathematical models: texts are sequences of characters,
errors and reports have views, and a 32-bit floating-point sample is an exact
rational number. Beside the contracts stand public proof functions, each of
which states something that holds of several functions together: splitting a
stream into other buffers, each of whole frames, changes nothing about the
frames that come out of it (`audio::pipeline::capture_ignores_buffering`), an
interpolated sample is less than one away from the exact value
(`audio::resample::resampled_samples_are_close`), a profile wins every field
it sets (`config::hotkey::the_profile_wins`), a shell undoes the quoting of a
printed command (`commands::setup::quoting_is_undone_by_the_shell`), and others.

## What is trusted

A few functions are wrappers around other crates and parts of the standard
library, whose contracts are believed: parsing and writing durations
(`humantime`), edit distances (`strsim`), the expansion of `~` (`shellexpand`),
the printed form of an error (`human-errors`), case conversion and escaping of
texts, the frame channel and its drop counter, and the clock. The doc comment of
each names the function it calls and says what is claimed of it.

[Verus]: https://github.com/verus-lang/verus
