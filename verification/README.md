# vimprover

Decides how to re-encode, repair and modernize media files, and drives
`ffprobe` and `ffmpeg` to do it.

- `src/` is the library. It is written in Verus: every function states what it
  returns or changes, and is proved to do so. It does no I/O.
- `tests/` runs the library on concrete values.
- `app/` is the command-line program around the library: it parses arguments,
  runs `ffprobe` and `ffmpeg`, and carries out the actions that the library's
  state machines ask for.

## The pipeline

| Module     | What it decides                                                  |
|------------|------------------------------------------------------------------|
| `cli`      | what a command line asks for, and which arguments go together    |
| `probe`    | the typed profile of a file, from what `ffprobe` reports         |
| `assess`   | what makes a file "not fine"                                     |
| `plan`     | the recipe, and the paths of the output and a backup             |
| `format`   | everything that is shown to people                               |
| `execute`  | the `ffmpeg` command line, and one run of `ffmpeg` step by step  |
| `flow`     | a whole run: what is refused, asked, moved aside and rolled back |

`model` and `error` hold the types that they share. `text`, `path`, `numeral`,
`binary64` and `double` are what the rest is built on: strings, lexical paths,
decimal numerals, double-precision arithmetic done in whole numbers, and the
doubles nearest to decimal numerals.

## What is proved

Besides the contract of each function, the library states laws, as public
proof functions whose names start with `law_`. Among them:

- the output is atomic: nothing changes at the output path before `ffmpeg` has
  succeeded (`execute::law_output_is_atomic`);
- a list file for joining is gone when its run is over, however it ended
  (`execute::law_no_list_is_left_behind`);
- every path in such a list is absolute
  (`execute::law_listed_paths_are_absolute`);
- inputs are joined only with the same frame rate, up to the drift of 23.976
  from 24 (`plan::law_only_tiny_drift_is_tolerated`);
- an upgrade in place never loses the original, and a failure puts it back
  (`flow::law_upgrade_preserves_the_original`);
- a dry run changes nothing, and nothing is changed without consent
  (`flow::law_files_stay_without_consent`);
- a shown command is read back by a shell as exactly its arguments
  (`execute::law_command_reads_back`);
- a file is fine exactly when all of it is modern
  (`assess::law_fine_iff_all_modern`).

Paths are text with `/` between their components; paths that are not UTF-8 are
not accepted.
