# mnamer

The verified core of a terminal media renamer, and the program around it. The
core guesses a movie or an episode from a messy file name, decides what to look
up and which answer to take, renders a clean destination name, and decides about
every move. The program does the reading, asking and moving.

```
The.Matrix.1999.1080p.BluRay.x264-GROUP.mkv    ->  The Matrix (1999).mkv
Breaking.Bad.S05E14.Ozymandias.720p.WEB-DL.mp4 ->  Breaking Bad - S05E14 - Ozymandias.mp4
```

## Layout

- `src/` is the library. Verus proves every contract in it.
  - `text`, `chars`, `casing`, `number`, `calendar`, `pattern`, `path_order`: texts, numbers,
    dates, regular expression matches and the order of paths.
  - `parser`, `rename`, `template`: from a file name to a guess, from a template to a name.
  - `cli`, `config`, `settings`: options, config file and what they come to.
  - `metadata`, `provider`, `titles`, `retry`, `resolve`: what providers report, which
    match is taken, and when a request is repeated.
  - `model`, `scanning`, `quality`, `duplicates`: files, subtitles, and which of
    several candidates for one destination is preferred.
  - `planning`: the files of a run one after the other, each from its name to its plan.
  - `operations`, `workflow`, `report`: moves that never replace a file, groups that
    are undone when a move fails, and the record of each outcome.
- `tests/` runs the library, with the regular expressions and dates that it gets from
  other crates.
- `app/` is the program: command line, files, network and prompts.

Public proof functions named `law_..` state what holds of the library as a whole, for
instance that a move replaces and loses nothing, that a group whose completed moves can
be undone leaves at most a second copy of the file that got stuck, that a request is
sent three times at most, that a refused name is not looked up while the other files go
on, or that an accepted episode has aired.

What the library relies on without proof is marked `external_body` or
`assume_specification`: the `regex` and `httpdate` crates, and some functions of the
standard library on characters and strings. The comment above each says what is
relied on.
