# dub_server

The decisions of a video dubbing server, written in Verus: which lines are spoken and by whom, how attempts
at a line follow one another, where lines go on the timeline, what is drawn over the picture, which models are
used, what of an installation is missing and how it is loaded, and what a request is answered.

- `src/` is the library. Every function has a contract over plain values: times are whole microseconds,
  factors and rates are millionths, places are pixels, and shares of the picture are millionths. Properties
  that span several functions are public proof functions whose names begin with `law_`.
- `tests/` runs the library on concrete values.
- `app/` is the server around it: routes, files, programs, samples. It asks the library what to do.

The functions that the library takes from `std`, `serde_json`, `mime_guess` and `uuid` are wrapped, each with a
comment that says what is claimed of it.
