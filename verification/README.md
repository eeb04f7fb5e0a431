# ytamp

The core of a music player for YouTube Music with a classic mini player:
searching and reading search results, choosing and refreshing streams, the
playing queue, the equalizer and the visualizer, the session's cookies, the
media keys, and what the windows decide.

## Layout

- `src/` is the library. But for the few trusted functions named below, every
  function in it is verified by Verus against its contract. Laws that relate
  several functions are public proof functions, named `lemma_..`, beside the
  functions they speak of.
- `app/` is the program around it: windows, audio output, network, files, and
  the signal processing in floating point.
- `tests/` runs the library on concrete values.

## Numbers

The library computes with integers. A floating point number that it has to
carry, compare or clamp is held as its bits (`bits::Double`, `bits::Single`),
whose order is stated over those bits. Times are whole milliseconds or
nanoseconds, and are handed in by the caller.

## What is believed without proof

A few functions call out of the library, and their contracts are taken on
trust: reading JSON (`json`), quoting a text (`yt::innertube`), lower case
(`app`), the object path of a track (`mpris`), and appending a character
(`text`). Each says in its comment what it claims.
