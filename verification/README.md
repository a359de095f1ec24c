# kanji_kana

A terminal drill for Japanese: kana practice (hiragana, katakana or both, in
either direction) and kanji review against the WaniKani API.

- `src/` is the library, verified with Verus:
  - `text`: trimming, lower case, answer normalisation, decimal parsing;
  - `kana`: the hiragana table, katakana conversion, the practice set per
    mode, the menu replies and the round-based practice (`KanaQuiz`);
  - `json`: a JSON model and the reading of JSON text;
  - `subject`: WaniKani subjects and review items;
  - `session`: the review session over the items and the scored review;
  - `wanikani`: request URLs and headers, cache file names and cache
    metadata, status handling, response bodies and error messages of the
    API client;
  - `storage`: the trait for keeping progress.
- `app/` is the program: the command line, the terminal dialogue, HTTP,
  the disk cache and the environment.
- `tests/` runs the library on concrete values.
