# adverify

Programmatic ad fraud detection and brand safety, with its rules proved in Verus.

## Layout

- `src/` is the verified library:
  - `text.rs`: white space, trimming, word counts, substring search and counts,
    ASCII case folding and decimal rendering, over character sequences.
  - `bid_stream.rs`: the OpenRTB request model, line framing and parse counters,
    and the batching of a processed stream.
  - `detection.rs`: the click-injection, impression-laundering, bot-traffic and
    ad-stacking heuristics, each detector's confidence in hundredths, and the
    verdict over the four.
  - `brand_safety.rs`: the keyword lexicon and the keyword scan of a text.
  - `viewability.rs`: the visible part of an ad and its position class.
  - `ml.rs`: the request signals behind the model's feature vector.
  - `reporting.rs`: request, fraud and reason tallies, the most frequent reasons
    and the category breakdown.
- `tests/` runs the library on concrete values.
- `app/` is the command-line tool and HTTP service around the library: file and
  network I/O, JSON and CSV, and the floating-point scores (confidence unions,
  brand safety scores, viewability probabilities, the logistic model).
