# polybot

A bot that earns liquidity rewards on a prediction market. It scans the rewarded markets, ranks
those that are calm, liquid and protected, places one post-only BUY order behind better bids, and
watches it. When the order has to go it is cancelled to a confirmed end, and whatever was bought is
sold again before the next scan.

`src/` is the library: every decision that the bot takes, written and proved with Verus. `app/` is
the program around it: HTTP, WebSocket, signing, files and the clock.

## The library

| Module | What it holds |
| --- | --- |
| `binary64`, `rounding`, `natural`, `arithmetic`, `closeness` | IEEE 754 double precision in integers, bit for bit, how its operations go with the order of numbers, and how far they are from the exact results |
| `decimal`, `formatting` | reading numbers from text and writing them with fixed places |
| `text`, `urls`, `json`, `environment`, `options`, `numbers` | text, addresses, JSON as plain values, settings, constants |
| `logger` | log levels, log lines, records as JSON, redaction, the scoring table, file names and retention |
| `market_scanner` | settings, dates, the first filter, requests and paging, book and history measures, the deep filter, scores, the ranking and its report |
| `trading_bot` | settings, the live book and its feed, planning and guarding a quote, watching the order and its score, settling it, selling, recovering orders of unknown fate, and `lifecycle`, which says after each event what to do next |

Contracts are stated over mathematical models. A number is its bit pattern, a book is a sequence of
levels in order of their keys, the environment is a list of variables, and instants are integers.
Properties that span functions are public proof functions next to the functions that they speak of.

What `serde_json` and `chrono` compute is used through small wrappers in `json` and
`market_scanner::datetime`; their contracts are the only ones taken on trust, besides that of
`String::push` in `text`.

## The program

`app/` performs what `Lifecycle::next` asks for and hands back what happened. The natural logarithm
in the score of a quote is taken there too, between `examine_candidates` and `filter_examined`.

Log files go to `logs/`, one set for each day:

- `polybot-YYYY-MM-DD.log`, one line for each record, with tabs between the columns: time, level,
  session, process, thread, component, event, place in the source, message;
- `polybot-YYYY-MM-DD.jsonl`, the same records as JSON;
- `polybot-errors-YYYY-MM-DD.jsonl`, warnings and errors only;
- `polybot-scoring-YYYY-MM-DD.csv`, one row for each question whether the order scores.

The private key is never logged. Should a message assign `POLYMARKET_PRIVATE_KEY`, the value is
replaced. Log files still hold addresses, order IDs and prices, and are not for sharing.
