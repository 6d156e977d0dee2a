# finbox

A simulated A-share trading system. A language model proposes trades, a simulated broker
executes them by the rules of the market, and a risk control that the model cannot bypass
stands between the two.

- `src/` is the verified library: its contracts are proved by Verus.
  - `rules`, `intent`, `sim`: boards, lots, price limits, fees, T+1, and the broker.
  - `account`, `ledger`: the books of an account.
  - `risk`, `scheduler`: stops, profit taking, the fuse, target positions, and what is due when.
  - `screen`, `context`, `decision`: the short list, the context for the model, its orders.
  - `table`, `store`, `market`, `like`, `adjust`, `adjustment`: market data and corporate actions.
  - `calendar`, `collector`, `sdk`, `requests`: the data service.
  - `api`, `pages`, `web`: what the web interface shows.
  - `accounts`, `config`, `extension`: accounts on disk, the configuration, the database extension.
  - `decimal`, `number`, `text`, `dates`, `order`: decimals, texts, dates and sorting.
- `tests/` runs the library.
- `app/` is the program around it: SQLite and DuckDB files, HTTP, the model and the web server.

Amounts, prices and rates are decimals in millionths (`decimal::UNIT`), so that what is proved of
the arithmetic is exact.
