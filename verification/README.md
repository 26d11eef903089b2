# skyblock_flipper

The verified core of a flip finder for the Hypixel SkyBlock auction house,
with the program around it.

A tick of the auction house becomes a set of auctions that are new or have
changed. Their items are decoded and fingerprinted, held against a price
cache of three tiers, and reported where buying one and selling it on is
worth it. What the tick itself shows about prices then joins the cache. Past
sales seed the cache at startup.

## Layout

`src/` is the library. Verus proves its functions against their contracts;
calls into outside crates stand behind small wrappers, whose doc comments say
what is taken for granted of each call.

| Module | What it does |
| --- | --- |
| `auction`, `ingestion` | pages of listings, new ticks, whole snapshots |
| `diff` | which auctions of a snapshot are new or have changed |
| `nbt`, `parser` | item NBT, and the item that an auction lists |
| `encoding`, `fingerprint` | the keys that an item's price is stored under |
| `pricing`, `batch`, `stats` | price entries, how they merge, how they add up |
| `table`, `shards`, `cache`, `shared` | the price cache, and sharing it among tasks |
| `engine` | whether a listing is worth buying |
| `notify` | alerts, and not repeating them |
| `calendar`, `cofl`, `grouping`, `backfill` | past sales, and prices from them |
| `pipeline` | one tick from end to end |
| `config`, `storage` | settings, and the rows that are stored |
| `text`, `order` | text and its order |

What holds of the library as a whole is stated in the public proof functions
whose names begin with `law_`.

`app/` is the program: environment, HTTP, WebSocket, SQLite, and the
arithmetic on rates and percentages, which is in floating point.
`tests/` runs the library.
