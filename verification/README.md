# trainstatus

The data logic of a transit status service for the MTA subway, MTA buses and
NJ Transit buses, written in Verus: the functions in `src/` carry contracts
that Verus proves, apart from the few trusted wrappers named below.

- `src/` — the verified library: identifiers and text (`ids`, `text`, `num`),
  time (`clock`, `calendar`), the static imports (`subway_static`,
  `mta_bus_static`, `njt_static`, `njt_route_stops`, `njt_patterns`,
  `subway_stations`, `route_import`), the realtime imports (`realtime`,
  `subway_realtime`, `rt_train`, `subway_times`, `alerts`), the rows the
  stores write (`store_rows`), the static data cache (`static_cache`), request parameters (`params`, `rt_data`),
  trajectory bookkeeping (`trajectory`), and the properties that hold across
  functions (`laws`).
- `app/` — the service around it: JSON shapes of the agencies' services,
  the GTFS feed read with `gtfs-structures`, refresh loops, the cache's JSON,
  and the floating-point geometry and trajectory filtering.
- `tests/` — tests of the library.

Calls into `chrono`, `chrono-tz`, `titlecase`, `uuid`, `blake3` and a few `std`
functions (`str::to_uppercase`, `String::push`, `char::is_numeric`) stand
behind small trusted functions whose contracts are stated in their doc
comments; their results are believed, not proved.
