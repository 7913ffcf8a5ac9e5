# netguard

Traffic accounting for a home router. Packets that an nftables rule logs to an
NFLOG group are decoded into flows; the server name of TLS ClientHello packets
identifies the application; idle flows are summed per source address,
application and day, and the history is stored in SQLite.

- `src/` is the verified library: packet and TLS decoding (`nflog_listener`,
  `sni_parser`), the flow table with its bound and first-in first-out eviction
  (`flow_tracker`), the per-day history (`history_aggregator`), application
  identification (`app_identifier`, which calls the `regex` crate), the
  configuration read from UCI (`config`), the nftables commands (`nft_setup`),
  the counters in the nftables listing (`nftables_counter`), the
  figures of the local API (`api_server`), the storage rows (`persistence`) and the work of the two service loops (`monitor`).
- `tests/` exercises the library on concrete values.
- `app/` is the service itself: sockets, processes, SQLite, threads and JSON.
