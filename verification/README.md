# molva

Core of the Molva peer-to-peer messenger, verified with Verus.

- `src/db.rs`: the local database of trusted friends: the handle, friend
  records, and the write that adding a friend issues.
- `src/text.rs`: Unicode white space, trimming, lossy UTF-8 decoding.
- `src/chat.rs`: choosing a nickname, the line published for typed text,
  the reaction to console events, rendering received messages.
- `src/discovery.rs`: the report printed for mDNS packets.
- `src/messenger.rs`: the messenger runtime module: origins, events,
  `send_message`, the storage items and their getters, and the `User` and
  `Wallet` records.
- `app/`: the program: console, libp2p swarm (floodsub and mDNS), RocksDB.
