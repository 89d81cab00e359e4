# votings_service

The ballots of a voting, verified with Verus: a voters list, the encrypted
ballots voters store, their decryption and validation, and the tally of the
results per district.

- `src/keys.rs`: voters' public keys and transaction hashes.
- `src/paths.rs`: the names of the indexes a voting keeps, and the proof
  that they never collide.
- `src/choices.rs`: the rules a list of decrypted choices must follow.
- `src/ballot.rs`: ballots, the records they are stored as, statistics and
  results, with the conversions between ballots and records.
- `src/decode.rs`: reading the choices out of a decrypted `Choices` protobuf
  message through the protobuf runtime.
- `src/assoc.rs`: small maps keyed by 32-byte keys.
- `src/tally.rs`: counting the ballots per district.
- `src/storage.rs`: the storage of a voting and its operations.
- `src/consistency.rs`: what every operation keeps.
- `src/runs.rs`: what holds after any run of operations from an empty
  storage.
- `app/lib.rs`: decryption with the voting's secret key, which needs
  libsodium.

The storage of a voting holds its indexes itself, in memory: the voters
list, the ballots, the index by storing transaction and the counter per
district as lists and hash maps, and the statistics and results beside
them. A `BallotsStorage` starts empty for its voting. The index names in
`src/paths.rs` are the names a database would keep these indexes under; the
in-memory storage does not look its indexes up by them.
