# redis_me

The core of a Redis desktop client, written in Verus. The functions in
`src/` carry contracts that the verifier proves, except a few small wrappers
around `base64`, `serde_json` and std calls, whose contracts are trusted and
say so in their doc comments.

- `text`: character and decimal helpers, trimming, splitting, shell quoting.
- `cli_format`, `cli_args`, `cli_roundtrip`: redis-cli quoting of byte
  strings, the commands that recreate a key (`SET`, `HMSET`, `RPUSH`, `SADD`,
  `ZADD`, `XADD`, `JSON.SET`, `EXPIRE`), the `sdssplitargs` argument
  splitter, and proofs that each written command splits back into its
  arguments.
- `cli_display`: rendering of replies in the TTY, raw, CSV and JSON output
  modes of redis-cli.
- `acl`, `acl_list`, `acl_roundtrip`, `acl_log`: ACL rules, `ACL SETUSER`
  arguments, `ACL LIST` / `ACL GETUSER` / `ACL LOG` readers, with the
  selector text round trip and the sorted user list proved.
- `model`, `bytes_format`: keys, scan cursors, settings, saved connections and
  the UTF-8 / Base64 byte format.
- `transfer`, `key_commands`: export and import lines (`DUMP` / `RESTORE`),
  copy-as-command, progress counters.
- `field_read`: what reading one entry or a whole key yields from the
  server's replies, with the not-found and unsupported-type errors.
- `cluster`, `server`, `paging`, `field_ops`, `operations`: cluster topology
  and key routing, database lists, memory analysis, paging of large values,
  and what each editor operation sends for each key type.

`app/` is ordinary Rust around the library: connections with the `redis`
crate, files, and serde forms of the library's types.
