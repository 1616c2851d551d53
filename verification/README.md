# shield_optimizer

The rules of a tool for Android TV devices: which devices there are, how to reach and pair with
them, what their codecs and settings say, and what restoring a saved state takes. Every function
states in its contract what it returns, and Verus proves it.

- `src/` is the library. It takes plain values and gives plain values back.
- `app/` runs adb, reads the environment and the file system, and hands results to a user
  interface. It decides nothing.
- `tests/` runs the library on concrete values.

| Module | What it decides |
| --- | --- |
| `address`, `connect` | which endpoints are accepted, what came of connecting and pairing |
| `device`, `listing`, `profile` | the device list: one row for each physical device |
| `rename`, `shell` | what is sent to a device's shell, and what is refused |
| `scan` | where a network scan connects, what it retries, what it reports |
| `discovery`, `driver`, `adb` | where adb is looked for, how its processes end |
| `snapshot`, `snapshot_file`, `settings` | saved states, their file format, what applying one takes |
| `codecs`, `media` | what configuration says of playback |
| `text`, `lists` | texts and lists |
| `json`, `xml` | the boundary to `serde_json` and `quick_xml` |

What the proofs rest on beyond Verus stands in `json`, `xml` and `text`: each item there that is
not proved names the function of the outside crate or of the standard library and says what is
taken as given.
