# xpenology_usb

Makes a bootable Xpenology loader USB stick: finds the latest m-shell or RR
release, downloads and decompresses it, and writes the raw image to a USB
stick, optionally reading it back. It can also clone one loader stick onto
another. Writing is irreversible, so the safety rules are a specification,
and this library is verified with Verus.

## Layout

`src/` is the verified library:

- `model`, `safety`: disks as the system reports them, and the rules that
  decide which may be shown, picked and overwritten.
- `loader`, `checksum`: resolving the release asset to download, and reading
  its published `sha256sum`.
- `fetch`, `unpack`: the decisions of a resuming download, and opening the
  gzip or zip image (decoding by `flate2` and `zip`).
- `layout`: the partitioned length of a source stick's MBR.
- `sink`, `source`: writing a byte stream onto a device, front last, with
  read-back; a source stick as a byte stream.
- `runner`, `cloner`: the two jobs, burning and cloning.
- `progress`, `pipeline`: progress numbers and reports.
- `device`, `prep`, `win`, `fake`: the device interface, how a failure says
  what state the target is in, the decisions of the Windows device layer, and
  in-memory devices.
- `hash`, `clock`, `text`: SHA-256 (`sha2`), wall-clock readings, text helpers.

The laws stand as public proof functions named `law_*`, beside the
functions they speak of.

`app/` is the plain Rust around it: the network through `reqwest`, serde
shapes for the GitHub API and the front end, and the job entry points.
`tests/` runs the library.
