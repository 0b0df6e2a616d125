# bestool

A host tool for BES Bluetooth audio SoCs: it talks to the boot ROM over a
UART, loads a programmer blob into RAM and reads or writes flash.

The protocol logic lives in `src/` and is verified with Verus:

- `message`: packet types, the wire layout of a message, checksums.
- `framing`: gathering a packet byte by byte as it arrives, and the proof
  that a sent message is read back as itself.
- `le`: little-endian `u32` conversions.
- `programmer`: parsing a programmer blob (entry address, payload, CRC-32
  through the `crc` crate) and choosing the default flash base.
- `loader`: the messages of the loading sequence and the decisions taken on
  each reply (announce, stream, acknowledge runtime syncs, start, catch the
  boot loader).
- `flash_read`: splitting a long flash read into parts.
- `hex`: parsing hexadecimal command-line values.

`app/` holds the command-line program: argument parsing with `clap`, the
serial port (`serialport`), files and logging (`tracing`). It runs the
loops whose decisions the library takes.
