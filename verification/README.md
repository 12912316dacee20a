# mpeg2ts

Reading and writing of MPEG-2 transport streams (TS packets, PSI tables such as the PAT and
the PMT, adaptation fields) and packetized elementary streams (PES), written in Verus: every
function of the library carries a contract over a mathematical model of the byte formats,
and Verus proves the code against it.

## Layout

- `src/` — the verified library.
  - `ts/` — TS packets: headers and adaptation fields (`packet`, `adaptation_field`,
    `types`), PSI tables (`psi`, `pat`, `pmt`), payloads (`pes`, `section`, `null`),
    the packet reader (`reader`, with section reassembly across packets) and writer
    (`writer`).
  - `pes/` — PES headers (`packet`) and the PES packet reader that gathers PES packets from
    the TS packets of their PID (`reader`).
  - `es/` — stream identifiers and stream types.
  - `time.rs` — timestamps and clock references; `crc.rs` — CRC-32/MPEG-2; `util.rs` —
    big-endian byte reading and writing.
- `tests/` — tests that run the library on concrete streams.
- `app/` — a command-line program that reads a stream from the standard input and prints
  its TS or PES packets, rewrites it, or extracts its audio or video elementary streams.

## What is proved

Besides the contract of each function (each reader states exactly which bytes it accepts,
what it returns and which error it gives otherwise; each writer states the bytes it
appends), the library proves that what is written reads back: TS headers, adaptation
fields, PSI tables, PATs, PMTs, PES headers, timestamps and clock references, and whole TS
packets read back through the packet reader; that every written TS packet is 188 bytes
long; that a PSI section split over packets is reassembled; that a PID keeps its
registration through later reads unless a PAT or PMT lists it, and that the network PID of a
PAT is not taken for a PMT PID; that the CRC of data followed by its own CRC is 0; and that a
PES packet is reassembled from its start and continuation payloads. The PES packet reader
keeps a ghost log of the TS packets it received, and its contract ties each outcome to
those packets and to the steps of the TS packet reader that returned them.
