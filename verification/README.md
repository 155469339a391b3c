# tzap_writer

The verified core of an archive writer. It turns files into a tar stream, cuts
the stream into compressed frames, packs the frames into sealed envelopes,
stripes the blocks of the envelopes and their parity over volumes, and closes
every volume with the metadata that a reader needs.

What the library does is stated in `requires` and `ensures` clauses and proved
with Verus. Compression, sealing, parity and the byte layout of records come
from an `ArchiveCodec`; the rules for file metadata come from a
`MetadataProfile`. `plain::PlainCodec` implements both.

## Layout

- `src/writer.rs`: the entry points.
- `src/two_pass.rs`, `src/single_pass.rs`, `src/ordered.rs`, `src/probe.rs`: the
  ways to write an archive.
- `src/planning.rs`, `src/plan.rs`, `src/index_plan.rs`, `src/volume_size.rs`:
  planning what will be written.
- `src/member.rs`, `src/tar.rs`, `src/pax.rs`, `src/sparse.rs`, `src/stream.rs`:
  the tar records of a file.
- `src/packing.rs`, `src/streaming.rs`, `src/replay.rs`, `src/emit.rs`,
  `src/seal.rs`: frames, envelopes, objects and blocks.
- `src/rows.rs`, `src/shard.rs`, `src/hints.rs`: the index.
- `src/suffix.rs`, `src/cmra.rs`, `src/headers.rs`, `src/root_auth.rs`,
  `src/key_wrap.rs`: headers, footers and recovery areas.
- `src/accounting.rs`, `src/foresight.rs`, `src/seek.rs`, `src/readback.rs`,
  `src/reading.rs`, `src/ordered_reading.rs`: what holds of whole archives, up to
  reading every member back from the volumes.
- `src/index_reading.rs`, `src/sizes.rs`: that the index is read back too, and
  that volumes have their planned sizes.
- `src/archive_reading.rs`: that what the entry points leave in a sink, or return,
  gives the files back.
- `src/native_flag.rs`: that the index and the headers agree on native metadata.
- `src/repeat.rs`, `src/refusals.rs`, `src/tally.rs`, `src/openings.rs`: that an
  order leads to one archive, what a signer's refusal leads to, what an observer
  is told, and how often sources are opened.
- `app/`: files, threads and error texts around the library.
- `tests/`: a codec with a small reader, and the writer against it.
