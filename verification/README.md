# minimp3port

An MPEG-1/2/2.5 audio (layers I, II and III) frame decoder whose bit-level
logic is written in Verus and proved against its contracts.

- `src/` — the verified library:
  - `bits.rs`: the most-significant-bit-first bit reader;
  - `header.rs`: frame header fields, validity, compatibility, frame sizes;
  - `decoder.rs`: ID3v2 skipping, frame search and synchronisation, the
    stream state kept from frame to frame;
  - `layer3.rs`: side information, the bit reservoir, scale factor indices;
  - `huffman.rs`, `huffman_tables.rs`: Huffman decoding of the quantized
    layer III values;
  - `layers12.rs`: layer I/II bit allocation, scale factor indices and
    sample codes.
  The library does not allocate: a frame's main data is gathered into a
  fixed buffer of `MAX_MAIN_DATA_BYTES` that the caller owns.
- `tests/` — tests on concrete streams and values.
- `app/` — the floating-point signal processing (dequantization, stereo,
  inverse MDCT, polyphase synthesis) and whole-file decoding, in ordinary
  Rust on top of the library.
