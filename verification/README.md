# shine_rs

Building blocks of an MPEG-1 Layer III (MP3) encoder, written in Verus with
their behaviour stated as contracts and proved.

`src/` is the verified library:

- `bits`, `bitstream`, `word_writer`: bit writers and the frame formatter
  (header, side information, Huffman coded main data);
- `huffman`, `types`: code tables and the encoder's frame state;
- `reservoir`: the bit reservoir;
- `config`, `cli`: encoder configuration and the converter's command line;
- `wav`: reading 16-bit PCM out of WAV bytes;
- `mp3_frame`, `mp3_validator`, `mp3_analysis`: frame headers, checking a
  stream frame by frame, reading side information, hexadecimal dumps;
- `diagnostics`, `diagnostics_data`, `monitor`: records and counts taken
  while encoding;
- `laws`: properties that relate several of these operations.

`app/` is the command-line program around the library (file access,
per-thread diagnostics storage, JSON, floating-point checks), and `tests/`
exercises the library on concrete values.
