# memlcd

Frame buffer logic for the Sharp LS013B7DH03 memory LCD (128 x 128 pixels,
one bit per pixel) on an EFM32 Pearl Gecko starter kit, verified with Verus.

- `src/bits.rs`: bit reversal of the line addresses and facts about single-bit masks.
- `src/display/mod.rs`: the generic frame over a borrowed buffer, and the
  position of the moving triangle that the drawing task animates.
- `src/display/ls013b7dh03.rs`: the buffer layout (line address, 16 pixel
  bytes, filler byte per line), pixel access, drawing, clearing, the order of
  the SPI transfers, and the laws of the model.
- `src/ls013b7dh03.rs`: a driver frame that keeps its layout as a type invariant.
- `app/`: the firmware around the library (embassy tasks, SPI, GPIO,
  embedded-graphics rendering, statically allocated buffers).
