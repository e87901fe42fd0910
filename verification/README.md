# printa_ble

Printing to BLE thermal printers: the LX-D02 / LX-D2 and the X6 "cat printer"
family. Everything becomes a 384 px wide, 1-bit bitmap, and a state machine per
model turns that bitmap into packets.

The library under `src/` is written in Verus: every function states what it
returns, and the proofs are checked together with the code. It does no I/O.

| Module | What it holds |
|---|---|
| `protocol`, `protocol_x6` | Packets, checksums, notifications and print jobs of the two models |
| `raster` | Bitmaps, dithering, text, markdown, QR codes, barcodes, pattern bands, Apple Raster, previews |
| `transport` | Which device to connect to, the loop that drives a job, its log, when to give up |
| `service` | The course of a print from the connect to the last copy, and how failures are told apart |
| `content`, `images`, `url` | From a source to a bitmap; which images of a document are fetched |
| `cli`, `server`, `ipp`, `web` | What each surface accepts and answers |
| `config`, `model` | The printer that is remembered, and the printer families |
| `strings`, `fixed_point`, `rounding` | Text and number formatting |

`app/` is the `printable` program around it: Bluetooth, files, HTTP, Chrome, the
command line, and drawing the glyphs that text is set with. It looks for
`JetBrainsMono-Regular.ttf`, `-Bold.ttf`, `-Italic.ttf` and, optionally,
`NotoSansJP-Regular.ttf` in `$PRINTABLE_FONTS`, or in `assets` beside the program.

Lengths of text are in 64ths of a pixel, times in nanoseconds.

A few things are taken on trust, each at one marked function: PNG encoding,
decoding and resampling (`image`), Code128 (`barcoders`), QR encoding (`qrcode`),
markdown parsing (`pulldown-cmark`), gzip (`flate2`), and two functions of the
standard library on strings.
