# Photo Scanner

Photo Scanner scans paper photos, finds them on the scanner bed, straightens
them and saves them one by one, from the command line or from a GTK window.

The project has two parts.

- `src/` is the library, written in Verus. It makes the decisions: what the
  headers of image files say, which pixels belong to photos, how files are named
  and published, how a scan program is watched and stopped, how settings are read
  back, and how the window reacts. Each function states what it decides, and
  Verus proves it.
- `app/` is the program around it, in plain Rust. It runs `scanimage` and
  `exiv2`, calls OpenCV and GTK, and touches files. It asks the library what to
  do next and hands back what became of it.

## How the library is laid out

| Modules | What they are about |
| --- | --- |
| `text`, `decimals` | Characters, lines, numbers in text |
| `binary64`, `big`, `rounding`, `arithmetic` | Double-precision numbers as their bits, with exact rounding |
| `header`, `density`, `metadata`, `capture`, `read` | Image files: dimensions, resolution, tags, dates, reading |
| `detection`, `regions` | Telling photos from the scanner bed, and their order |
| `splitter`, `publish`, `export` | Settings, file names, all-or-nothing publication |
| `scanner`, `progress`, `failure` | Devices, scans, time limits, cancellation |
| `cli`, `i18n`, `notices` | The command line and what is told to people |
| `gui`, `gui_settings`, `work`, `import`, `review`, `sheet`, `zoom` | The window |

Work that mixes decisions with calls to the outside is a value with a stage. It
says which action comes next, takes the event that the action led to, and moves
on to the next stage. Publication, exports, scans, device searches and reviews
all have this form, and their laws speak of whole histories of such stages.

Floating point is not part of the library. Where results depend on it, the
library computes with the bits of the numbers and proves that each result is the
exact one, correctly rounded.

## What is trusted

The proofs rest on the stated contracts of a few outside functions: the
checksum of `crc32fast`, date parsing and formatting of `chrono`, message lookup
of `gettext-rs`, and two functions of the standard library that build and decode
strings. Each stands behind a small function whose comment says what is claimed.
