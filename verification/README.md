# tcg_layout

Lays trading-card images out on printable pages: card lists with copy
counts, page plans with duplex back pages, bleed around card images, decklist
parsing, MarvelCDB deck assembly and matching of card names to image files
kept on Google Drive.

The library in `src/` is written in Verus: each public function states what
it returns or changes in its contract, and the properties that tie
functions together are stated and proved as proof functions next to the
code they speak of. Calls into std and into the `image` and `kamadak-exif`
crates go through a few small trusted functions whose contracts say what
those calls are taken to do.

- `text` — verified string helpers over `Vec<char>` (trimming, splitting,
  decimal numbers, word handling).
- `raster`, `bleed` — an RGBA raster and the bleed added around a card image.
- `types`, `project` — cards, copy counts, saved project cards.
- `layout` — which card goes in which slot of which page, and which grid cell
  a slot is.
- `decklist` — the decklist grammar, pairing proposed matches with the
  decklist and the card files, and ordering a card list by a decklist.
- `marvelcdb`, `deck` — MarvelCDB deck ids, card names from file names, and
  putting a fetched deck together.
- `google_drive` — Drive folder links, the folder map and index, and where a
  downloaded card image is stored.
- `image_file` — image formats, EXIF and PNG resolution records.
- `color_adjust`, `ui`, `thumbnail_manager` — small value types, labels and
  the key under which a thumbnail is cached.

`app/` is a command-line front end: file and network I/O, and the
floating-point work (page geometry in millimetres, blur, sharpening, colour
adjustment, DPI estimates).
