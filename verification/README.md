# playlist_covers

Cover images for a grid of playlists in a terminal.

- `grid`: the geometry of the grid.
- `covers`, `cover_model`, `url_map`: the store of encoded covers, and what it holds.
- `cover_laws`, `run_laws`: what holds of the store, of one call and of any number of them: which
  covers are encoded, sent to the terminal, kept and evicted.
- `encode`, `draw`: encoding an image and drawing it, through `image` and `ratatui-image`.
- `kitty`, `snapshot`, `screen_laws`: the graphics protocol of the Kitty terminal, and text
  descriptions of a screen that shows images through it.
- `screen`, `canvas`, `palette`, `raster`: screens of cells, pictures of pixels, and turning the one
  into the other to compare them.
- `fixtures`, `scenario`, `golden`: made-up playlists, scenes of the grid, and golden files.
- `text`: numerals and searching.

`app/` holds what surrounds the library: threads, the clock, the environment, files, and floating
point arithmetic.
