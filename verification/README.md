# tpdf

A PDF viewer for terminals that speak the Kitty graphics protocol. PDFium
rasterizes the pages in a worker thread, and each page is sent to the terminal
as a compressed bitmap. The document is reloaded whenever it changes on disk.

The library under `src/` is written in Verus: what each function does is stated
in its contract and proved.

| Module | What it holds |
|---|---|
| `app` | pages, zoom, offsets, key bindings |
| `cache` | the bitmaps at hand: the current page and its neighbours |
| `layout`, `float` | the size of a raster, in single and double precision to the last bit |
| `terminal::size` | cells and pixels, and the cap on rasters in zellij |
| `terminal::kitty`, `terminal::payload` | images: packing, compression, base64, chunks, placement |
| `terminal::session`, `terminal::ansi` | the alternate screen and the cursor |
| `ui::status` | the status line |
| `pdf::renderer` | requests to the worker, in the order it takes them up |
| `viewer` | the decisions of the main loop, with its deadlines |
| `watcher` | which changes on disk concern the document |
| `startup` | what is checked before anything is shown |
| `laws` | what holds of these parts taken together |

What is taken on trust are the functions of `base64`, `flate2` and `crossterm`
that `terminal::payload` and `terminal::ansi` call, each with the contract that
stands above it, and the copying of a path in `pdf::document`.

The program around the library is in `app/`: the command line, the terminal,
the file watch, and PDFium.
