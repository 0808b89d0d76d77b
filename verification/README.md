# comic_reader

A comic reader's core, verified with Verus: reading CBZ/ZIP archives or image folders
page by page, the current page first, with background decoding, byte-bounded LRU caches
and thumbnails.

- `src/` is the verified library:
  - `text`: path names, extensions and decimal text;
  - `natural`: natural ordering of names (through `natord`);
  - `page_order`: which archive entries are pages, their reading order and the prefetch
    window around a page;
  - `cache`: the byte-bounded LRU page cache;
  - `raw`: the raw page bytes that the cache charges by their length (`Vec<u8>`, `bytes::Bytes`);
  - `worker`: the reader's loop as a state machine from events to actions;
  - `archive`: zip and folder listings turned into page entries, and error texts;
  - `decoder`: image decoding and thumbnails (through `image`);
  - `view`: what the reading window shows and asks for;
  - `types`: the shared data types.
- `app/` holds the program around it: file and zip I/O, the thread and channels that
  drive the loop, the egui window with its O-key file dialog, and a benchmark (`--bench <comic>`).
- `tests/` runs the library on concrete inputs.
