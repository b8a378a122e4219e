# Text view helpers, verified

The verified library in `src/` holds the logic of a rich-text view that does
not depend on the GPU framework around it:

- `decimal` — decimal numerals, with the proof that different numbers get
  different numerals;
- `list_marker` — the marker of a list item (`1.`, `A.`, `a.`, bullets), with
  the laws that letter markers cycle every 26 items, that top-level numbers
  are distinct and that bullets depend on the depth alone;
- `utf8_facts` — facts on UTF-8 encodings used by the proofs;
- `percent` — decoding of `%XX` escapes and the UTF-8 check of the result;
- `path_text` — the components of a path and the join of two paths, taken
  from std on the text of the paths;
- `image_url` — URL schemes (RFC 3986), the relative path that an image URL
  names, the path under a base directory that it resolves to, and whether an
  image is read from disk or left as a URI.

`app/` holds the style of a text view (floating-point sizes and callbacks)
and the conversion between the library's image sources and paths, taken as
text, and GPUI's.
