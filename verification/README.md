# librevideodit

A library for importing camera cards: it recognises which camera a card
belongs to from the card's directory structure, decides which files are
media, names each file's camera from its EXIF data or XMP sidecar, and plans
where every file is copied, skipping files whose identical copy (same SHA-256
digest) is already there.

Layout:

- `src/` — the verified library (Verus). Text and path handling (`text`,
  `paths`), camera names (`naming`, `metadata`), media selection (`media`),
  content checks (`hash`), configuration (`camera`, `config`) and the import
  plan and report (`importer`).
- `app/` — the file-system side: reading `config.json`, walking the card,
  reading files, copying, and the serde forms of the library's types.
- `tests/` — tests of the library on concrete values.
