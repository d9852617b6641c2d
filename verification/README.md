# shodoukan

Builds a Japanese–English dictionary database (`shodoukan.sqlite`) from JMdict,
KANJIDIC2, the JLPT level lists, KanjiVG, RADKFILE and Tatoeba.

- `src/` is the library, verified with Verus: the data model, the mapping of
  JMdict and KANJIDIC2 records onto it, JMdict entity resolution, the
  streaming XML reader that picks out entity definitions and elements, gzip
  and bzip2 decompression, the tar, ZIP, RADKFILE and KanjiVG readers, the
  Tatoeba link resolution over the link list and sentence files, the download
  retry policy, the progress lines, and the rows an entry is stored as
  (frequency score, per-language sense positions and counts, JSON columns,
  reading restrictions, `entry_kanji` literals).
- `app/` is the program around it: downloads, the serde records that elements
  and JSON responses are read into, and the SQLite statements.
- `tests/` exercises the library.
