# extractor

Extraction of the 2026 university admission results that Korean universities
publish (PDF, XLSX, HWP, images, HTML) into one JSON report for a static site.

- `src/` is the library, verified with Verus: metadata read from file names
  (`source_meta`), spreadsheet rows (`xlsx`), preprocessed PDF rows (`pdf`),
  row clean-up and document ids (`normalize`), sanity checks (`validate`),
  the per-file decisions of a scan and the report (`scan`, `summary`), on the
  data model of `model` and the text operations of `text`.
- `app/` is the command-line program: it walks `data/raw`, reads workbooks
  and preprocessed JSON, parses numbers, and writes `data.json`.

Numbers read as 32-bit floating point values are held in the library as their
IEEE-754 encodings (`F32Bits`); every range rule on them is a rule on integers.

    extractor scan ../data --out ../site/public/data.json
    extractor inspect some/file.xlsx
