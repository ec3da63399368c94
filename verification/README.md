# lance_conversion

Converts Arrow data into Lance datasets: rows of a DuckDB `COPY`, Parquet shards
of a Hugging Face dataset, and WARC archives, on disk or in S3, whole or through
a JSON or CDXJ index.

`src/` is the library. It plans and checks everything that a conversion does:
where objects are, which byte ranges are read and how many at once, what an index
line or a WARC record says, which rows make up a batch, which columns a schema
may have, which indexes are built, and what each failure is called. Every
function there has a contract that Verus proves.

- `error`, `error_struct`: failures and what they say
- `text`, `order`, `json`, `gzip`: texts, their order, and encoded bytes
- `schema`: the column types that can be written
- `storage`: local paths, file URLs and S3 objects
- `source`: WARC archives, their indexes, and Parquet shards
- `sink`: Lance datasets and their indexes
- `ffi`, `writer`: what crosses the C boundary, and the progress of a `COPY`

Calls into other crates stand behind small functions marked
`#[verifier::external_body]`, whose contracts are believed. The doc comment above
each says what is believed of which call. Proof functions called `law_...` state
what holds of several functions together.

`app/` is ordinary Rust around the library: asynchronous I/O, the C interface and
the calls into Lance.

`tests/` runs the library.

Every error tells the file, line and column that raised it. The library writes
these places out; `python3 extras/places.py` corrects them after an edit.
