# sedona_core

The verified core of three SedonaDB components:

- **Zarr rasters**: group URIs and credential options (`source_uri`,
  `object_store_backends`, `credentials`), the arrays of a group
  (`array_info`), the walk over the chunk grid (`chunk_grid`) and the rows of a
  raster (`loader`).
- **`ST_Collect_Agg`**: geometry types and sets of them (`geometry_types`), WKB
  headers (`wkb`), lists of names in JSON (`json`), the accumulator
  (`st_collect_agg`) and what holds of it as a whole (`st_collect_laws`).
- **Spilling**: how batches are cut and counted (`spill`) and when the page
  cache is tended (`spill_writeback`).

`text`, `decimal`, `error` and `runtime` serve them.

Everything under `src/` is proved with Verus, but for the calls into `url`,
`serde_json`, `wkb` and two functions of std, each of which stands behind a
small wrapper that says what is taken for granted. Properties that span several
functions are public proof functions whose names start with `law_`.

`app/` is ordinary Rust: it opens stores, reads chunks, writes spill files,
performs system calls, and fits the accumulator into DataFusion. `tests/` runs
the library together with the crates it calls.
