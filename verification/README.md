# bambam

Verified building blocks of the BAMBAM multimodal accessibility tools: GTFS schedule
preparation, transit and GTFS-Flex traversal decisions, and modal comfort metrics.
Each function states what it does as a Verus contract over plain mathematical values.

## Layout

- `src/temporal.rs`, `src/text.rs`: dates, times and instants as integers; decimal
  rendering and character helpers.
- `src/schedule/`: GTFS schedule preparation.
  - `fq_ops`, `rows`, `error`: fully-qualified route ids, schedule rows, errors.
  - `calendar`, `date_ops`, `policy_config`, `policy`, `trip`: date mapping policies
    and how they pick service dates.
  - `processing`: schedule times, the edge accumulator and the walk over the trips
    of one archive.
  - `metadata`, `bundle`: archive metadata and its merge; bundles and their
    consolidation into dense edge ids.
  - `outputs`: the sorted fully-qualified route ids and grouped date mappings written
    beside a bundle.
- `src/transit/`: departure schedules, date mapping at search time, the traversal
  engine and how schedules are loaded.
- `src/flex/`: GTFS-Flex zone ids, zone schedules, zonal relations and graphs, the
  frontier and destination decisions, and reading flex archives.
- `src/metrics/`: level of traffic stress and walking comfort index.
- `src/category.rs`: categorical encodings of labels.
- `app/`: the command line tool and the file, archive, spatial index and floating
  point work around the library.
- `tests/`: tests of the library on concrete values.
