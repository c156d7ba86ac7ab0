# lonely-highway-pipeline

Turns OpenStreetMap data into 512 m world tiles: road and building meshes as
binary glTF (`.glb`), a lane graph for traffic, per-tile metadata and a minimap.

The crate is split in two.

## `src/`: the verified library (Verus)

Every function here has a `requires`/`ensures` contract that Verus proves,
stated over spec functions of plain values.

| module | what is proved |
|---|---|
| `osm` | the line-based OSM XML reader `scan_osm`: its output equals the spec machine `scan_document` (nodes, ways, tags, fallbacks for missing tags), every span lies in the text, lane counts split forward/backward |
| `types`, `fallbacks` | tag names to highway classes (`lemma_highway_tags`: one tag per class, links end in `_link`), the fallback tables |
| `span`, `text` | trimming, suffix stripping and number parsing as `str::trim` and `str::parse` do them |
| `elevation` | road heights from `layer`/`bridge`/`tunnel`: tunnels always below ground, bridges at least one layer up, monotone in the layer |
| `mesh` | index lists of road strips and building shells: whole triangles naming existing vertices |
| `lane_graph`, `traffic` | the lane graph built from roads: node and edge numbering, one edge per segment and lane, one-way roads only forward |
| `tile` | the tile grid covers the rectangle once; a tile's graph keeps exactly the kept nodes and the edges between them, renumbered |
| `buffer`, `bytes`, `glb` | the packed binary buffer and the `.glb` container: what a reader finds at each offset, alignment, and that meshes without vertices change nothing |
| `naming`, `fetch`, `config` | tile file names (distinct tiles, distinct names), the Overpass query text, the bounding-box argument |

There are no trusted items: `src/` calls no outside crate.

## `app/`: the program around it (plain Rust)

`app/` holds what Verus does not check: command-line handling (clap), the HTTP
request to Overpass (reqwest), file output, JSON via serde and glTF via
`gltf-json`, the PNG minimap (image), and the floating-point geometry
(projecting coordinates to metres, vertex positions and normals, edge lengths,
tile bounds tests, signal phase durations). It hands the library plain values and
checks each library `requires` before the call.

## Running the checks

`tests/` runs the library on concrete inputs, including a test on concrete values
for each law above.
