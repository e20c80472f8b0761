use mbtile::errors::ExtractError;
use mbtile::extract::extract_tiles;
use mbtile::mapper::BoundingBox;

/// The Web-Mercator vertical fraction of a latitude, in units of 2^-56.
fn mercator_fraction_fixed(lat_deg: f64) -> i64 {
    let rad = lat_deg.to_radians();
    let m = (1.0 - rad.tan().asinh() / std::f64::consts::PI) / 2.0;
    let c = if m < -2.0 {
        -2.0
    } else if m > 2.0 {
        2.0
    } else {
        m
    };
    (c * 72057594037927936.0).floor() as i64
}

/// Parse the box and run an extraction the way the command-line front end
/// does: the Mercator fractions come from the parsed latitudes.
fn run_extract(input: &str, output: &str, bbox: &str) -> Result<u64, ExtractError> {
    let (mn, ms) = match BoundingBox::parse(bbox) {
        Ok(bb) => (
            mercator_fraction_fixed(bb.north_nano as f64 / 1e9),
            mercator_fraction_fixed(bb.south_nano as f64 / 1e9),
        ),
        Err(_) => (0, 0),
    };
    extract_tiles(input, output, bbox, mn, ms)
}

const SCHEMA: &str = "CREATE TABLE metadata (name TEXT, value TEXT);
CREATE TABLE tiles (zoom_level INTEGER, tile_column INTEGER, tile_row INTEGER, tile_data BLOB);
CREATE UNIQUE INDEX tile_index ON tiles (zoom_level, tile_column, tile_row);";

fn mem_uri(name: &str) -> String {
    format!("file:{}?mode=memory&cache=shared", name)
}

/// A fresh in-memory source archive with the classic five-tile pyramid:
/// one tile at zoom 0 and the four quadrants at zoom 1.
fn make_pyramid_source(uri: &str) -> rusqlite::Connection {
    let conn = rusqlite::Connection::open(uri).unwrap();
    conn.execute_batch(SCHEMA).unwrap();
    conn.execute(
        "INSERT INTO metadata (name, value) VALUES (?1, ?2)",
        ("name", "pyramid"),
    )
    .unwrap();
    conn.execute(
        "INSERT INTO metadata (name, value) VALUES (?1, ?2)",
        ("format", "png"),
    )
    .unwrap();
    for (z, c, r) in [(0i64, 0i64, 0i64), (1, 0, 0), (1, 0, 1), (1, 1, 0), (1, 1, 1)] {
        let payload: Vec<u8> = vec![z as u8, c as u8, r as u8, 0xAB];
        conn.execute(
            "INSERT INTO tiles (zoom_level, tile_column, tile_row, tile_data) VALUES (?1, ?2, ?3, ?4)",
            (z, c, r, payload),
        )
        .unwrap();
    }
    conn
}

fn read_tiles(conn: &rusqlite::Connection) -> Vec<(i64, i64, i64, Vec<u8>)> {
    let mut stmt = conn
        .prepare(
            "SELECT zoom_level, tile_column, tile_row, tile_data FROM tiles ORDER BY zoom_level, tile_column, tile_row",
        )
        .unwrap();
    let rows = stmt
        .query_map([], |row| {
            Ok((row.get(0)?, row.get(1)?, row.get(2)?, row.get(3)?))
        })
        .unwrap();
    rows.map(|r| r.unwrap()).collect()
}

fn read_metadata(conn: &rusqlite::Connection) -> Vec<(String, String)> {
    let mut stmt = conn.prepare("SELECT name, value FROM metadata").unwrap();
    let rows = stmt
        .query_map([], |row| Ok((row.get(0)?, row.get(1)?)))
        .unwrap();
    rows.map(|r| r.unwrap()).collect()
}

#[test]
fn whole_world_copies_all_five_tiles() {
    let src_uri = mem_uri("p8src");
    let dst_uri = mem_uri("p8dst");
    let _src = make_pyramid_source(&src_uri);
    let dst = rusqlite::Connection::open(&dst_uri).unwrap();
    let count = run_extract(&src_uri, &dst_uri, "85,180,-85,-180").unwrap();
    assert_eq!(count, 5);
    let tiles = read_tiles(&dst);
    assert_eq!(tiles.len(), 5);
    assert_eq!(tiles[0], (0, 0, 0, vec![0, 0, 0, 0xAB]));
    assert_eq!(tiles[4], (1, 1, 1, vec![1, 1, 1, 0xAB]));
}

#[test]
fn quadrant_box_copies_two_tiles() {
    let src_uri = mem_uri("p9src");
    let dst_uri = mem_uri("p9dst");
    let _src = make_pyramid_source(&src_uri);
    let dst = rusqlite::Connection::open(&dst_uri).unwrap();
    // strictly inside the north-eastern quadrant
    let count = run_extract(&src_uri, &dst_uri, "85,180,1,1").unwrap();
    assert_eq!(count, 2);
    let tiles = read_tiles(&dst);
    assert_eq!(tiles.len(), 2);
    assert_eq!(tiles[0], (0, 0, 0, vec![0, 0, 0, 0xAB]));
    assert_eq!(tiles[1], (1, 1, 1, vec![1, 1, 1, 0xAB]));
}

#[test]
fn malformed_bbox_fails_before_touching_files() {
    // even the source path is bad: the parse failure comes first
    let r = run_extract("/nonexistent/input.mbtiles", "/nonexistent/out.mbtiles", "1,2,3");
    assert!(matches!(r, Err(ExtractError::InvalidBoundingBox(_))));
}

#[test]
fn missing_source_is_unreadable() {
    let r = run_extract(
        "/nonexistent/input.mbtiles",
        &mem_uri("missdst"),
        "85,180,-85,-180",
    );
    assert!(matches!(r, Err(ExtractError::SourceUnreadable(_))));
}

#[test]
fn source_without_archive_tables_is_unreadable() {
    let src_uri = mem_uri("notablesrc");
    let dst_uri = mem_uri("notabledst");
    let _src = rusqlite::Connection::open(&src_uri).unwrap();
    let _dst = rusqlite::Connection::open(&dst_uri).unwrap();
    let r = run_extract(&src_uri, &dst_uri, "85,180,-85,-180");
    assert!(matches!(r, Err(ExtractError::SourceUnreadable(_))));
}

#[test]
fn conflicting_destination_is_unwritable() {
    let src_uri = mem_uri("confsrc");
    let dst_uri = mem_uri("confdst");
    let _src = make_pyramid_source(&src_uri);
    let dst = rusqlite::Connection::open(&dst_uri).unwrap();
    // the destination already holds a conflicting metadata table
    dst.execute_batch("CREATE TABLE metadata (name TEXT, value TEXT);").unwrap();
    let r = run_extract(&src_uri, &dst_uri, "85,180,-85,-180");
    assert!(matches!(r, Err(ExtractError::DestinationUnwritable(_))));
}

#[test]
fn metadata_is_copied_verbatim_in_order_with_duplicates() {
    let src_uri = mem_uri("metasrc");
    let dst_uri = mem_uri("metadst");
    let src = rusqlite::Connection::open(&src_uri).unwrap();
    src.execute_batch(SCHEMA).unwrap();
    let pairs = [
        ("name", "sample"),
        ("bounds", "-180,-85,180,85"),
        ("name", "sample"),
        ("minzoom", "0"),
    ];
    for (n, v) in pairs {
        src.execute("INSERT INTO metadata (name, value) VALUES (?1, ?2)", (n, v))
            .unwrap();
    }
    let dst = rusqlite::Connection::open(&dst_uri).unwrap();
    let count = run_extract(&src_uri, &dst_uri, "85,180,-85,-180").unwrap();
    assert_eq!(count, 0);
    let copied = read_metadata(&dst);
    assert_eq!(copied.len(), 4);
    for (i, (n, v)) in pairs.iter().enumerate() {
        assert_eq!(copied[i], (n.to_string(), v.to_string()));
    }
}

#[test]
fn exactly_the_tiles_inside_the_rectangle_are_copied() {
    let src_uri = mem_uri("compsrc");
    let dst_uri = mem_uri("compdst");
    let src = rusqlite::Connection::open(&src_uri).unwrap();
    src.execute_batch(SCHEMA).unwrap();
    // zoom 2: the north-eastern quarter is columns 2..3, rows 2..3 in the
    // south-origin convention
    for c in 0i64..4 {
        for r in 0i64..4 {
            let payload: Vec<u8> = vec![2, c as u8, r as u8];
            src.execute(
                "INSERT INTO tiles (zoom_level, tile_column, tile_row, tile_data) VALUES (?1, ?2, ?3, ?4)",
                (2i64, c, r, payload),
            )
            .unwrap();
        }
    }
    let dst = rusqlite::Connection::open(&dst_uri).unwrap();
    let count = run_extract(&src_uri, &dst_uri, "85,180,1,1").unwrap();
    assert_eq!(count, 4);
    let tiles = read_tiles(&dst);
    let coords: Vec<(i64, i64, i64)> = tiles.iter().map(|t| (t.0, t.1, t.2)).collect();
    assert_eq!(coords, vec![(2, 2, 2), (2, 2, 3), (2, 3, 2), (2, 3, 3)]);
    for t in &tiles {
        assert_eq!(t.3, vec![2, t.1 as u8, t.2 as u8]);
    }
}

#[test]
fn zoom_levels_with_no_matching_tiles_contribute_nothing() {
    let src_uri = mem_uri("zoomsrc");
    let dst_uri = mem_uri("zoomdst");
    let src = rusqlite::Connection::open(&src_uri).unwrap();
    src.execute_batch(SCHEMA).unwrap();
    // zoom 0 inside every box; zoom 3 only far south-west tiles
    src.execute(
        "INSERT INTO tiles (zoom_level, tile_column, tile_row, tile_data) VALUES (?1, ?2, ?3, ?4)",
        (0i64, 0i64, 0i64, vec![0u8]),
    )
    .unwrap();
    src.execute(
        "INSERT INTO tiles (zoom_level, tile_column, tile_row, tile_data) VALUES (?1, ?2, ?3, ?4)",
        (3i64, 0i64, 0i64, vec![3u8]),
    )
    .unwrap();
    let dst = rusqlite::Connection::open(&dst_uri).unwrap();
    // a box in the north-east sees the zoom-0 tile but nothing at zoom 3
    let count = run_extract(&src_uri, &dst_uri, "85,180,1,1").unwrap();
    assert_eq!(count, 1);
    let tiles = read_tiles(&dst);
    assert_eq!(tiles.len(), 1);
    assert_eq!(tiles[0].0, 0);
}

#[test]
fn repeated_extraction_gives_identical_tile_sets() {
    let src_uri = mem_uri("idemsrc");
    let dst1_uri = mem_uri("idemdst1");
    let dst2_uri = mem_uri("idemdst2");
    let _src = make_pyramid_source(&src_uri);
    let dst1 = rusqlite::Connection::open(&dst1_uri).unwrap();
    let dst2 = rusqlite::Connection::open(&dst2_uri).unwrap();
    let c1 = run_extract(&src_uri, &dst1_uri, "85,180,1,-1").unwrap();
    let c2 = run_extract(&src_uri, &dst2_uri, "85,180,1,-1").unwrap();
    assert_eq!(c1, c2);
    assert_eq!(read_tiles(&dst1), read_tiles(&dst2));
}
