//! The archive copier: create the destination schema, copy the metadata
//! verbatim, and copy every tile whose coordinates fall inside the bounding
//! box's rectangle at its zoom level, inside one transaction.

use vstd::prelude::*;

verus! {

use vstd::string::StringExecFns;
use crate::errors::ExtractError;
use crate::mapper::{BoundingBox, MAX_ZOOM};
use crate::parse::bbox_valid;
use crate::store::{
    open_readonly,
    open_create,
    exec_batch,
    check_query,
    read_metadata,
    insert_metadata,
    read_zoom_levels,
    read_tiles_in_rect,
    insert_tile,
};

/// Extract the tiles of `input_path` that fall inside the bounding box
/// given by `bbox_str` (as `"N,E,S,W"` degrees) into a freshly created
/// archive at `output_path`, and report how many tiles were copied.
///
/// `m_north` and `m_south` are the Mercator vertical fractions of the
/// box's north and south edges in units of `2^-56`, computed by the caller
/// from `(1 - asinh(tan(lat)) / pi) / 2` (see [`crate::mapper`]); the
/// caller obtains the latitudes by first parsing the same text with
/// [`BoundingBox::parse`].
///
/// The stages run in a fixed order, and each failure names its stage:
/// the box is parsed before either file is touched
/// (an [`ExtractError::InvalidBoundingBox`] exactly when the text is not four
/// comma-separated numbers); the source is opened read-only and probed for
/// the two tables ([`ExtractError::SourceUnreadable`]); the destination is
/// created with the archive schema ([`ExtractError::DestinationUnwritable`]);
/// the metadata rows are copied verbatim in source order; the distinct zoom
/// levels are walked in ascending order, and at each one every tile inside
/// the box's rectangle is copied unchanged ([`ExtractError::CopyFailure`]).
/// The tile copies all happen inside one transaction: on a failure after
/// the metadata stage the destination keeps its metadata and gains no
/// tiles.  A source zoom level outside `[0, 56]` is reported as a copy
/// failure rather than copied wrongly.
pub fn extract_tiles(
    input_path: &str,
    output_path: &str,
    bbox_str: &str,
    m_north: i64,
    m_south: i64,
) -> (r: Result<u64, ExtractError>)
    ensures
        (r matches Err(e) && e matches ExtractError::InvalidBoundingBox(_)) <==> !bbox_valid(
            bbox_str@,
        ),
{
    let bbox = match BoundingBox::parse(bbox_str) {
        Ok(b) => b,
        Err(e) => {
            return Err(e);
        },
    };
    let input = match open_readonly(input_path) {
        Ok(c) => c,
        Err(m) => {
            return Err(ExtractError::SourceUnreadable(m));
        },
    };
    // the source must hold both archive tables before anything is written
    if let Err(m) = check_query(&input, "SELECT name, value FROM metadata") {
        return Err(ExtractError::SourceUnreadable(m));
    }
    if let Err(m) = check_query(
        &input,
        "SELECT zoom_level, tile_column, tile_row, tile_data FROM tiles",
    ) {
        return Err(ExtractError::SourceUnreadable(m));
    }
    let output = match open_create(output_path) {
        Ok(c) => c,
        Err(m) => {
            return Err(ExtractError::DestinationUnwritable(m));
        },
    };
    if let Err(m) = exec_batch(
        &output,
        "CREATE TABLE metadata (name TEXT, value TEXT);\nCREATE TABLE tiles (zoom_level INTEGER, tile_column INTEGER, tile_row INTEGER, tile_data BLOB);\nCREATE UNIQUE INDEX tile_index ON tiles (zoom_level, tile_column, tile_row);",
    ) {
        return Err(ExtractError::DestinationUnwritable(m));
    }
    // the metadata rows, verbatim and in source order
    let metadata = match read_metadata(&input) {
        Ok(v) => v,
        Err(m) => {
            return Err(ExtractError::CopyFailure(m));
        },
    };
    let mut mi: usize = 0;
    while mi < metadata.len()
        invariant
            bbox_valid(bbox_str@),
        decreases metadata.len() - mi,
    {
        let entry = &metadata[mi];
        if let Err(m) = insert_metadata(&output, &entry.0, &entry.1) {
            return Err(ExtractError::CopyFailure(m));
        }
        mi = mi + 1;
    }
    // the zoom levels present in the source, ascending
    let zooms = match read_zoom_levels(&input) {
        Ok(v) => v,
        Err(m) => {
            return Err(ExtractError::CopyFailure(m));
        },
    };
    // all tile copies form one transaction
    if let Err(m) = exec_batch(&output, "BEGIN") {
        return Err(ExtractError::CopyFailure(m));
    }
    let mut count: u64 = 0;
    let mut zi: usize = 0;
    while zi < zooms.len()
        invariant
            bbox_valid(bbox_str@),
            bbox.wf(),
        decreases zooms.len() - zi,
    {
        let zoom = zooms[zi];
        let z = match zoom_in_range(zoom) {
            Ok(z) => z,
            Err(e) => {
                return Err(e);
            },
        };
        let (col_min, col_max, row_min, row_max) = bbox.tile_bounds(z, m_north, m_south);
        let tiles = match read_tiles_in_rect(&input, zoom, col_min, col_max, row_min, row_max) {
            Ok(v) => v,
            Err(m) => {
                return Err(ExtractError::CopyFailure(m));
            },
        };
        let copied = match copy_tiles_at_zoom(&output, zoom, &tiles) {
            Ok(c) => c,
            Err(e) => {
                return Err(e);
            },
        };
        if copied <= u64::MAX - count {
            count = count + copied;
        } else {
            return Err(
                ExtractError::CopyFailure(String::from_str("the tile count left the counter's range")),
            );
        }
        zi = zi + 1;
    }
    if let Err(m) = exec_batch(&output, "COMMIT") {
        return Err(ExtractError::CopyFailure(m));
    }
    Ok(count)
}

/// A zoom level read from the source is usable exactly when it lies in
/// `[0, MAX_ZOOM]`; anything else is reported as a copy failure, never
/// copied wrongly.
fn zoom_in_range(zoom: i64) -> (r: Result<u32, ExtractError>)
    ensures
        r matches Ok(z) ==> 0 <= zoom <= MAX_ZOOM && z == zoom,
        r matches Err(e) ==> (zoom < 0 || zoom > MAX_ZOOM) && e matches ExtractError::CopyFailure(
            _,
        ),
{
    if zoom < 0 || zoom > MAX_ZOOM as i64 {
        Err(
            ExtractError::CopyFailure(
                String::from_str("a source zoom level is outside the supported range"),
            ),
        )
    } else {
        Ok(zoom as u32)
    }
}

/// Copy one zoom level's read rows into the destination.  On success the
/// returned count is exactly the number of rows handed in; every failure
/// is a copy failure.
fn copy_tiles_at_zoom(output: &rusqlite::Connection, zoom: i64, tiles: &Vec<(i64, i64, Vec<u8>)>)
    -> (r: Result<u64, ExtractError>)
    ensures
        r matches Ok(c) ==> c == tiles@.len(),
        r matches Err(e) ==> e matches ExtractError::CopyFailure(_),
{
    let mut count: u64 = 0;
    let mut ti: usize = 0;
    while ti < tiles.len()
        invariant
            ti <= tiles@.len(),
            count == ti,
        decreases tiles.len() - ti,
    {
        let tile = &tiles[ti];
        if let Err(m) = insert_tile(output, zoom, tile.0, tile.1, &tile.2) {
            return Err(ExtractError::CopyFailure(m));
        }
        count = count + 1;
        ti = ti + 1;
    }
    Ok(count)
}

} // verus!
