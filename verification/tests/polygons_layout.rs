//! Tests for the polygon pass and for the layout façade.

use goasper::{read_gds_polygons, GoasperError, Layout};

const RT_LIBNAME: u8 = 0x02;
const RT_ENDLIB: u8 = 0x04;
const RT_BGNSTR: u8 = 0x05;
const RT_STRNAME: u8 = 0x06;
const RT_ENDSTR: u8 = 0x07;
const RT_BOUNDARY: u8 = 0x08;
const RT_LAYER: u8 = 0x0D;
const RT_DATATYPE: u8 = 0x0E;
const RT_XY: u8 = 0x10;
const RT_ENDEL: u8 = 0x11;
const DT_INT2: u8 = 0x02;
const DT_INT4: u8 = 0x03;
const DT_ASCII: u8 = 0x06;

fn rec(rt: u8, dt: u8, data: &[u8]) -> Vec<u8> {
    let len = (4 + data.len()) as u16;
    let mut v = Vec::with_capacity(len as usize);
    v.extend_from_slice(&len.to_be_bytes());
    v.push(rt);
    v.push(dt);
    v.extend_from_slice(data);
    v
}

fn be_i32(x: i32) -> [u8; 4] {
    x.to_be_bytes()
}

fn padded(name: &[u8]) -> Vec<u8> {
    let mut nm = name.to_vec();
    if nm.len() % 2 != 0 {
        nm.push(0);
    }
    nm
}

fn xy_payload(pts: &[(i32, i32)]) -> Vec<u8> {
    let mut xy = Vec::new();
    for (x, y) in pts {
        xy.extend_from_slice(&be_i32(*x));
        xy.extend_from_slice(&be_i32(*y));
    }
    xy
}

fn minimal_stream() -> Vec<u8> {
    // one struct TOP with one rectangle on layer 1/0
    let mut bytes = Vec::new();
    bytes.extend(rec(RT_BGNSTR, 0x02, &[0; 24]));
    bytes.extend(rec(RT_STRNAME, DT_ASCII, &padded(b"TOP")));
    bytes.extend(rec(RT_BOUNDARY, 0, &[]));
    bytes.extend(rec(0x0D, 0x02, &1u16.to_be_bytes())); // LAYER
    bytes.extend(rec(0x0E, 0x02, &0u16.to_be_bytes())); // DATATYPE
    bytes.extend(rec(
        0x10,
        0x03,
        &xy_payload(&[(0, 0), (10, 0), (10, 5), (0, 5), (0, 0)]),
    )); // XY
    bytes.extend(rec(0x11, 0, &[])); // ENDEL
    bytes.extend(rec(RT_ENDSTR, 0, &[]));
    bytes.extend(rec(RT_ENDLIB, 0, &[]));
    bytes
}

#[test]
fn polys_roundtrip_minimal() {
    let bytes = minimal_stream();
    let cells = read_gds_polygons(&bytes).unwrap();
    assert_eq!(cells.len(), 1);
    assert_eq!(cells[0].name, "TOP");
    assert_eq!(cells[0].polys.len(), 1);
    assert_eq!(cells[0].polys[0].layer, 1);
    assert_eq!(cells[0].polys[0].datatype, 0);
    assert_eq!(cells[0].polys[0].xy, vec![(0, 0), (10, 0), (10, 5), (0, 5)]);
}

#[test]
fn closing_duplicate_drops_only_the_last_vertex() {
    // a degenerate ring whose shortened form still ends on its first vertex
    let mut bytes = Vec::new();
    bytes.extend(rec(RT_BGNSTR, 0x02, &[0; 24]));
    bytes.extend(rec(RT_STRNAME, DT_ASCII, &padded(b"DEGEN")));
    bytes.extend(rec(RT_BOUNDARY, 0, &[]));
    bytes.extend(rec(RT_XY, DT_INT4, &xy_payload(&[(0, 0), (0, 0), (0, 0)])));
    bytes.extend(rec(RT_ENDEL, 0, &[]));
    bytes.extend(rec(RT_ENDSTR, 0, &[]));
    bytes.extend(rec(RT_ENDLIB, 0, &[]));
    let cells = read_gds_polygons(&bytes).unwrap();
    assert_eq!(cells[0].polys[0].xy, vec![(0, 0), (0, 0)]);
}

#[test]
fn element_with_no_vertices_is_dropped() {
    let mut bytes = Vec::new();
    bytes.extend(rec(RT_BGNSTR, 0x02, &[0; 24]));
    bytes.extend(rec(RT_STRNAME, DT_ASCII, &padded(b"TOP")));
    bytes.extend(rec(RT_BOUNDARY, 0, &[]));
    bytes.extend(rec(RT_LAYER, DT_INT2, &1u16.to_be_bytes()));
    bytes.extend(rec(RT_ENDEL, 0, &[]));
    bytes.extend(rec(RT_ENDSTR, 0, &[]));
    bytes.extend(rec(RT_ENDLIB, 0, &[]));
    let cells = read_gds_polygons(&bytes).unwrap();
    assert_eq!(cells.len(), 1);
    assert!(cells[0].polys.is_empty());
}

#[test]
fn two_cells_keep_stream_order() {
    let mut bytes = Vec::new();
    for name in [&b"AAA"[..], &b"BBB"[..]] {
        bytes.extend(rec(RT_BGNSTR, 0x02, &[0; 24]));
        bytes.extend(rec(RT_STRNAME, DT_ASCII, &padded(name)));
        bytes.extend(rec(RT_BOUNDARY, 0, &[]));
        bytes.extend(rec(RT_LAYER, DT_INT2, &3u16.to_be_bytes()));
        bytes.extend(rec(RT_DATATYPE, DT_INT2, &1u16.to_be_bytes()));
        bytes.extend(rec(RT_XY, DT_INT4, &xy_payload(&[(1, 1), (2, 2)])));
        bytes.extend(rec(RT_ENDEL, 0, &[]));
        bytes.extend(rec(RT_ENDSTR, 0, &[]));
    }
    bytes.extend(rec(RT_ENDLIB, 0, &[]));
    let cells = read_gds_polygons(&bytes).unwrap();
    assert_eq!(cells.len(), 2);
    assert_eq!(cells[0].name, "AAA");
    assert_eq!(cells[1].name, "BBB");
    assert_eq!(cells[0].polys[0].xy, vec![(1, 1), (2, 2)]);
    assert_eq!(cells[1].polys[0].layer, 3);
    assert_eq!(cells[1].polys[0].datatype, 1);
}

#[test]
fn empty_layout() {
    let l = Layout::new();
    assert!(l.cell_names().is_empty());
}

#[test]
fn layout_exposes_decode_results() {
    let mut bytes = Vec::new();
    bytes.extend(rec(RT_LIBNAME, DT_ASCII, &padded(b"LIB")));
    bytes.extend(minimal_stream());
    let mut l = Layout::new();
    l.load_gds(&bytes).unwrap();
    assert_eq!(l.libname().map(|s| s.as_str()), Some("LIB"));
    assert_eq!(l.cell_names(), vec!["TOP"]);
    assert_eq!(l.cell_summaries().len(), 1);
    assert_eq!(l.cell_summaries()[0].name, "TOP");
    assert_eq!(l.cell_summaries()[0].total_polys, 1);
    assert_eq!(l.polygons().len(), 1);
    let polys = l.polygons_for("TOP").unwrap();
    assert_eq!(polys.len(), 1);
    assert_eq!(polys[0].xy, vec![(0, 0), (10, 0), (10, 5), (0, 5)]);
    assert!(l.polygons_for("MISSING").is_none());
}

#[test]
fn failed_load_leaves_layout_unchanged() {
    let mut l = Layout::new();
    l.load_gds(&minimal_stream()).unwrap();
    // a record header declaring total length 2 is malformed
    let bad = vec![0x00, 0x02, RT_BOUNDARY, 0x00];
    let err = l.load_gds(&bad).unwrap_err();
    let GoasperError::Io(msg) = err;
    assert_eq!(msg, "malformed GDS record");
    // the earlier results are still there
    assert_eq!(l.cell_names(), vec!["TOP"]);

    let truncated = vec![0x00, 0x08, RT_BOUNDARY, 0x00, 0x01];
    let GoasperError::Io(msg2) = l.load_gds(&truncated).unwrap_err();
    assert_eq!(msg2, "unexpected end of stream");
}

#[test]
fn save_oas_is_a_stub() {
    let l = Layout::new();
    assert!(l.save_oas("anywhere.oas").is_ok());
}
