//! Tests for the summary pass: library name, bounding boxes, shape counts.

use goasper::{read_gds_summary, BBox, CellSummary};

const RT_LIBNAME: u8 = 0x02;
const RT_ENDLIB: u8 = 0x04;
const RT_BGNSTR: u8 = 0x05;
const RT_STRNAME: u8 = 0x06;
const RT_ENDSTR: u8 = 0x07;
const RT_BOUNDARY: u8 = 0x08;
const RT_LAYER: u8 = 0x0D;
const RT_DATATYPE: u8 = 0x0E;
const RT_XY: u8 = 0x10;
const RT_ENDEL: u8 = 0x11;
const DT_INT2: u8 = 0x02;
const DT_INT4: u8 = 0x03;
const DT_ASCII: u8 = 0x06;

fn rec(rectype: u8, dtype: u8, data: &[u8]) -> Vec<u8> {
    let len = (4 + data.len()) as u16;
    let mut v = Vec::with_capacity(len as usize);
    v.extend_from_slice(&len.to_be_bytes());
    v.push(rectype);
    v.push(dtype);
    v.extend_from_slice(data);
    v
}

fn be_i32(x: i32) -> [u8; 4] {
    x.to_be_bytes()
}

fn padded(name: &[u8]) -> Vec<u8> {
    let mut nm = name.to_vec();
    if nm.len() % 2 != 0 {
        nm.push(0);
    }
    nm
}

fn xy_payload(pts: &[(i32, i32)]) -> Vec<u8> {
    let mut xy = Vec::new();
    for (x, y) in pts {
        xy.extend_from_slice(&be_i32(*x));
        xy.extend_from_slice(&be_i32(*y));
    }
    xy
}

fn count_for(c: &CellSummary, lay: u16, dt: u16) -> Option<usize> {
    c.layer_poly_counts
        .iter()
        .find(|e| e.layer == lay && e.datatype == dt)
        .map(|e| e.count)
}

fn boundary(lay: u16, dt: u16, pts: &[(i32, i32)]) -> Vec<u8> {
    let mut bytes = Vec::new();
    bytes.extend(rec(RT_BOUNDARY, 0, &[]));
    bytes.extend(rec(RT_LAYER, DT_INT2, &lay.to_be_bytes()));
    bytes.extend(rec(RT_DATATYPE, DT_INT2, &dt.to_be_bytes()));
    bytes.extend(rec(RT_XY, DT_INT4, &xy_payload(pts)));
    bytes.extend(rec(RT_ENDEL, 0, &[]));
    bytes
}

#[test]
fn summary_has_lib_bbox_and_counts() {
    // craft a tiny stream: LIBNAME, one struct "TOP" with a rectangle on (1,0)
    let mut bytes = Vec::new();
    bytes.extend(rec(RT_LIBNAME, DT_ASCII, &padded(b"LIB")));
    bytes.extend(rec(RT_BGNSTR, 0x02, &[0; 24]));
    bytes.extend(rec(RT_STRNAME, DT_ASCII, &padded(b"TOP")));
    bytes.extend(rec(RT_BOUNDARY, 0, &[]));
    bytes.extend(rec(RT_LAYER, DT_INT2, &1u16.to_be_bytes()));
    bytes.extend(rec(RT_DATATYPE, DT_INT2, &0u16.to_be_bytes()));
    // box (0,0)-(10,5)
    bytes.extend(rec(
        RT_XY,
        DT_INT4,
        &xy_payload(&[(0, 0), (10, 0), (10, 5), (0, 5), (0, 0)]),
    ));
    bytes.extend(rec(RT_ENDEL, 0, &[]));
    bytes.extend(rec(RT_ENDSTR, 0, &[]));
    bytes.extend(rec(RT_ENDLIB, 0, &[]));

    let s = read_gds_summary(&bytes).unwrap();
    assert_eq!(s.libname.as_deref(), Some("LIB"));
    assert_eq!(s.cells.len(), 1);
    let c = &s.cells[0];
    assert_eq!(c.name, "TOP");
    assert_eq!(c.total_polys, 1);
    assert_eq!(count_for(c, 1, 0), Some(1));
    assert_eq!(
        c.bbox.unwrap(),
        BBox {
            xmin: 0,
            ymin: 0,
            xmax: 10,
            ymax: 5
        }
    );
}

#[test]
fn first_libname_wins() {
    let mut bytes = Vec::new();
    bytes.extend(rec(RT_LIBNAME, DT_ASCII, &padded(b"FIRST\0")));
    bytes.extend(rec(RT_LIBNAME, DT_ASCII, &padded(b"SECOND")));
    bytes.extend(rec(RT_ENDLIB, 0, &[]));
    let s = read_gds_summary(&bytes).unwrap();
    assert_eq!(s.libname.as_deref(), Some("FIRST"));
    assert!(s.cells.is_empty());
}

#[test]
fn total_equals_sum_of_counts() {
    let mut bytes = Vec::new();
    bytes.extend(rec(RT_BGNSTR, 0x02, &[0; 24]));
    bytes.extend(rec(RT_STRNAME, DT_ASCII, &padded(b"TOP")));
    bytes.extend(boundary(1, 0, &[(0, 0), (1, 0), (1, 1)]));
    bytes.extend(boundary(1, 0, &[(2, 2), (3, 2), (3, 3)]));
    bytes.extend(boundary(2, 5, &[(4, 4), (5, 4), (5, 5)]));
    bytes.extend(rec(RT_ENDSTR, 0, &[]));
    bytes.extend(rec(RT_ENDLIB, 0, &[]));
    let s = read_gds_summary(&bytes).unwrap();
    let c = &s.cells[0];
    assert_eq!(c.total_polys, 3);
    assert_eq!(count_for(c, 1, 0), Some(2));
    assert_eq!(count_for(c, 2, 5), Some(1));
    let sum: usize = c.layer_poly_counts.iter().map(|e| e.count).sum();
    assert_eq!(c.total_polys, sum);
    assert_eq!(c.bbox.unwrap(), BBox { xmin: 0, ymin: 0, xmax: 5, ymax: 5 });
}

#[test]
fn absent_layer_and_datatype_default_to_zero() {
    let mut bytes = Vec::new();
    bytes.extend(rec(RT_BGNSTR, 0x02, &[0; 24]));
    bytes.extend(rec(RT_STRNAME, DT_ASCII, &padded(b"TOP")));
    bytes.extend(rec(RT_BOUNDARY, 0, &[]));
    bytes.extend(rec(RT_XY, DT_INT4, &xy_payload(&[(1, 2), (3, 4)])));
    bytes.extend(rec(RT_ENDEL, 0, &[]));
    bytes.extend(rec(RT_ENDSTR, 0, &[]));
    bytes.extend(rec(RT_ENDLIB, 0, &[]));
    let s = read_gds_summary(&bytes).unwrap();
    let c = &s.cells[0];
    assert_eq!(c.total_polys, 1);
    assert_eq!(count_for(c, 0, 0), Some(1));
    assert_eq!(c.bbox.unwrap(), BBox { xmin: 1, ymin: 2, xmax: 3, ymax: 4 });
}

#[test]
fn element_without_coordinates_still_counts() {
    let mut bytes = Vec::new();
    bytes.extend(rec(RT_BGNSTR, 0x02, &[0; 24]));
    bytes.extend(rec(RT_STRNAME, DT_ASCII, &padded(b"TOP")));
    bytes.extend(rec(RT_BOUNDARY, 0, &[]));
    bytes.extend(rec(RT_LAYER, DT_INT2, &7u16.to_be_bytes()));
    bytes.extend(rec(RT_ENDEL, 0, &[]));
    bytes.extend(rec(RT_ENDSTR, 0, &[]));
    bytes.extend(rec(RT_ENDLIB, 0, &[]));
    let s = read_gds_summary(&bytes).unwrap();
    let c = &s.cells[0];
    assert_eq!(c.total_polys, 1);
    assert_eq!(count_for(c, 7, 0), Some(1));
    assert!(c.bbox.is_none());
}

#[test]
fn odd_coordinate_payload_is_ignored() {
    let mut bytes = Vec::new();
    bytes.extend(rec(RT_BGNSTR, 0x02, &[0; 24]));
    bytes.extend(rec(RT_STRNAME, DT_ASCII, &padded(b"TOP")));
    bytes.extend(rec(RT_BOUNDARY, 0, &[]));
    bytes.extend(rec(RT_XY, DT_INT4, &[1, 2, 3])); // not a multiple of 8 bytes
    bytes.extend(rec(RT_ENDEL, 0, &[]));
    bytes.extend(rec(RT_ENDSTR, 0, &[]));
    bytes.extend(rec(RT_ENDLIB, 0, &[]));
    let s = read_gds_summary(&bytes).unwrap();
    let c = &s.cells[0];
    assert_eq!(c.total_polys, 1);
    assert!(c.bbox.is_none());
}

#[test]
fn unnamed_cell_is_discarded() {
    let mut bytes = Vec::new();
    bytes.extend(rec(RT_BGNSTR, 0x02, &[0; 24]));
    bytes.extend(boundary(1, 0, &[(0, 0), (1, 1)]));
    bytes.extend(rec(RT_ENDSTR, 0, &[]));
    bytes.extend(rec(RT_ENDLIB, 0, &[]));
    let s = read_gds_summary(&bytes).unwrap();
    assert!(s.cells.is_empty());
    assert!(s.libname.is_none());
}

#[test]
fn negative_coordinates_make_negative_bbox() {
    let mut bytes = Vec::new();
    bytes.extend(rec(RT_BGNSTR, 0x02, &[0; 24]));
    bytes.extend(rec(RT_STRNAME, DT_ASCII, &padded(b"NEG")));
    bytes.extend(boundary(1, 0, &[(-7, -3), (5, -3), (5, 2), (-7, 2)]));
    bytes.extend(rec(RT_ENDSTR, 0, &[]));
    bytes.extend(rec(RT_ENDLIB, 0, &[]));
    let s = read_gds_summary(&bytes).unwrap();
    let c = &s.cells[0];
    assert_eq!(c.bbox.unwrap(), BBox { xmin: -7, ymin: -3, xmax: 5, ymax: 2 });
}

#[test]
fn closing_duplicate_does_not_change_bbox() {
    let closed = [(0, 0), (10, 0), (10, 5), (0, 5), (0, 0)];
    let open_ring = [(0, 0), (10, 0), (10, 5), (0, 5)];
    let mut streams = Vec::new();
    for pts in [&closed[..], &open_ring[..]] {
        let mut bytes = Vec::new();
        bytes.extend(rec(RT_BGNSTR, 0x02, &[0; 24]));
        bytes.extend(rec(RT_STRNAME, DT_ASCII, &padded(b"TOP")));
        bytes.extend(boundary(1, 0, pts));
        bytes.extend(rec(RT_ENDSTR, 0, &[]));
        bytes.extend(rec(RT_ENDLIB, 0, &[]));
        streams.push(bytes);
    }
    let a = read_gds_summary(&streams[0]).unwrap();
    let b = read_gds_summary(&streams[1]).unwrap();
    assert_eq!(a.cells[0].bbox.unwrap(), b.cells[0].bbox.unwrap());
    assert_eq!(a.cells[0].bbox.unwrap(), BBox { xmin: 0, ymin: 0, xmax: 10, ymax: 5 });
}

#[test]
fn bbox_union_grows_monotonically() {
    let mut bb = BBox { xmin: 0, ymin: 0, xmax: 4, ymax: 4 };
    let before = bb;
    bb.include_bbox(&BBox { xmin: 2, ymin: -1, xmax: 3, ymax: 9 });
    assert!(bb.xmin <= before.xmin && bb.ymin <= before.ymin);
    assert!(bb.xmax >= before.xmax && bb.ymax >= before.ymax);
    assert_eq!(bb, BBox { xmin: 0, ymin: -1, xmax: 4, ymax: 9 });
    assert!(bb.is_valid());

    let mut empty = BBox { xmin: i32::MAX, ymin: i32::MAX, xmax: i32::MIN, ymax: i32::MIN };
    assert!(!empty.is_valid());
    empty.include_pt(3, -2);
    assert_eq!(empty, BBox { xmin: 3, ymin: -2, xmax: 3, ymax: -2 });
    assert!(empty.is_valid());
}
