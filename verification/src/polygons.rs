//! The polygon pass: the full ordered vertex list of every boundary
//! element, grouped per cell.
//!
//! The nesting rules are those of the summary pass, but the element scratch
//! state keeps the whole vertex list instead of reducing it to a bounding
//! box, and absent layer or datatype attributes default to zero.  An
//! element whose vertex list is empty produces no polygon; a structure
//! whose name decodes to the empty string is discarded when it ends.

use vstd::prelude::*;
use crate::geometry::{kept_points, parse_xy_points};
use crate::records::{
    DT_ASCII, DT_INT2, DT_INT4, FrameOut, IoError, RT_BGNSTR, RT_BOUNDARY, RT_DATATYPE, RT_ENDEL,
    RT_ENDLIB, RT_ENDSTR, RT_LAYER, RT_STRNAME, RT_XY, RecModel, be16, ends_with_endlib,
    frame_record, lemma_endlib_ignores_suffix, records_from, spec_be16, spec_records,
};
use crate::text::{name_of, trim_gds_ascii};

verus! {

/// One closed polygon: its shape attributes and its vertices in stream
/// order, the closing duplicate never retained.
pub struct Polygon {
    pub layer: u16,
    pub datatype: u16,
    pub xy: Vec<(i32, i32)>,
}

/// The mathematical value of a polygon.
pub struct PolyModel {
    pub layer: u16,
    pub datatype: u16,
    pub xy: Seq<(i32, i32)>,
}

impl View for Polygon {
    type V = PolyModel;

    open spec fn view(&self) -> PolyModel {
        PolyModel { layer: self.layer, datatype: self.datatype, xy: self.xy@ }
    }
}

impl DeepView for Polygon {
    type V = PolyModel;

    open spec fn deep_view(&self) -> PolyModel {
        self.view()
    }
}

/// The polygons of one cell, in stream order.
pub struct CellPolygons {
    pub name: String,
    pub polys: Vec<Polygon>,
}

/// The mathematical value of a cell's polygon list.
pub struct CellPolyModel {
    pub name: Seq<char>,
    pub polys: Seq<PolyModel>,
}

impl View for CellPolygons {
    type V = CellPolyModel;

    open spec fn view(&self) -> CellPolyModel {
        CellPolyModel { name: self.name@, polys: self.polys.deep_view() }
    }
}

impl DeepView for CellPolygons {
    type V = CellPolyModel;

    open spec fn deep_view(&self) -> CellPolyModel {
        self.view()
    }
}

/// The state of the polygon scan between two records.
pub struct PolyState {
    pub cells: Seq<CellPolyModel>,
    pub in_struct: bool,
    pub cur: Option<CellPolyModel>,
    pub in_boundary: bool,
    pub cur_layer: u16,
    pub cur_dtype: u16,
    pub cur_xy: Seq<(i32, i32)>,
}

/// The state before the first record.
pub open spec fn poly_init() -> PolyState {
    PolyState {
        cells: Seq::empty(),
        in_struct: false,
        cur: None,
        in_boundary: false,
        cur_layer: 0,
        cur_dtype: 0,
        cur_xy: Seq::empty(),
    }
}

/// The effect of one record on the polygon scan.
pub open spec fn poly_step(st: PolyState, r: RecModel) -> PolyState {
    if r.rectype == RT_BGNSTR {
        PolyState {
            in_struct: true,
            cur: Some(CellPolyModel { name: Seq::empty(), polys: Seq::empty() }),
            ..st
        }
    } else if r.rectype == RT_STRNAME && st.in_struct && r.dtype == DT_ASCII {
        match st.cur {
            Some(c) => PolyState {
                cur: Some(CellPolyModel { name: name_of(r.payload), ..c }),
                ..st
            },
            None => st,
        }
    } else if r.rectype == RT_BOUNDARY {
        PolyState { in_boundary: true, cur_layer: 0, cur_dtype: 0, cur_xy: Seq::empty(), ..st }
    } else if r.rectype == RT_LAYER && st.in_boundary && r.dtype == DT_INT2 {
        if r.payload.len() >= 2 {
            PolyState { cur_layer: spec_be16(r.payload[0], r.payload[1]) as u16, ..st }
        } else {
            st
        }
    } else if r.rectype == RT_DATATYPE && st.in_boundary && r.dtype == DT_INT2 {
        if r.payload.len() >= 2 {
            PolyState { cur_dtype: spec_be16(r.payload[0], r.payload[1]) as u16, ..st }
        } else {
            st
        }
    } else if r.rectype == RT_XY && st.in_boundary && r.dtype == DT_INT4 {
        if r.payload.len() % 8 == 0 {
            PolyState { cur_xy: kept_points(r.payload), ..st }
        } else {
            st
        }
    } else if r.rectype == RT_ENDEL && st.in_boundary {
        let st1 = match st.cur {
            Some(c) => if st.cur_xy.len() > 0 {
                PolyState {
                    cur: Some(CellPolyModel {
                        name: c.name,
                        polys: c.polys.push(
                            PolyModel {
                                layer: st.cur_layer,
                                datatype: st.cur_dtype,
                                xy: st.cur_xy,
                            },
                        ),
                    }),
                    ..st
                }
            } else {
                st
            },
            None => st,
        };
        PolyState { in_boundary: false, cur_xy: Seq::empty(), ..st1 }
    } else if r.rectype == RT_ENDSTR {
        let st1 = match st.cur {
            Some(c) => if c.name.len() > 0 {
                PolyState { cells: st.cells.push(c), ..st }
            } else {
                st
            },
            None => st,
        };
        PolyState { in_struct: false, cur: None, ..st1 }
    } else {
        st
    }
}

/// The polygon scan folded over a record sequence.
pub open spec fn poly_run(recs: Seq<RecModel>, st: PolyState) -> PolyState
    decreases recs.len(),
{
    if recs.len() == 0 {
        st
    } else {
        poly_run(recs.drop_first(), poly_step(st, recs[0]))
    }
}

/// The per-cell polygons of a whole stream, or its framing error.
pub open spec fn spec_polygons(data: Seq<u8>) -> Result<Seq<CellPolyModel>, IoError> {
    match spec_records(data) {
        Ok(recs) => Ok(poly_run(recs, poly_init()).cells),
        Err(e) => Err(e),
    }
}

/// Folding one more record on the right applies one more step.
pub proof fn lemma_poly_run_push(recs: Seq<RecModel>, r: RecModel, st: PolyState)
    ensures
        poly_run(recs.push(r), st) == poly_step(poly_run(recs, st), r),
    decreases recs.len(),
{
    if recs.len() == 0 {
        assert(recs.push(r)[0] == r);
        assert(recs.push(r).drop_first() =~= Seq::<RecModel>::empty());
        assert(poly_run(Seq::<RecModel>::empty(), poly_step(st, r)) == poly_step(st, r));
    } else {
        assert(recs.push(r)[0] == recs[0]);
        assert(recs.push(r).drop_first() =~= recs.drop_first().push(r));
        lemma_poly_run_push(recs.drop_first(), r, poly_step(st, recs[0]));
        assert(poly_run(recs.push(r), st) == poly_run(
            recs.drop_first().push(r),
            poly_step(st, recs[0]),
        ));
    }
}

/// A well-formed stream terminated by a library-end record yields the
/// same polygons whatever bytes follow that record: the scan never reads
/// past it.
pub proof fn lemma_polygons_ignore_suffix(data: Seq<u8>, extra: Seq<u8>)
    requires
        ends_with_endlib(data, 0),
    ensures
        spec_polygons(data + extra) == spec_polygons(data),
{
    lemma_endlib_ignores_suffix(data, extra, 0);
}

/// Decode a stream into its per-cell polygons, cells in stream order.
pub fn read_gds_polygons(data: &[u8]) -> (r: Result<Vec<CellPolygons>, IoError>)
    ensures
        (match r {
            Ok(v) => spec_polygons(data@) == Ok::<Seq<CellPolyModel>, IoError>(v.deep_view()),
            Err(e) => spec_polygons(data@) == Err::<Seq<CellPolyModel>, IoError>(e),
        }),
{
    let mut pos: usize = 0;
    let mut out: Vec<CellPolygons> = Vec::new();
    let mut in_struct: bool = false;
    let mut cur: Option<CellPolygons> = None;
    let mut in_boundary: bool = false;
    let mut cur_layer: u16 = 0;
    let mut cur_dtype: u16 = 0;
    let mut cur_xy: Vec<(i32, i32)> = Vec::new();
    let ghost mut processed: Seq<RecModel> = Seq::empty();
    proof {
        match records_from(data@, 0) {
            Ok(rest0) => {
                assert(processed + rest0 =~= rest0);
            },
            Err(_) => {},
        }
        assert(out.deep_view() =~= Seq::<CellPolyModel>::empty());
    }
    loop
        invariant
            pos <= data@.len(),
            (match records_from(data@, pos as int) {
                Ok(rest) => spec_records(data@) == Ok::<Seq<RecModel>, IoError>(processed + rest),
                Err(e) => spec_records(data@) == Err::<Seq<RecModel>, IoError>(e),
            }),
            poly_run(processed, poly_init()) == (PolyState {
                cells: out.deep_view(),
                in_struct,
                cur: cur.deep_view(),
                in_boundary,
                cur_layer,
                cur_dtype,
                cur_xy: cur_xy@,
            }),
        decreases data@.len() - pos,
    {
        match frame_record(data, pos) {
            FrameOut::End => {
                proof {
                    assert(processed + Seq::<RecModel>::empty() =~= processed);
                }
                return Ok(out);
            },
            FrameOut::Fail(e) => {
                return Err(e);
            },
            FrameOut::Rec { rectype, dtype, payload, next } => {
                let ghost rec = RecModel { rectype, dtype, payload: payload@ };
                if rectype == RT_ENDLIB {
                    proof {
                        assert(records_from(data@, pos as int) == Ok::<Seq<RecModel>, IoError>(
                            seq![rec],
                        ));
                        assert(processed + seq![rec] =~= processed.push(rec));
                        lemma_poly_run_push(processed, rec, poly_init());
                    }
                    return Ok(out);
                }
                if rectype == RT_BGNSTR {
                    in_struct = true;
                    let fresh = CellPolygons { name: String::new(), polys: Vec::new() };
                    proof {
                        assert(fresh.polys.deep_view() =~= Seq::<PolyModel>::empty());
                        assert(fresh.deep_view() == (CellPolyModel {
                            name: Seq::empty(),
                            polys: Seq::empty(),
                        }));
                    }
                    cur = Some(fresh);
                } else if rectype == RT_STRNAME && in_struct && dtype == DT_ASCII {
                    match cur.take() {
                        Some(mut c) => {
                            c.name = trim_gds_ascii(payload);
                            cur = Some(c);
                        },
                        None => {},
                    }
                } else if rectype == RT_BOUNDARY {
                    in_boundary = true;
                    cur_layer = 0;
                    cur_dtype = 0;
                    cur_xy = Vec::new();
                } else if rectype == RT_LAYER && in_boundary && dtype == DT_INT2 {
                    if payload.len() >= 2 {
                        cur_layer = be16(payload[0], payload[1]);
                    }
                } else if rectype == RT_DATATYPE && in_boundary && dtype == DT_INT2 {
                    if payload.len() >= 2 {
                        cur_dtype = be16(payload[0], payload[1]);
                    }
                } else if rectype == RT_XY && in_boundary && dtype == DT_INT4 {
                    if payload.len() % 8 == 0 {
                        cur_xy = parse_xy_points(payload);
                    }
                } else if rectype == RT_ENDEL && in_boundary {
                    let xy_taken = cur_xy;
                    cur_xy = Vec::new();
                    match cur.take() {
                        Some(mut c) => {
                            if xy_taken.len() > 0 {
                                let ghost old_polys = c.polys.deep_view();
                                let ghost pm = PolyModel {
                                    layer: cur_layer,
                                    datatype: cur_dtype,
                                    xy: xy_taken@,
                                };
                                c.polys.push(
                                    Polygon { layer: cur_layer, datatype: cur_dtype, xy: xy_taken },
                                );
                                proof {
                                    assert(c.polys.deep_view() =~= old_polys.push(pm));
                                }
                            }
                            cur = Some(c);
                        },
                        None => {},
                    }
                    in_boundary = false;
                } else if rectype == RT_ENDSTR {
                    in_struct = false;
                    match cur.take() {
                        Some(c) => {
                            if !c.name.as_str().is_empty() {
                                let ghost old_cells = out.deep_view();
                                let ghost cm = c.deep_view();
                                out.push(c);
                                proof {
                                    assert(out.deep_view() =~= old_cells.push(cm));
                                }
                            }
                        },
                        None => {},
                    }
                }
                proof {
                    lemma_poly_run_push(processed, rec, poly_init());
                    let tail = records_from(data@, next as int);
                    assert(records_from(data@, pos as int) == (match tail {
                        Ok(rest) => Ok::<Seq<RecModel>, IoError>(seq![rec] + rest),
                        Err(e) => Err::<Seq<RecModel>, IoError>(e),
                    }));
                    if tail is Ok {
                        assert(processed + (seq![rec] + tail.unwrap()) =~= processed.push(rec)
                            + tail.unwrap());
                    }
                    processed = processed.push(rec);
                }
                pos = next;
            },
        }
    }
}

} // verus!
