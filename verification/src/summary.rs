//! The summary pass: per-cell bounding box and per-layer shape counts.
//!
//! A two-level state machine walks the record stream.  The outer level
//! tracks the current structure and its accumulating summary; the inner
//! level tracks the current boundary element and its scratch state (layer,
//! datatype, element bounding box).  A boundary element's attributes
//! default to zero when absent; a structure whose name decodes to the empty
//! string is discarded when it ends.

use vstd::prelude::*;
use crate::bbox::{BBox, bbox_include_bbox, bbox_valid};
use crate::geometry::{bbox_of_points, parse_xy_points, xy_bbox};
use crate::records::{
    DT_ASCII, DT_INT2, DT_INT4, FrameOut, IoError, RT_BGNSTR, RT_BOUNDARY, RT_DATATYPE, RT_ENDEL,
    RT_ENDLIB, RT_ENDSTR, RT_LAYER, RT_LIBNAME, RT_STRNAME, RT_XY, RecModel, be16,
    ends_with_endlib, frame_record, lemma_endlib_ignores_suffix, records_from, spec_be16,
    spec_records,
};
use crate::text::{name_of, trim_gds_ascii};

verus! {

/// One shape-count entry, keyed by a (layer, datatype) pair.
pub struct LayerCount {
    pub layer: u16,
    pub datatype: u16,
    pub count: usize,
}

/// The mathematical value of a count entry.
pub struct CountModel {
    pub layer: u16,
    pub datatype: u16,
    pub count: int,
}

impl View for LayerCount {
    type V = CountModel;

    open spec fn view(&self) -> CountModel {
        CountModel { layer: self.layer, datatype: self.datatype, count: self.count as int }
    }
}

impl DeepView for LayerCount {
    type V = CountModel;

    open spec fn deep_view(&self) -> CountModel {
        self.view()
    }
}

/// The summary of one cell: its name, the union of its elements' bounding
/// boxes (absent when it held no boundary element), its per-(layer,
/// datatype) shape counts, and the total shape count.
pub struct CellSummary {
    pub name: String,
    pub bbox: Option<BBox>,
    pub layer_poly_counts: Vec<LayerCount>,
    pub total_polys: usize,
}

/// The mathematical value of a cell summary.
pub struct CellModel {
    pub name: Seq<char>,
    pub bbox: Option<BBox>,
    pub counts: Seq<CountModel>,
    pub total: int,
}

impl View for CellSummary {
    type V = CellModel;

    open spec fn view(&self) -> CellModel {
        CellModel {
            name: self.name@,
            bbox: self.bbox,
            counts: self.layer_poly_counts.deep_view(),
            total: self.total_polys as int,
        }
    }
}

impl DeepView for CellSummary {
    type V = CellModel;

    open spec fn deep_view(&self) -> CellModel {
        self.view()
    }
}

/// The summary of a whole stream: the library name, if any, and the cells
/// in stream order.
pub struct GdsSummary {
    pub libname: Option<String>,
    pub cells: Vec<CellSummary>,
}

/// The mathematical value of a stream summary.
pub struct SummaryModel {
    pub libname: Option<Seq<char>>,
    pub cells: Seq<CellModel>,
}

impl View for GdsSummary {
    type V = SummaryModel;

    open spec fn view(&self) -> SummaryModel {
        SummaryModel { libname: self.libname.deep_view(), cells: self.cells.deep_view() }
    }
}

/// The state of the summary scan between two records.
pub struct SummaryState {
    pub libname: Option<Seq<char>>,
    pub cells: Seq<CellModel>,
    pub in_struct: bool,
    pub cur: Option<CellModel>,
    pub in_boundary: bool,
    pub cur_layer: Option<u16>,
    pub cur_dtype: Option<u16>,
    pub cur_bbox: Option<BBox>,
}

/// The state before the first record.
pub open spec fn summary_init() -> SummaryState {
    SummaryState {
        libname: None,
        cells: Seq::empty(),
        in_struct: false,
        cur: None,
        in_boundary: false,
        cur_layer: None,
        cur_dtype: None,
        cur_bbox: None,
    }
}

/// A fresh cell accumulator.
pub open spec fn empty_cell() -> CellModel {
    CellModel { name: Seq::empty(), bbox: None, counts: Seq::empty(), total: 0 }
}

/// The counts after one more shape with key `(lay, dt)`: the first entry
/// with that key is incremented, or a fresh entry with count one is
/// appended.
pub open spec fn bump_counts(s: Seq<CountModel>, lay: u16, dt: u16) -> Seq<CountModel>
    decreases s.len(),
{
    if s.len() == 0 {
        seq![CountModel { layer: lay, datatype: dt, count: 1 }]
    } else if s[0].layer == lay && s[0].datatype == dt {
        seq![CountModel { layer: lay, datatype: dt, count: s[0].count + 1 }] + s.drop_first()
    } else {
        seq![s[0]] + bump_counts(s.drop_first(), lay, dt)
    }
}

/// The effect of one record on the summary scan.
pub open spec fn summary_step(st: SummaryState, r: RecModel) -> SummaryState {
    if r.rectype == RT_LIBNAME && r.dtype == DT_ASCII {
        if st.libname is None {
            SummaryState { libname: Some(name_of(r.payload)), ..st }
        } else {
            st
        }
    } else if r.rectype == RT_BGNSTR {
        SummaryState { in_struct: true, cur: Some(empty_cell()), ..st }
    } else if r.rectype == RT_STRNAME && st.in_struct && r.dtype == DT_ASCII {
        match st.cur {
            Some(c) => SummaryState {
                cur: Some(CellModel { name: name_of(r.payload), ..c }),
                ..st
            },
            None => st,
        }
    } else if r.rectype == RT_BOUNDARY {
        SummaryState { in_boundary: true, cur_layer: None, cur_dtype: None, cur_bbox: None, ..st }
    } else if r.rectype == RT_LAYER && st.in_boundary && r.dtype == DT_INT2 {
        if r.payload.len() >= 2 {
            SummaryState { cur_layer: Some(spec_be16(r.payload[0], r.payload[1]) as u16), ..st }
        } else {
            st
        }
    } else if r.rectype == RT_DATATYPE && st.in_boundary && r.dtype == DT_INT2 {
        if r.payload.len() >= 2 {
            SummaryState { cur_dtype: Some(spec_be16(r.payload[0], r.payload[1]) as u16), ..st }
        } else {
            st
        }
    } else if r.rectype == RT_XY && st.in_boundary && r.dtype == DT_INT4 {
        if r.payload.len() % 8 == 0 && r.payload.len() > 0 {
            let bb = xy_bbox(r.payload);
            if bbox_valid(bb) {
                SummaryState { cur_bbox: Some(bb), ..st }
            } else {
                st
            }
        } else {
            st
        }
    } else if r.rectype == RT_ENDEL && st.in_boundary {
        let st1 = match st.cur {
            Some(c) => {
                let lay = match st.cur_layer { Some(l) => l, None => 0u16 };
                let dt = match st.cur_dtype { Some(d) => d, None => 0u16 };
                let merged = match st.cur_bbox {
                    Some(pb) => match c.bbox {
                        Some(cb) => Some(bbox_include_bbox(cb, pb)),
                        None => Some(pb),
                    },
                    None => c.bbox,
                };
                SummaryState {
                    cur: Some(CellModel {
                        name: c.name,
                        bbox: merged,
                        counts: bump_counts(c.counts, lay, dt),
                        total: c.total + 1,
                    }),
                    ..st
                }
            },
            None => st,
        };
        SummaryState { in_boundary: false, cur_layer: None, cur_dtype: None, cur_bbox: None, ..st1 }
    } else if r.rectype == RT_ENDSTR {
        let st1 = match st.cur {
            Some(c) => if c.name.len() > 0 {
                SummaryState { cells: st.cells.push(c), ..st }
            } else {
                st
            },
            None => st,
        };
        SummaryState { in_struct: false, cur: None, ..st1 }
    } else {
        st
    }
}

/// The summary scan folded over a record sequence.
pub open spec fn summary_run(recs: Seq<RecModel>, st: SummaryState) -> SummaryState
    decreases recs.len(),
{
    if recs.len() == 0 {
        st
    } else {
        summary_run(recs.drop_first(), summary_step(st, recs[0]))
    }
}

/// The summary of a whole stream, or its framing error.
pub open spec fn spec_summary(data: Seq<u8>) -> Result<SummaryModel, IoError> {
    match spec_records(data) {
        Ok(recs) => {
            let fin = summary_run(recs, summary_init());
            Ok(SummaryModel { libname: fin.libname, cells: fin.cells })
        },
        Err(e) => Err(e),
    }
}

/// Folding one more record on the right applies one more step.
pub proof fn lemma_summary_run_push(recs: Seq<RecModel>, r: RecModel, st: SummaryState)
    ensures
        summary_run(recs.push(r), st) == summary_step(summary_run(recs, st), r),
    decreases recs.len(),
{
    if recs.len() == 0 {
        assert(recs.push(r)[0] == r);
        assert(recs.push(r).drop_first() =~= Seq::<RecModel>::empty());
        assert(summary_run(Seq::<RecModel>::empty(), summary_step(st, r)) == summary_step(st, r));
    } else {
        assert(recs.push(r)[0] == recs[0]);
        assert(recs.push(r).drop_first() =~= recs.drop_first().push(r));
        lemma_summary_run_push(recs.drop_first(), r, summary_step(st, recs[0]));
        assert(summary_run(recs.push(r), st) == summary_run(
            recs.drop_first().push(r),
            summary_step(st, recs[0]),
        ));
    }
}

/// A well-formed stream terminated by a library-end record yields the
/// same summary whatever bytes follow that record: the scan never reads
/// past it.
pub proof fn lemma_summary_ignores_suffix(data: Seq<u8>, extra: Seq<u8>)
    requires
        ends_with_endlib(data, 0),
    ensures
        spec_summary(data + extra) == spec_summary(data),
{
    lemma_endlib_ignores_suffix(data, extra, 0);
}

/// The sum of all count entries.
pub open spec fn sum_counts(s: Seq<CountModel>) -> int
    decreases s.len(),
{
    if s.len() == 0 {
        0
    } else {
        s[0].count + sum_counts(s.drop_first())
    }
}

/// Does some entry carry the key `(lay, dt)`?
pub open spec fn has_key(s: Seq<CountModel>, lay: u16, dt: u16) -> bool {
    exists|j: int| 0 <= j < s.len() && s[j].layer == lay && s[j].datatype == dt
}

/// Every entry counts at least one shape, and no key repeats.
pub open spec fn counts_wf(s: Seq<CountModel>) -> bool {
    &&& forall|i: int| 0 <= i < s.len() ==> #[trigger] s[i].count >= 1
    &&& forall|i: int, j: int|
        0 <= i < j < s.len() ==> !(s[i].layer == s[j].layer && s[i].datatype == s[j].datatype)
}

/// A cell summary is consistent: its total shape count is the sum of its
/// per-key counts, and its count table is well formed.
pub open spec fn cell_wf(c: CellModel) -> bool {
    c.total == sum_counts(c.counts) && counts_wf(c.counts)
}

/// Incrementing a key keeps the counts well formed, raises the sum by one,
/// and introduces no key but `(lay, dt)`.
pub proof fn lemma_bump_props(s: Seq<CountModel>, lay: u16, dt: u16)
    requires
        counts_wf(s),
    ensures
        counts_wf(bump_counts(s, lay, dt)),
        sum_counts(bump_counts(s, lay, dt)) == sum_counts(s) + 1,
        forall|i: int|
            0 <= i < bump_counts(s, lay, dt).len() ==> (has_key(
                s,
                #[trigger] bump_counts(s, lay, dt)[i].layer,
                bump_counts(s, lay, dt)[i].datatype,
            ) || (bump_counts(s, lay, dt)[i].layer == lay && bump_counts(s, lay, dt)[i].datatype
                == dt)),
    decreases s.len(),
{
    let b = bump_counts(s, lay, dt);
    if s.len() == 0 {
        assert(b =~= seq![CountModel { layer: lay, datatype: dt, count: 1 }]);
        assert(b.drop_first() =~= Seq::<CountModel>::empty());
        assert(sum_counts(Seq::<CountModel>::empty()) == 0);
        assert(sum_counts(b) == b[0].count + sum_counts(b.drop_first()));
    } else if s[0].layer == lay && s[0].datatype == dt {
        assert(b.drop_first() =~= s.drop_first());
        assert(b[0] == CountModel { layer: lay, datatype: dt, count: s[0].count + 1 });
        assert(sum_counts(b) == b[0].count + sum_counts(b.drop_first()));
        assert(forall|i: int| 0 <= i < s.drop_first().len() ==> s.drop_first()[i] == s[i + 1]);
    } else {
        assert(forall|i: int| 0 <= i < s.drop_first().len() ==> s.drop_first()[i] == s[i + 1]);
        lemma_bump_props(s.drop_first(), lay, dt);
        let t = bump_counts(s.drop_first(), lay, dt);
        assert(b == seq![s[0]] + t);
        assert(b[0] == s[0]);
        assert(b.drop_first() =~= t);
        assert(sum_counts(b) == b[0].count + sum_counts(b.drop_first()));
        assert(forall|i: int| 0 <= i < t.len() ==> b[i + 1] == t[i]);
        // no repeated keys: s[0]'s key is absent from the tail and differs
        // from (lay, dt), and the tail introduced no other key
        assert forall|i: int, j: int|
            0 <= i < j < b.len() implies !(b[i].layer == b[j].layer && b[i].datatype
            == b[j].datatype) by {
            if i == 0 {
                assert(b[j] == t[j - 1]);
                if has_key(s.drop_first(), b[j].layer, b[j].datatype) {
                    let k = choose|k: int|
                        0 <= k < s.drop_first().len() && s.drop_first()[k].layer == b[j].layer
                            && s.drop_first()[k].datatype == b[j].datatype;
                    assert(s[k + 1] == s.drop_first()[k]);
                }
            } else {
                assert(b[i] == t[i - 1] && b[j] == t[j - 1]);
            }
        }
    }
}

/// The sum of well-formed counts is at least any single entry.
pub proof fn lemma_sum_counts_bound(s: Seq<CountModel>, i: int)
    requires
        forall|k: int| 0 <= k < s.len() ==> #[trigger] s[k].count >= 0,
        0 <= i < s.len(),
    ensures
        s[i].count <= sum_counts(s),
    decreases s.len(),
{
    assert(forall|k: int| 0 <= k < s.drop_first().len() ==> s.drop_first()[k] == s[k + 1]);
    if i == 0 {
        lemma_sum_counts_nonneg(s.drop_first());
    } else {
        lemma_sum_counts_bound(s.drop_first(), i - 1);
    }
}

/// Nonnegative entries sum to a nonnegative total.
pub proof fn lemma_sum_counts_nonneg(s: Seq<CountModel>)
    requires
        forall|k: int| 0 <= k < s.len() ==> #[trigger] s[k].count >= 0,
    ensures
        sum_counts(s) >= 0,
    decreases s.len(),
{
    if s.len() > 0 {
        assert(forall|k: int| 0 <= k < s.drop_first().len() ==> s.drop_first()[k] == s[k + 1]);
        lemma_sum_counts_nonneg(s.drop_first());
    }
}

/// `bump_counts` updates in place when the key is already present at `i`.
pub proof fn lemma_bump_is_update(s: Seq<CountModel>, lay: u16, dt: u16, i: int)
    requires
        0 <= i < s.len(),
        s[i].layer == lay && s[i].datatype == dt,
        forall|j: int| 0 <= j < i ==> !(#[trigger] s[j].layer == lay && s[j].datatype == dt),
    ensures
        bump_counts(s, lay, dt) == s.update(
            i,
            CountModel { layer: lay, datatype: dt, count: s[i].count + 1 },
        ),
    decreases s.len(),
{
    if i == 0 {
        assert(bump_counts(s, lay, dt) =~= s.update(
            0,
            CountModel { layer: lay, datatype: dt, count: s[0].count + 1 },
        ));
    } else {
        assert(forall|k: int| 0 <= k < s.drop_first().len() ==> s.drop_first()[k] == s[k + 1]);
        lemma_bump_is_update(s.drop_first(), lay, dt, i - 1);
        assert(bump_counts(s, lay, dt) =~= s.update(
            i,
            CountModel { layer: lay, datatype: dt, count: s[i].count + 1 },
        ));
    }
}

/// `bump_counts` appends a fresh entry when the key is absent.
pub proof fn lemma_bump_is_push(s: Seq<CountModel>, lay: u16, dt: u16)
    requires
        forall|j: int| 0 <= j < s.len() ==> !(#[trigger] s[j].layer == lay && s[j].datatype == dt),
    ensures
        bump_counts(s, lay, dt) == s.push(CountModel { layer: lay, datatype: dt, count: 1 }),
    decreases s.len(),
{
    if s.len() == 0 {
        assert(bump_counts(s, lay, dt) =~= s.push(
            CountModel { layer: lay, datatype: dt, count: 1 },
        ));
    } else {
        assert(forall|k: int| 0 <= k < s.drop_first().len() ==> s.drop_first()[k] == s[k + 1]);
        lemma_bump_is_push(s.drop_first(), lay, dt);
        assert(bump_counts(s, lay, dt) =~= s.push(
            CountModel { layer: lay, datatype: dt, count: 1 },
        ));
    }
}

/// Increment the count for `(lay, dt)`, appending a fresh entry when the
/// key is new.
fn bump_counts_exec(counts: &mut Vec<LayerCount>, lay: u16, dt: u16)
    requires
        forall|i: int|
            0 <= i < old(counts)@.len() ==> #[trigger] old(counts)@[i].count < usize::MAX,
    ensures
        final(counts).deep_view() == bump_counts(old(counts).deep_view(), lay, dt),
{
    let ghost s = old(counts).deep_view();
    let mut i: usize = 0;
    while i < counts.len()
        invariant
            i <= counts@.len(),
            *counts == *old(counts),
            s == counts.deep_view(),
            forall|j: int|
                0 <= j < i ==> !(#[trigger] counts@[j].layer == lay && counts@[j].datatype == dt),
            forall|j: int| 0 <= j < counts@.len() ==> #[trigger] counts@[j].count < usize::MAX,
        decreases counts@.len() - i,
    {
        if counts[i].layer == lay && counts[i].datatype == dt {
            let c = counts[i].count;
            counts.set(i, LayerCount { layer: lay, datatype: dt, count: c + 1 });
            proof {
                lemma_bump_is_update(s, lay, dt, i as int);
                assert(counts.deep_view() =~= s.update(
                    i as int,
                    CountModel { layer: lay, datatype: dt, count: s[i as int].count + 1 },
                ));
            }
            return ;
        }
        i = i + 1;
    }
    counts.push(LayerCount { layer: lay, datatype: dt, count: 1 });
    proof {
        lemma_bump_is_push(s, lay, dt);
        assert(counts.deep_view() =~= s.push(CountModel { layer: lay, datatype: dt, count: 1 }));
    }
}

/// Decode a stream into its summary: the library name, and one entry per
/// named cell with its bounding box and shape counts.  In every returned
/// cell the total shape count equals the sum of the per-key counts.
pub fn read_gds_summary(data: &[u8]) -> (r: Result<GdsSummary, IoError>)
    ensures
        (match r {
            Ok(s) => {
                &&& spec_summary(data@) == Ok::<SummaryModel, IoError>(s@)
                &&& forall|i: int| 0 <= i < s@.cells.len() ==> cell_wf(#[trigger] s@.cells[i])
            },
            Err(e) => spec_summary(data@) == Err::<SummaryModel, IoError>(e),
        }),
{
    let mut pos: usize = 0;
    let mut libname: Option<String> = None;
    let mut cells: Vec<CellSummary> = Vec::new();
    let mut in_struct: bool = false;
    let mut cur: Option<CellSummary> = None;
    let mut in_boundary: bool = false;
    let mut cur_layer: Option<u16> = None;
    let mut cur_dtype: Option<u16> = None;
    let mut cur_bbox: Option<BBox> = None;
    let ghost mut processed: Seq<RecModel> = Seq::empty();
    proof {
        match records_from(data@, 0) {
            Ok(rest0) => {
                assert(processed + rest0 =~= rest0);
            },
            Err(_) => {},
        }
        assert(cells.deep_view() =~= Seq::<CellModel>::empty());
    }
    loop
        invariant
            pos <= data@.len(),
            (match records_from(data@, pos as int) {
                Ok(rest) => spec_records(data@) == Ok::<Seq<RecModel>, IoError>(processed + rest),
                Err(e) => spec_records(data@) == Err::<Seq<RecModel>, IoError>(e),
            }),
            summary_run(processed, summary_init()) == (SummaryState {
                libname: libname.deep_view(),
                cells: cells.deep_view(),
                in_struct,
                cur: cur.deep_view(),
                in_boundary,
                cur_layer,
                cur_dtype,
                cur_bbox,
            }),
            (match cur.deep_view() {
                Some(c) => cell_wf(c) && 4 * c.total <= pos,
                None => true,
            }),
            forall|i: int|
                0 <= i < cells.deep_view().len() ==> cell_wf(#[trigger] cells.deep_view()[i]),
        decreases data@.len() - pos,
    {
        let ghost st = summary_run(processed, summary_init());
        match frame_record(data, pos) {
            FrameOut::End => {
                proof {
                    assert(processed + Seq::<RecModel>::empty() =~= processed);
                }
                return Ok(GdsSummary { libname, cells });
            },
            FrameOut::Fail(e) => {
                return Err(e);
            },
            FrameOut::Rec { rectype, dtype, payload, next } => {
                let ghost rec = RecModel { rectype, dtype, payload: payload@ };
                if rectype == RT_ENDLIB {
                    proof {
                        assert(records_from(data@, pos as int) == Ok::<Seq<RecModel>, IoError>(
                            seq![rec],
                        ));
                        assert(processed + seq![rec] =~= processed.push(rec));
                        lemma_summary_run_push(processed, rec, summary_init());
                    }
                    return Ok(GdsSummary { libname, cells });
                }
                if rectype == RT_LIBNAME && dtype == DT_ASCII {
                    if libname.is_none() {
                        libname = Some(trim_gds_ascii(payload));
                    }
                } else if rectype == RT_BGNSTR {
                    in_struct = true;
                    let fresh = CellSummary {
                        name: String::new(),
                        bbox: None,
                        layer_poly_counts: Vec::new(),
                        total_polys: 0,
                    };
                    proof {
                        assert(fresh.layer_poly_counts.deep_view() =~= Seq::<CountModel>::empty());
                        assert(fresh.deep_view() == empty_cell());
                        assert(sum_counts(Seq::<CountModel>::empty()) == 0);
                    }
                    cur = Some(fresh);
                } else if rectype == RT_STRNAME && in_struct && dtype == DT_ASCII {
                    match cur.take() {
                        Some(mut c) => {
                            c.name = trim_gds_ascii(payload);
                            cur = Some(c);
                        },
                        None => {},
                    }
                } else if rectype == RT_BOUNDARY {
                    in_boundary = true;
                    cur_layer = None;
                    cur_dtype = None;
                    cur_bbox = None;
                } else if rectype == RT_LAYER && in_boundary && dtype == DT_INT2 {
                    if payload.len() >= 2 {
                        cur_layer = Some(be16(payload[0], payload[1]));
                    }
                } else if rectype == RT_DATATYPE && in_boundary && dtype == DT_INT2 {
                    if payload.len() >= 2 {
                        cur_dtype = Some(be16(payload[0], payload[1]));
                    }
                } else if rectype == RT_XY && in_boundary && dtype == DT_INT4 {
                    if payload.len() % 8 == 0 && payload.len() > 0 {
                        let pts = parse_xy_points(payload);
                        let bb = bbox_of_points(&pts);
                        if bb.is_valid() {
                            cur_bbox = Some(bb);
                        }
                    }
                } else if rectype == RT_ENDEL && in_boundary {
                    match cur.take() {
                        Some(mut c) => {
                            let lay = match cur_layer {
                                Some(l) => l,
                                None => 0,
                            };
                            let dt = match cur_dtype {
                                Some(d) => d,
                                None => 0,
                            };
                            let ghost counts_model = c.layer_poly_counts.deep_view();
                            proof {
                                assert forall|i: int|
                                    0 <= i < c.layer_poly_counts@.len() implies #[trigger] c
                                    .layer_poly_counts@[i].count < usize::MAX by {
                                    assert(counts_model[i].count == c.layer_poly_counts@[i].count);
                                    lemma_sum_counts_bound(counts_model, i);
                                }
                                lemma_bump_props(counts_model, lay, dt);
                            }
                            bump_counts_exec(&mut c.layer_poly_counts, lay, dt);
                            c.total_polys = c.total_polys + 1;
                            match cur_bbox {
                                Some(pb) => {
                                    match c.bbox {
                                        Some(mut cb) => {
                                            cb.include_bbox(&pb);
                                            c.bbox = Some(cb);
                                        },
                                        None => {
                                            c.bbox = Some(pb);
                                        },
                                    }
                                },
                                None => {},
                            }
                            cur = Some(c);
                        },
                        None => {},
                    }
                    in_boundary = false;
                    cur_layer = None;
                    cur_dtype = None;
                    cur_bbox = None;
                } else if rectype == RT_ENDSTR {
                    in_struct = false;
                    match cur.take() {
                        Some(c) => {
                            if !c.name.as_str().is_empty() {
                                let ghost old_cells = cells.deep_view();
                                let ghost cm = c.deep_view();
                                cells.push(c);
                                proof {
                                    assert(cells.deep_view() =~= old_cells.push(cm));
                                }
                            }
                        },
                        None => {},
                    }
                }
                proof {
                    lemma_summary_run_push(processed, rec, summary_init());
                    let tail = records_from(data@, next as int);
                    assert(records_from(data@, pos as int) == (match tail {
                        Ok(rest) => Ok::<Seq<RecModel>, IoError>(seq![rec] + rest),
                        Err(e) => Err::<Seq<RecModel>, IoError>(e),
                    }));
                    if tail is Ok {
                        assert(processed + (seq![rec] + tail.unwrap()) =~= processed.push(rec)
                            + tail.unwrap());
                    }
                    processed = processed.push(rec);
                }
                pos = next;
            },
        }
    }
}

} // verus!
