//! The cheapest pass over a stream: collecting structure (cell) names.
//!
//! A boolean tracks whether the scan is inside a structure.  A
//! structure-name record is honored only inside a structure and only with
//! the text datatype; a name that decodes to the empty string is dropped.
//! The scan stops at the first library-end record; reaching the end of the
//! input without one is not an error.

use vstd::prelude::*;
use crate::records::{
    DT_ASCII, FrameOut, IoError, RT_BGNSTR, RT_ENDLIB, RT_ENDSTR, RT_STRNAME, RecModel,
    ends_with_endlib, frame_record, lemma_endlib_ignores_suffix, records_from, spec_records,
};
use crate::text::{name_of, trim_gds_ascii};

verus! {

/// The state of the name scan: the nesting flag and the names collected.
pub struct NamesState {
    pub in_struct: bool,
    pub names: Seq<Seq<char>>,
}

/// The state before the first record.
pub open spec fn names_init() -> NamesState {
    NamesState { in_struct: false, names: Seq::empty() }
}

/// The effect of one record on the name scan.
pub open spec fn names_step(st: NamesState, r: RecModel) -> NamesState {
    if r.rectype == RT_BGNSTR {
        NamesState { in_struct: true, ..st }
    } else if r.rectype == RT_STRNAME && st.in_struct && r.dtype == DT_ASCII {
        if name_of(r.payload).len() > 0 {
            NamesState { names: st.names.push(name_of(r.payload)), ..st }
        } else {
            st
        }
    } else if r.rectype == RT_ENDSTR {
        NamesState { in_struct: false, ..st }
    } else {
        st
    }
}

/// The name scan folded over a record sequence.
pub open spec fn names_run(recs: Seq<RecModel>, st: NamesState) -> NamesState
    decreases recs.len(),
{
    if recs.len() == 0 {
        st
    } else {
        names_run(recs.drop_first(), names_step(st, recs[0]))
    }
}

/// The cell names of a whole stream, or its framing error.
pub open spec fn spec_cell_names(data: Seq<u8>) -> Result<Seq<Seq<char>>, IoError> {
    match spec_records(data) {
        Ok(recs) => Ok(names_run(recs, names_init()).names),
        Err(e) => Err(e),
    }
}

/// Folding one more record on the right applies one more step.
pub proof fn lemma_names_run_push(recs: Seq<RecModel>, r: RecModel, st: NamesState)
    ensures
        names_run(recs.push(r), st) == names_step(names_run(recs, st), r),
    decreases recs.len(),
{
    if recs.len() == 0 {
        assert(recs.push(r)[0] == r);
        assert(recs.push(r).drop_first() =~= Seq::<RecModel>::empty());
        assert(names_run(Seq::<RecModel>::empty(), names_step(st, r)) == names_step(st, r));
    } else {
        assert(recs.push(r)[0] == recs[0]);
        assert(recs.push(r).drop_first() =~= recs.drop_first().push(r));
        lemma_names_run_push(recs.drop_first(), r, names_step(st, recs[0]));
        assert(names_run(recs.push(r), st) == names_run(
            recs.drop_first().push(r),
            names_step(st, recs[0]),
        ));
    }
}

/// A well-formed stream terminated by a library-end record yields the
/// same names whatever bytes follow that record: the scan never reads
/// past it.
pub proof fn lemma_cell_names_ignore_suffix(data: Seq<u8>, extra: Seq<u8>)
    requires
        ends_with_endlib(data, 0),
    ensures
        spec_cell_names(data + extra) == spec_cell_names(data),
{
    lemma_endlib_ignores_suffix(data, extra, 0);
}

/// Is position `i` of the record list strictly between a structure-begin
/// record and the next structure-end record?
pub open spec fn inside_struct_at(recs: Seq<RecModel>, i: int) -> bool {
    exists|j: int|
        0 <= j < i && (#[trigger] recs[j].rectype) == RT_BGNSTR && (forall|k: int|
            j < k < i ==> (#[trigger] recs[k].rectype) != RT_ENDSTR)
}

/// Is record `i` a structure-name record that the name scan honors, whose
/// name decodes nonempty?
pub open spec fn honored_name_at(recs: Seq<RecModel>, i: int) -> bool {
    &&& 0 <= i < recs.len()
    &&& recs[i].rectype == RT_STRNAME
    &&& recs[i].dtype == DT_ASCII
    &&& inside_struct_at(recs, i)
    &&& name_of(recs[i].payload).len() > 0
}

/// After the first `i` records, the scan is inside a structure exactly
/// when position `i` lies between a structure-begin and the next
/// structure-end, and the collected names are exactly those of the
/// honored structure-name records so far.
proof fn lemma_names_prefix(recs: Seq<RecModel>, i: int)
    requires
        0 <= i <= recs.len(),
    ensures
        names_run(recs.take(i), names_init()).in_struct == inside_struct_at(recs, i),
        forall|n: Seq<char>|
            names_run(recs.take(i), names_init()).names.contains(n) <==> exists|j: int|
                0 <= j < i && #[trigger] honored_name_at(recs, j) && name_of(recs[j].payload) == n,
    decreases i,
{
    if i == 0 {
        assert(recs.take(0) =~= Seq::<RecModel>::empty());
        assert(names_run(recs.take(0), names_init()) == names_init());
        assert(forall|n: Seq<char>| !Seq::<Seq<char>>::empty().contains(n));
    } else {
        lemma_names_prefix(recs, i - 1);
        let pre = names_run(recs.take(i - 1), names_init());
        let r = recs[i - 1];
        assert(recs.take(i) =~= recs.take(i - 1).push(r));
        lemma_names_run_push(recs.take(i - 1), r, names_init());
        let post = names_run(recs.take(i), names_init());
        assert(post == names_step(pre, r));
        if r.rectype == RT_BGNSTR {
            assert(0 <= i - 1 < i && recs[i - 1].rectype == RT_BGNSTR && (forall|k: int|
                i - 1 < k < i ==> recs[k].rectype != RT_ENDSTR));
            assert(inside_struct_at(recs, i));
        } else if r.rectype == RT_ENDSTR {
            if inside_struct_at(recs, i) {
                let j = choose|j: int|
                    0 <= j < i && (#[trigger] recs[j].rectype) == RT_BGNSTR && (forall|k: int|
                        j < k < i ==> (#[trigger] recs[k].rectype) != RT_ENDSTR);
                assert(j < i - 1);
                assert(recs[i - 1].rectype != RT_ENDSTR);
                assert(false);
            }
        } else {
            // neither begin nor end: the nesting state carries over
            if inside_struct_at(recs, i) {
                let j = choose|j: int|
                    0 <= j < i && (#[trigger] recs[j].rectype) == RT_BGNSTR && (forall|k: int|
                        j < k < i ==> (#[trigger] recs[k].rectype) != RT_ENDSTR);
                assert(j < i - 1);
                assert(0 <= j < i - 1 && recs[j].rectype == RT_BGNSTR && (forall|k: int|
                    j < k < i - 1 ==> recs[k].rectype != RT_ENDSTR));
                assert(inside_struct_at(recs, i - 1));
            }
            if inside_struct_at(recs, i - 1) {
                let j = choose|j: int|
                    0 <= j < i - 1 && (#[trigger] recs[j].rectype) == RT_BGNSTR && (forall|k: int|
                        j < k < i - 1 ==> (#[trigger] recs[k].rectype) != RT_ENDSTR);
                assert forall|k: int| j < k < i implies (#[trigger] recs[k].rectype)
                    != RT_ENDSTR by {
                    if k < i - 1 {
                    } else {
                        assert(k == i - 1);
                    }
                }
                assert(inside_struct_at(recs, i));
            }
        }
        // the collected names
        if r.rectype == RT_STRNAME && pre.in_struct && r.dtype == DT_ASCII && name_of(
            r.payload,
        ).len() > 0 {
            let n0 = name_of(r.payload);
            assert(post.names == pre.names.push(n0));
            assert(honored_name_at(recs, i - 1));
            assert forall|n: Seq<char>|
                post.names.contains(n) <==> exists|j: int|
                    0 <= j < i && #[trigger] honored_name_at(recs, j) && name_of(recs[j].payload)
                        == n by {
                if post.names.contains(n) {
                    let idx = choose|idx: int| 0 <= idx < post.names.len() && post.names[idx] == n;
                    if idx < pre.names.len() {
                        assert(pre.names[idx] == n);
                        assert(pre.names.contains(n));
                        let j = choose|j: int|
                            0 <= j < i - 1 && #[trigger] honored_name_at(recs, j) && name_of(
                                recs[j].payload,
                            ) == n;
                        assert(0 <= j < i && honored_name_at(recs, j) && name_of(recs[j].payload)
                            == n);
                    } else {
                        assert(n == n0);
                        assert(0 <= i - 1 < i && honored_name_at(recs, i - 1) && name_of(
                            recs[i - 1].payload,
                        ) == n);
                    }
                }
                if exists|j: int|
                    0 <= j < i && #[trigger] honored_name_at(recs, j) && name_of(recs[j].payload)
                        == n {
                    let j = choose|j: int|
                        0 <= j < i && #[trigger] honored_name_at(recs, j) && name_of(
                            recs[j].payload,
                        ) == n;
                    if j < i - 1 {
                        assert(pre.names.contains(n));
                        let idx = choose|idx: int|
                            0 <= idx < pre.names.len() && pre.names[idx] == n;
                        assert(post.names[idx] == n);
                        assert(post.names.contains(n));
                    } else {
                        assert(post.names[pre.names.len() as int] == n0);
                        assert(name_of(recs[j].payload) == n0);
                        assert(post.names.contains(n));
                    }
                }
            }
        } else {
            assert(post.names == pre.names);
            assert(!honored_name_at(recs, i - 1));
            assert forall|n: Seq<char>|
                post.names.contains(n) <==> exists|j: int|
                    0 <= j < i && #[trigger] honored_name_at(recs, j) && name_of(recs[j].payload)
                        == n by {
                if exists|j: int|
                    0 <= j < i && #[trigger] honored_name_at(recs, j) && name_of(recs[j].payload)
                        == n {
                    let j = choose|j: int|
                        0 <= j < i && #[trigger] honored_name_at(recs, j) && name_of(
                            recs[j].payload,
                        ) == n;
                    assert(j < i - 1);
                }
            }
        }
    }
}

/// A name is in the name-scan output of a stream exactly when one of the
/// stream's structure-name records lies strictly between a
/// structure-begin and the next structure-end, carries the text datatype,
/// and decodes to that name, nonempty.
pub proof fn lemma_name_scan_iff(data: Seq<u8>, n: Seq<char>)
    requires
        spec_records(data) is Ok,
    ensures
        spec_cell_names(data)->Ok_0.contains(n) <==> exists|j: int|
            #[trigger] honored_name_at(spec_records(data)->Ok_0, j) && name_of(
                spec_records(data)->Ok_0[j].payload,
            ) == n,
{
    let recs = spec_records(data)->Ok_0;
    lemma_names_prefix(recs, recs.len() as int);
    assert(recs.take(recs.len() as int) =~= recs);
}

/// Collect the structure names of a stream, in stream order.
pub fn read_gds_cell_names(data: &[u8]) -> (r: Result<Vec<String>, IoError>)
    ensures
        (match r {
            Ok(v) => spec_cell_names(data@) == Ok::<Seq<Seq<char>>, IoError>(v.deep_view()),
            Err(e) => spec_cell_names(data@) == Err::<Seq<Seq<char>>, IoError>(e),
        }),
{
    let mut pos: usize = 0;
    let mut in_struct: bool = false;
    let mut cells: Vec<String> = Vec::new();
    let ghost mut processed: Seq<RecModel> = Seq::empty();
    proof {
        match records_from(data@, 0) {
            Ok(rest0) => {
                assert(processed + rest0 =~= rest0);
            },
            Err(_) => {},
        }
        assert(cells.deep_view() =~= Seq::<Seq<char>>::empty());
    }
    loop
        invariant
            pos <= data@.len(),
            (match records_from(data@, pos as int) {
                Ok(rest) => spec_records(data@) == Ok::<Seq<RecModel>, IoError>(processed + rest),
                Err(e) => spec_records(data@) == Err::<Seq<RecModel>, IoError>(e),
            }),
            names_run(processed, names_init()) == (NamesState {
                in_struct,
                names: cells.deep_view(),
            }),
        decreases data@.len() - pos,
    {
        match frame_record(data, pos) {
            FrameOut::End => {
                proof {
                    assert(processed + Seq::<RecModel>::empty() =~= processed);
                }
                return Ok(cells);
            },
            FrameOut::Fail(e) => {
                return Err(e);
            },
            FrameOut::Rec { rectype, dtype, payload, next } => {
                let ghost rec = RecModel { rectype, dtype, payload: payload@ };
                if rectype == RT_ENDLIB {
                    proof {
                        assert(records_from(data@, pos as int) == Ok::<Seq<RecModel>, IoError>(
                            seq![rec],
                        ));
                        assert(processed + seq![rec] =~= processed.push(rec));
                        lemma_names_run_push(processed, rec, names_init());
                    }
                    return Ok(cells);
                }
                let ghost old_cells = cells.deep_view();
                if rectype == RT_BGNSTR {
                    in_struct = true;
                } else if rectype == RT_STRNAME && in_struct && dtype == DT_ASCII {
                    let s = trim_gds_ascii(payload);
                    if !s.as_str().is_empty() {
                        cells.push(s);
                    }
                } else if rectype == RT_ENDSTR {
                    in_struct = false;
                }
                proof {
                    assert(cells.deep_view() =~= names_step(
                        NamesState { in_struct: names_run(processed, names_init()).in_struct, names: old_cells },
                        rec,
                    ).names);
                    lemma_names_run_push(processed, rec, names_init());
                    let tail = records_from(data@, next as int);
                    assert(records_from(data@, pos as int) == (match tail {
                        Ok(rest) => Ok::<Seq<RecModel>, IoError>(seq![rec] + rest),
                        Err(e) => Err::<Seq<RecModel>, IoError>(e),
                    }));
                    if tail is Ok {
                        assert(processed + (seq![rec] + tail.unwrap()) =~= processed.push(rec)
                            + tail.unwrap());
                    }
                    processed = processed.push(rec);
                }
                pos = next;
            },
        }
    }
}

} // verus!
