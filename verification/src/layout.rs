//! The façade: a value that owns the decode results of one stream and
//! exposes its name, summaries and polygons.

use vstd::prelude::*;
use crate::polygons::{CellPolyModel, CellPolygons, Polygon, read_gds_polygons, spec_polygons};
use crate::records::IoError;
use crate::summary::{
    CellModel, CellSummary, GdsSummary, SummaryModel, read_gds_summary, spec_summary,
};

verus! {

/// The façade's error: a decode failure reduced to a message.
#[derive(Debug)]
pub enum GoasperError {
    Io(String),
}

/// The message that each decode failure is reported with.
pub open spec fn err_message(e: IoError) -> Seq<char> {
    match e {
        IoError::Io(m) => m@,
        IoError::Malformed { .. } => "malformed GDS record"@,
        IoError::Eof => "unexpected end of stream"@,
    }
}

/// Reduce a decode failure to the façade's error.
fn goasper_error_of(e: IoError) -> (r: GoasperError)
    ensures
        r matches GoasperError::Io(m) && m@ == err_message(e),
{
    match e {
        IoError::Io(m) => GoasperError::Io(m),
        IoError::Malformed { .. } => GoasperError::Io(
            "malformed GDS record".to_owned(),
        ),
        IoError::Eof => GoasperError::Io("unexpected end of stream".to_owned()),
    }
}

/// What a layout holds: the summary and the per-cell polygons of the last
/// stream it decoded.
pub struct LayoutModel {
    pub summary: SummaryModel,
    pub polys: Seq<CellPolyModel>,
}

/// A loaded layout: the decode results of one stream, owned by the caller.
pub struct Layout {
    summary: GdsSummary,
    polys: Vec<CellPolygons>,
}

impl View for Layout {
    type V = LayoutModel;

    closed spec fn view(&self) -> LayoutModel {
        LayoutModel { summary: self.summary@, polys: self.polys.deep_view() }
    }
}

/// The index of the first cell named `name`, or `-1` if there is none.
pub open spec fn find_cell(cs: Seq<CellPolyModel>, name: Seq<char>) -> int
    decreases cs.len(),
{
    if cs.len() == 0 {
        -1
    } else if cs[0].name == name {
        0
    } else {
        let r = find_cell(cs.drop_first(), name);
        if r < 0 {
            -1
        } else {
            r + 1
        }
    }
}

/// `find_cell` returns the first matching index.
proof fn lemma_find_cell_at(cs: Seq<CellPolyModel>, name: Seq<char>, i: int)
    requires
        0 <= i < cs.len(),
        cs[i].name == name,
        forall|j: int| 0 <= j < i ==> (#[trigger] cs[j].name) != name,
    ensures
        find_cell(cs, name) == i,
    decreases cs.len(),
{
    if i > 0 {
        assert(forall|k: int| 0 <= k < cs.drop_first().len() ==> cs.drop_first()[k] == cs[k + 1]);
        lemma_find_cell_at(cs.drop_first(), name, i - 1);
    }
}

/// `find_cell` reports absence when no cell matches.
proof fn lemma_find_cell_none(cs: Seq<CellPolyModel>, name: Seq<char>)
    requires
        forall|j: int| 0 <= j < cs.len() ==> (#[trigger] cs[j].name) != name,
    ensures
        find_cell(cs, name) == -1,
    decreases cs.len(),
{
    if cs.len() > 0 {
        assert(forall|k: int| 0 <= k < cs.drop_first().len() ==> cs.drop_first()[k] == cs[k + 1]);
        lemma_find_cell_none(cs.drop_first(), name);
    }
}

/// Are a `String` and a `&str` the same characters?
fn str_eq(a: &String, b: &str) -> (r: bool)
    ensures
        r == (a@ == b@),
{
    a.eq(&b.to_owned())
}

impl Layout {
    /// A layout with nothing loaded.
    pub fn new() -> (r: Layout)
        ensures
            r@.summary == (SummaryModel { libname: None, cells: Seq::empty() }),
            r@.polys == Seq::<CellPolyModel>::empty(),
    {
        let summary = GdsSummary { libname: None, cells: Vec::new() };
        let polys: Vec<CellPolygons> = Vec::new();
        proof {
            assert(summary@.cells =~= Seq::<CellModel>::empty());
            assert(polys.deep_view() =~= Seq::<CellPolyModel>::empty());
        }
        Layout { summary, polys }
    }

    /// Decode a stream and hold its summary and polygons.  On failure
    /// nothing is retained and the layout is unchanged.
    pub fn load_gds(&mut self, data: &[u8]) -> (r: Result<(), GoasperError>)
        ensures
            (match r {
                Ok(_) => {
                    &&& spec_summary(data@) matches Ok(m) && final(self)@.summary == m
                    &&& spec_polygons(data@) matches Ok(ps) && final(self)@.polys == ps
                },
                Err(ge) => {
                    &&& *final(self) == *old(self)
                    &&& spec_summary(data@) matches Err(e) && (ge matches GoasperError::Io(msg)
                        && msg@ == err_message(e))
                },
            }),
    {
        match read_gds_summary(data) {
            Ok(s) => {
                match read_gds_polygons(data) {
                    Ok(p) => {
                        self.summary = s;
                        self.polys = p;
                        Ok(())
                    },
                    Err(e) => Err(goasper_error_of(e)),
                }
            },
            Err(e) => Err(goasper_error_of(e)),
        }
    }

    /// Accept a destination path for a future export.  No format is
    /// defined yet: the call does no work, reports no error, and produces
    /// no file.
    pub fn save_oas(&self, path: &str) -> (r: Result<(), GoasperError>)
        ensures
            r is Ok,
    {
        let _ = path;
        Ok(())
    }

    /// The library name, if the stream carried one.
    pub fn libname(&self) -> (r: Option<&String>)
        ensures
            (match r {
                Some(s) => self@.summary.libname == Some(s@),
                None => self@.summary.libname is None,
            }),
    {
        self.summary.libname.as_ref()
    }

    /// The cell names, in stream order.
    pub fn cell_names(&self) -> (r: Vec<String>)
        ensures
            r.deep_view() == self@.summary.cells.map_values(|c: CellModel| c.name),
    {
        let ghost names = self@.summary.cells.map_values(|c: CellModel| c.name);
        let mut out: Vec<String> = Vec::new();
        proof {
            assert(out.deep_view() =~= names.take(0));
        }
        let mut i: usize = 0;
        while i < self.summary.cells.len()
            invariant
                i <= self.summary.cells@.len(),
                names == self@.summary.cells.map_values(|c: CellModel| c.name),
                names.len() == self.summary.cells@.len(),
                out.deep_view() == names.take(i as int),
            decreases self.summary.cells@.len() - i,
        {
            let ghost prev = out.deep_view();
            out.push(self.summary.cells[i].name.clone());
            proof {
                assert(prev.push(self.summary.cells@[i as int]@.name) =~= names.take(i + 1));
                assert(out.deep_view() =~= prev.push(self.summary.cells@[i as int]@.name));
            }
            i = i + 1;
        }
        proof {
            assert(names.take(names.len() as int) =~= names);
        }
        out
    }

    /// Every decoded cell summary, in stream order.
    pub fn cell_summaries(&self) -> (r: &Vec<CellSummary>)
        ensures
            r.deep_view() == self@.summary.cells,
    {
        &self.summary.cells
    }

    /// Every cell's polygons, in stream order.
    pub fn polygons(&self) -> (r: &Vec<CellPolygons>)
        ensures
            r.deep_view() == self@.polys,
    {
        &self.polys
    }

    /// The polygons of the first cell named `cell`, if one exists.
    pub fn polygons_for(&self, cell: &str) -> (r: Option<&Vec<Polygon>>)
        ensures
            (match r {
                Some(v) => {
                    &&& find_cell(self@.polys, cell@) >= 0
                    &&& v.deep_view() == self@.polys[find_cell(self@.polys, cell@)].polys
                },
                None => find_cell(self@.polys, cell@) == -1,
            }),
    {
        let mut i: usize = 0;
        while i < self.polys.len()
            invariant
                i <= self.polys@.len(),
                forall|j: int| 0 <= j < i ==> (#[trigger] self.polys.deep_view()[j].name) != cell@,
            decreases self.polys@.len() - i,
        {
            if str_eq(&self.polys[i].name, cell) {
                proof {
                    lemma_find_cell_at(self.polys.deep_view(), cell@, i as int);
                }
                return Some(&self.polys[i].polys);
            }
            i = i + 1;
        }
        proof {
            lemma_find_cell_none(self.polys.deep_view(), cell@);
        }
        None
    }
}

} // verus!
