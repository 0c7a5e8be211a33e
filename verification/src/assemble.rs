//! The record assembler: turns one page's classified values into the cell
//! writes the spreadsheet layer performs, against two read-only lookup
//! tables supplied before extraction (header text to column, candidate id to
//! row).
//!
//! Subject labels are paired with grades first, position by position, and a
//! pair whose label the header table does not resolve is then reported and
//! skipped; pairing before filtering keeps each grade with its own label
//! even when an earlier label is unresolved.

use vstd::prelude::*;
use crate::classify::{PageData, PageView};

verus! {

/// The mapping described by a sequence of (key, index) entries; a later
/// entry for the same key overrides an earlier one.
pub open spec fn table_map(entries: Seq<(String, u32)>) -> Map<Seq<char>, u32>
    decreases entries.len(),
{
    if entries.len() == 0 {
        Map::empty()
    } else {
        table_map(entries.drop_last()).insert(entries.last().0@, entries.last().1)
    }
}

/// A read-only lookup table from text key to spreadsheet coordinate, filled
/// before extraction begins.
pub struct LookupTable {
    entries: Vec<(String, u32)>,
}

impl View for LookupTable {
    type V = Map<Seq<char>, u32>;

    closed spec fn view(&self) -> Map<Seq<char>, u32> {
        table_map(self.entries@)
    }
}

impl LookupTable {
    /// An empty table.
    pub fn new() -> (r: LookupTable)
        ensures
            r@ == Map::<Seq<char>, u32>::empty(),
    {
        LookupTable { entries: Vec::new() }
    }

    /// Adds an entry; a repeated key keeps the last entry.
    pub fn push(&mut self, key: String, idx: u32)
        ensures
            final(self)@ == old(self)@.insert(key@, idx),
    {
        let ghost before = self.entries@;
        self.entries.push((key, idx));
        proof {
            assert(self.entries@.drop_last() =~= before);
        }
    }

    /// The coordinate for a key, if any.
    pub fn lookup(&self, key: &String) -> (r: Option<u32>)
        ensures
            match r {
                Some(idx) => self@.contains_key(key@) && idx == self@[key@],
                None => !self@.contains_key(key@),
            },
    {
        let mut i: usize = self.entries.len();
        proof {
            assert(self.entries@.take(i as int) =~= self.entries@);
        }
        while i > 0
            invariant
                0 <= i <= self.entries@.len(),
                table_map(self.entries@).contains_key(key@) == table_map(
                    self.entries@.take(i as int),
                ).contains_key(key@),
                table_map(self.entries@).contains_key(key@) ==> table_map(self.entries@)[key@]
                    == table_map(self.entries@.take(i as int))[key@],
            decreases i,
        {
            i = i - 1;
            proof {
                assert(self.entries@.take(i + 1).drop_last() =~= self.entries@.take(i as int));
                assert(self.entries@.take(i + 1).last() == self.entries@[i as int]);
            }
            if self.entries[i].0.eq(key) {
                return Some(self.entries[i].1);
            }
        }
        proof {
            assert(self.entries@.take(0) =~= Seq::<(String, u32)>::empty());
        }
        None
    }
}

/// One cell write: the grade or band text destined for a column and row.
#[derive(Clone, Debug, PartialEq, Eq)]
pub struct CellWrite {
    pub col: u32,
    pub row: u32,
    pub value: String,
}

/// The mathematical content of a `CellWrite`.
pub ghost struct CellWriteView {
    pub col: u32,
    pub row: u32,
    pub value: Seq<char>,
}

impl View for CellWrite {
    type V = CellWriteView;

    open spec fn view(&self) -> CellWriteView {
        CellWriteView { col: self.col, row: self.row, value: self.value@ }
    }
}

/// Why assembling a page's record failed. Each variant keeps the candidate
/// id involved, where one was read.
#[derive(Clone, Debug, PartialEq, Eq)]
pub enum AssembleError {
    /// The grades pipeline finished a page without a candidate id.
    MissingCandidateId,
    /// The page's candidate id is not in the id-to-row table.
    UnknownCandidateId(String),
    /// A CEFR page resolved its candidate id but no band was captured.
    MissingCefrBand(String),
}

/// The mathematical content of an `AssembleError`.
pub ghost enum AssembleErrorView {
    MissingCandidateId,
    UnknownCandidateId(Seq<char>),
    MissingCefrBand(Seq<char>),
}

impl View for AssembleError {
    type V = AssembleErrorView;

    open spec fn view(&self) -> AssembleErrorView {
        match self {
            AssembleError::MissingCandidateId => AssembleErrorView::MissingCandidateId,
            AssembleError::UnknownCandidateId(id) => AssembleErrorView::UnknownCandidateId(id@),
            AssembleError::MissingCefrBand(id) => AssembleErrorView::MissingCefrBand(id@),
        }
    }
}

/// The writes for one page: the i-th subject label is paired with the i-th
/// grade, up to the shorter of the two sequences, and a pair whose label the
/// header mapping does not resolve is skipped without disturbing the pairs
/// around it.
pub open spec fn pair_writes(
    labels: Seq<Seq<char>>,
    grades: Seq<Seq<char>>,
    headers: Map<Seq<char>, u32>,
    row: u32,
) -> Seq<CellWriteView>
    decreases labels.len(),
{
    if labels.len() == 0 || grades.len() == 0 {
        Seq::empty()
    } else {
        let rest = pair_writes(labels.drop_first(), grades.drop_first(), headers, row);
        if headers.contains_key(labels.first()) {
            seq![
                CellWriteView { col: headers[labels.first()], row: row, value: grades.first() },
            ] + rest
        } else {
            rest
        }
    }
}

/// The subject labels of the paired range that the header mapping does not
/// resolve, in page order.
pub open spec fn unresolved_labels(
    labels: Seq<Seq<char>>,
    grades: Seq<Seq<char>>,
    headers: Map<Seq<char>, u32>,
) -> Seq<Seq<char>>
    decreases labels.len(),
{
    if labels.len() == 0 || grades.len() == 0 {
        Seq::empty()
    } else {
        let rest = unresolved_labels(labels.drop_first(), grades.drop_first(), headers);
        if headers.contains_key(labels.first()) {
            rest
        } else {
            seq![labels.first()] + rest
        }
    }
}

/// When every subject label resolves and the label and grade sequences have
/// equal length, every pair produces a write.
pub proof fn lemma_pairing_is_total(
    labels: Seq<Seq<char>>,
    grades: Seq<Seq<char>>,
    headers: Map<Seq<char>, u32>,
    row: u32,
)
    requires
        labels.len() == grades.len(),
        forall|k: int| 0 <= k < labels.len() ==> headers.contains_key(labels[k]),
    ensures
        pair_writes(labels, grades, headers, row).len() == labels.len(),
    decreases labels.len(),
{
    if labels.len() > 0 {
        assert(forall|k: int|
            0 <= k < labels.len() - 1 ==> labels.drop_first()[k] == labels[k + 1]);
        lemma_pairing_is_total(labels.drop_first(), grades.drop_first(), headers, row);
    }
}

/// Pairing is positional: when every subject label resolves and the label
/// and grade sequences have equal length, the i-th write carries the i-th
/// label's column and the i-th grade.
pub proof fn lemma_pairing_is_positional(
    labels: Seq<Seq<char>>,
    grades: Seq<Seq<char>>,
    headers: Map<Seq<char>, u32>,
    row: u32,
    i: int,
)
    requires
        labels.len() == grades.len(),
        forall|k: int| 0 <= k < labels.len() ==> headers.contains_key(labels[k]),
        0 <= i < labels.len(),
    ensures
        pair_writes(labels, grades, headers, row)[i] == (CellWriteView {
            col: headers[labels[i]],
            row: row,
            value: grades[i],
        }),
    decreases i,
{
    assert(forall|k: int| 0 <= k < labels.len() - 1 ==> labels.drop_first()[k] == labels[k + 1]);
    assert(forall|k: int| 0 <= k < grades.len() - 1 ==> grades.drop_first()[k] == grades[k + 1]);
    assert(headers.contains_key(labels[0]));
    let w0 = CellWriteView { col: headers[labels[0]], row: row, value: grades[0] };
    let rest = pair_writes(labels.drop_first(), grades.drop_first(), headers, row);
    assert(pair_writes(labels, grades, headers, row) == seq![w0] + rest);
    if i == 0 {
        assert((seq![w0] + rest)[0] == w0);
    } else {
        lemma_pairing_is_total(labels.drop_first(), grades.drop_first(), headers, row);
        lemma_pairing_is_positional(labels.drop_first(), grades.drop_first(), headers, row, i - 1);
        assert((seq![w0] + rest)[i] == rest[i - 1]);
    }
}

/// What assembling a grades page yields: the cell writes, or the error for
/// a page without a candidate id or with an id the row table does not know.
pub open spec fn spec_assemble_grades(
    d: PageView,
    headers: Map<Seq<char>, u32>,
    rows: Map<Seq<char>, u32>,
) -> Result<(Seq<CellWriteView>, Seq<Seq<char>>), AssembleErrorView> {
    match d.candidate_id {
        None => Err(AssembleErrorView::MissingCandidateId),
        Some(id) => if !rows.contains_key(id) {
            Err(AssembleErrorView::UnknownCandidateId(id))
        } else {
            Ok(
                (
                    pair_writes(d.subject_labels, d.grades, headers, rows[id]),
                    unresolved_labels(d.subject_labels, d.grades, headers),
                ),
            )
        },
    }
}

/// A grades page's assembled outcome: the writes to perform, and the
/// subject labels that were reported as unresolved and skipped.
#[derive(Clone, Debug, PartialEq, Eq)]
pub struct GradesOutcome {
    pub writes: Vec<CellWrite>,
    pub unresolved: Vec<String>,
}

/// Assembles one grades page: pairs labels with grades by position, then
/// resolves each pair's label to its column and the page's candidate id to
/// its row.
pub fn assemble_grades(data: &PageData, headers: &LookupTable, id_rows: &LookupTable) -> (r:
    Result<GradesOutcome, AssembleError>)
    ensures
        match r {
            Ok(o) => spec_assemble_grades(data@, headers@, id_rows@) == Ok::<
                (Seq<CellWriteView>, Seq<Seq<char>>),
                AssembleErrorView,
            >((o.writes@.map_values(|w: CellWrite| w@), o.unresolved@.map_values(|s: String| s@))),
            Err(e) => spec_assemble_grades(data@, headers@, id_rows@) == Err::<
                (Seq<CellWriteView>, Seq<Seq<char>>),
                AssembleErrorView,
            >(e@),
        },
{
    let id = match &data.candidate_id {
        None => {
            return Err(AssembleError::MissingCandidateId);
        },
        Some(id) => id,
    };
    let row = match id_rows.lookup(id) {
        None => {
            return Err(AssembleError::UnknownCandidateId(id.clone()));
        },
        Some(row) => row,
    };
    let ghost lv = data@.subject_labels;
    let ghost gv = data@.grades;
    let n = if data.subject_labels.len() < data.grades.len() {
        data.subject_labels.len()
    } else {
        data.grades.len()
    };
    let mut writes: Vec<CellWrite> = Vec::new();
    let mut unresolved: Vec<String> = Vec::new();
    let mut i: usize = 0;
    proof {
        assert(lv.skip(0) =~= lv);
        assert(gv.skip(0) =~= gv);
        assert(writes@.map_values(|w: CellWrite| w@) =~= Seq::<CellWriteView>::empty());
        assert(unresolved@.map_values(|s: String| s@) =~= Seq::<Seq<char>>::empty());
        match pair_writes(lv, gv, headers@, row) {
            _ => {},
        }
    }
    while i < n
        invariant
            0 <= i <= n,
            n == if lv.len() < gv.len() {
                lv.len()
            } else {
                gv.len()
            },
            lv == data@.subject_labels,
            gv == data@.grades,
            lv.len() == data.subject_labels@.len(),
            gv.len() == data.grades@.len(),
            pair_writes(lv, gv, headers@, row) == writes@.map_values(|w: CellWrite| w@)
                + pair_writes(lv.skip(i as int), gv.skip(i as int), headers@, row),
            unresolved_labels(lv, gv, headers@) == unresolved@.map_values(|s: String| s@)
                + unresolved_labels(lv.skip(i as int), gv.skip(i as int), headers@),
        decreases n - i,
    {
        proof {
            assert(lv.skip(i as int).first() == lv[i as int]);
            assert(gv.skip(i as int).first() == gv[i as int]);
            assert(lv.skip(i as int).drop_first() =~= lv.skip(i as int + 1));
            assert(gv.skip(i as int).drop_first() =~= gv.skip(i as int + 1));
            assert(lv[i as int] == data.subject_labels@[i as int]@);
            assert(gv[i as int] == data.grades@[i as int]@);
        }
        let label = &data.subject_labels[i];
        let ghost wv_old = writes@.map_values(|w: CellWrite| w@);
        let ghost uv_old = unresolved@.map_values(|s: String| s@);
        match headers.lookup(label) {
            Some(col) => {
                let w = CellWrite { col, row, value: data.grades[i].clone() };
                writes.push(w);
                proof {
                    assert(writes@.map_values(|w: CellWrite| w@) =~= wv_old.push(
                        CellWriteView { col: col, row: row, value: gv[i as int] },
                    ));
                    assert(wv_old.push(
                        CellWriteView { col: col, row: row, value: gv[i as int] },
                    ) =~= wv_old + seq![
                        CellWriteView { col: col, row: row, value: gv[i as int] },
                    ]);
                    assert(wv_old + (seq![
                        CellWriteView { col: col, row: row, value: gv[i as int] },
                    ] + pair_writes(lv.skip(i as int + 1), gv.skip(i as int + 1), headers@, row))
                        =~= (wv_old + seq![
                        CellWriteView { col: col, row: row, value: gv[i as int] },
                    ]) + pair_writes(lv.skip(i as int + 1), gv.skip(i as int + 1), headers@, row));
                }
            },
            None => {
                unresolved.push(label.clone());
                proof {
                    assert(unresolved@.map_values(|s: String| s@) =~= uv_old.push(lv[i as int]));
                    assert(uv_old.push(lv[i as int]) =~= uv_old + seq![lv[i as int]]);
                    assert(uv_old + (seq![lv[i as int]] + unresolved_labels(
                        lv.skip(i as int + 1),
                        gv.skip(i as int + 1),
                        headers@,
                    )) =~= (uv_old + seq![lv[i as int]]) + unresolved_labels(
                        lv.skip(i as int + 1),
                        gv.skip(i as int + 1),
                        headers@,
                    ));
                }
            },
        }
        i = i + 1;
    }
    proof {
        assert(pair_writes(lv.skip(n as int), gv.skip(n as int), headers@, row)
            =~= Seq::<CellWriteView>::empty());
        assert(unresolved_labels(lv.skip(n as int), gv.skip(n as int), headers@)
            =~= Seq::<Seq<char>>::empty());
        assert(writes@.map_values(|w: CellWrite| w@) + Seq::<CellWriteView>::empty()
            =~= writes@.map_values(|w: CellWrite| w@));
        assert(unresolved@.map_values(|s: String| s@) + Seq::<Seq<char>>::empty()
            =~= unresolved@.map_values(|s: String| s@));
    }
    Ok(GradesOutcome { writes, unresolved })
}

/// What assembling a CEFR page yields: nothing when the page produced no
/// candidate id, the band's cell write when id and band resolved, or the
/// error that keeps the id involved.
pub open spec fn spec_assemble_cefr(d: PageView, rows: Map<Seq<char>, u32>, cefr_col: u32) -> Result<
    Option<CellWriteView>,
    AssembleErrorView,
> {
    match d.candidate_id {
        None => Ok(None),
        Some(id) => if !rows.contains_key(id) {
            Err(AssembleErrorView::UnknownCandidateId(id))
        } else {
            match d.cefr_band {
                None => Err(AssembleErrorView::MissingCefrBand(id)),
                Some(band) => Ok(
                    Some(CellWriteView { col: cefr_col, row: rows[id], value: band }),
                ),
            }
        },
    }
}

/// Assembles one CEFR page: resolves the candidate id to its row and writes
/// the band into the fixed CEFR column; a page without a candidate id is
/// skipped.
pub fn assemble_cefr(data: &PageData, id_rows: &LookupTable, cefr_col: u32) -> (r: Result<
    Option<CellWrite>,
    AssembleError,
>)
    ensures
        match r {
            Ok(o) => spec_assemble_cefr(data@, id_rows@, cefr_col) == Ok::<
                Option<CellWriteView>,
                AssembleErrorView,
            >(match o {
                Some(w) => Some(w@),
                None => None,
            }),
            Err(e) => spec_assemble_cefr(data@, id_rows@, cefr_col) == Err::<
                Option<CellWriteView>,
                AssembleErrorView,
            >(e@),
        },
{
    let id = match &data.candidate_id {
        None => {
            return Ok(None);
        },
        Some(id) => id,
    };
    let row = match id_rows.lookup(id) {
        None => {
            return Err(AssembleError::UnknownCandidateId(id.clone()));
        },
        Some(row) => row,
    };
    match &data.cefr_band {
        None => Err(AssembleError::MissingCefrBand(id.clone())),
        Some(band) => Ok(Some(CellWrite { col: cefr_col, row, value: band.clone() })),
    }
}

} // verus!
