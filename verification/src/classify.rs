//! The field classifier: a state machine that consumes trimmed text blocks
//! in stream order and routes each one either to a label, which sets a new
//! state and positional anchor, or to a data value for the current state.
//!
//! A label block always wins: the label rules are tried first. A block that
//! matches no rule is a data value when the state's axis of the block's
//! position equals the stored anchor exactly, and is discarded otherwise.

use vstd::prelude::*;
use crate::pos::Pos;
use crate::text::{is_candidate_pattern, lower_of, lowercase, matches_candidate_pattern,
    parses_as_u32, spec_contains, str_contains, valid_u32_literal};

verus! {

/// Which extraction pipeline a page is replayed for: the subject-grades
/// layout, or the CEFR-band layout with its two extra label rules.
#[derive(Clone, Copy, PartialEq, Eq, Structural, Debug)]
pub enum Pipeline {
    Grades,
    Cefr,
}

/// The classifier state: which field the next anchored value belongs to,
/// together with the anchor coordinate its label established (the y axis for
/// the candidate-id and CEFR states, the x axis for the grade and
/// subject-code states).
#[derive(Clone, Copy, PartialEq, Eq, Structural, Debug)]
pub enum State {
    Unknown,
    CandidateId { anchor: i64 },
    Grade { anchor: i64 },
    SubjectCode { anchor: i64 },
    Cefr { anchor: i64 },
}

/// The values accumulated for one page.
#[derive(Clone, Debug, PartialEq, Eq)]
pub struct PageData {
    pub candidate_id: Option<String>,
    pub subject_labels: Vec<String>,
    pub grades: Vec<String>,
    pub cefr_band: Option<String>,
}

/// The mathematical content of a `PageData`.
pub ghost struct PageView {
    pub candidate_id: Option<Seq<char>>,
    pub subject_labels: Seq<Seq<char>>,
    pub grades: Seq<Seq<char>>,
    pub cefr_band: Option<Seq<char>>,
}

/// The view of an optional owned string.
pub open spec fn opt_view(o: Option<String>) -> Option<Seq<char>> {
    match o {
        Some(s) => Some(s@),
        None => None,
    }
}

impl View for PageData {
    type V = PageView;

    open spec fn view(&self) -> PageView {
        PageView {
            candidate_id: opt_view(self.candidate_id),
            subject_labels: self.subject_labels@.map_values(|s: String| s@),
            grades: self.grades@.map_values(|s: String| s@),
            cefr_band: opt_view(self.cefr_band),
        }
    }
}

/// The accumulator a fresh page starts from.
pub open spec fn empty_page() -> PageView {
    PageView {
        candidate_id: None,
        subject_labels: Seq::empty(),
        grades: Seq::empty(),
        cefr_band: None,
    }
}

impl PageData {
    /// An empty accumulator for a fresh page.
    pub fn new() -> (r: PageData)
        ensures
            r@ == empty_page(),
    {
        let r = PageData {
            candidate_id: None,
            subject_labels: Vec::new(),
            grades: Vec::new(),
            cefr_band: None,
        };
        proof {
            assert(r@.subject_labels =~= empty_page().subject_labels);
            assert(r@.grades =~= empty_page().grades);
        }
        r
    }
}

/// A page view with the candidate id set, unless one is already set: the
/// first id recorded for a page wins.
pub open spec fn with_candidate(d: PageView, text: Seq<char>) -> PageView {
    if d.candidate_id is Some {
        d
    } else {
        PageView { candidate_id: Some(text), ..d }
    }
}

/// The label rules, tried in priority order on the lower-cased block text.
/// A matching keyword rule sets the new state and captures its axis of the
/// position as the anchor; the candidate-pattern rule records the id and
/// keeps the state; the two last rules belong to the CEFR pipeline alone.
pub open spec fn label_step(p: Pipeline, st: State, d: PageView, text: Seq<char>, pos: Pos) -> (
    State,
    PageView,
) {
    let lower = lower_of(text);
    if spec_contains(lower, "angka"@) && spec_contains(lower, "giliran"@) {
        (State::CandidateId { anchor: pos.y }, d)
    } else if spec_contains(lower, "gred"@) {
        (State::Grade { anchor: pos.x }, d)
    } else if spec_contains(lower, "kod"@) {
        (State::SubjectCode { anchor: pos.x }, d)
    } else if p == Pipeline::Cefr && spec_contains(lower, "tahap"@) && spec_contains(
        lower,
        "cefr"@,
    ) && spec_contains(lower, ":"@) {
        (State::Cefr { anchor: pos.y }, d)
    } else if p == Pipeline::Cefr && is_candidate_pattern(lower) {
        (st, with_candidate(d, text))
    } else {
        (st, d)
    }
}

/// The value handling per state for a block accepted at the anchor: the
/// candidate id and the CEFR band keep their first value, a subject code is
/// kept only when it is numeric, a grade is appended unconditionally.
pub open spec fn value_step(st: State, d: PageView, text: Seq<char>) -> (State, PageView) {
    match st {
        State::CandidateId { anchor } => (st, with_candidate(d, text)),
        State::SubjectCode { anchor } => if valid_u32_literal(text) {
            (st, PageView { subject_labels: d.subject_labels.push(text), ..d })
        } else {
            (st, d)
        },
        State::Grade { anchor } => (st, PageView { grades: d.grades.push(text), ..d }),
        State::Cefr { anchor } => (
            st,
            PageView {
                cefr_band: if d.cefr_band is Some {
                    d.cefr_band
                } else {
                    Some(text)
                },
                ..d
            },
        ),
        State::Unknown => (st, d),
    }
}

/// One classifier transition on a trimmed text block at a position. A label
/// block always wins: the label rules are tried first, so a block whose
/// text matches one reclassifies even while it stands at the current
/// anchor. A block matching no rule is a value for the current state when
/// the state's axis equals the anchor exactly, and is discarded otherwise.
pub open spec fn spec_step(p: Pipeline, st: State, d: PageView, text: Seq<char>, pos: Pos) -> (
    State,
    PageView,
) {
    if matches_label(p, text) {
        label_step(p, st, d, text, pos)
    } else if accepts_value(st, pos) {
        value_step(st, d, text)
    } else {
        (st, d)
    }
}

/// Whether a state accepts a block at a position as a data value: the
/// state's axis of the position equals the stored anchor exactly.
pub open spec fn accepts_value(st: State, pos: Pos) -> bool {
    match st {
        State::Unknown => false,
        State::CandidateId { anchor } => anchor == pos.y,
        State::Grade { anchor } => anchor == pos.x,
        State::SubjectCode { anchor } => anchor == pos.x,
        State::Cefr { anchor } => anchor == pos.y,
    }
}

/// Whether a block's text matches some label rule of the pipeline.
pub open spec fn matches_label(p: Pipeline, text: Seq<char>) -> bool {
    let lower = lower_of(text);
    (spec_contains(lower, "angka"@) && spec_contains(lower, "giliran"@)) || spec_contains(
        lower,
        "gred"@,
    ) || spec_contains(lower, "kod"@) || (p == Pipeline::Cefr && spec_contains(lower, "tahap"@)
        && spec_contains(lower, "cefr"@) && spec_contains(lower, ":"@)) || (p == Pipeline::Cefr
        && is_candidate_pattern(lower))
}

/// Anchor gating is exact equality: a block whose axis differs from the
/// stored anchor by any nonzero amount is not recorded as a value, and when
/// its text also matches no label rule the classifier discards it — the
/// state, the anchor and the accumulated data are all left unchanged.
pub proof fn lemma_anchor_gating_exact(
    p: Pipeline,
    st: State,
    d: PageView,
    text: Seq<char>,
    pos: Pos,
)
    requires
        !accepts_value(st, pos),
        !matches_label(p, text),
    ensures
        spec_step(p, st, d, text, pos) == (st, d),
{
}

/// First-wins for CEFR: from the CEFR state with no band recorded, two
/// value blocks at the anchor leave the first block's text as the band; the
/// second is ignored.
pub proof fn lemma_cefr_first_wins(
    p: Pipeline,
    anchor: i64,
    d: PageView,
    t1: Seq<char>,
    t2: Seq<char>,
    pos1: Pos,
    pos2: Pos,
)
    requires
        d.cefr_band is None,
        pos1.y == anchor,
        pos2.y == anchor,
        !matches_label(p, t1),
        !matches_label(p, t2),
    ensures
        ({
            let s1 = spec_step(p, State::Cefr { anchor }, d, t1, pos1);
            let s2 = spec_step(p, s1.0, s1.1, t2, pos2);
            s2.0 == State::Cefr { anchor } && s2.1.cefr_band == Some(t1)
        }),
{
}

/// Whether a state's axis of the position equals its anchor.
fn accepts_value_at(st: State, pos: Pos) -> (r: bool)
    ensures
        r == accepts_value(st, pos),
{
    match st {
        State::Unknown => false,
        State::CandidateId { anchor } => anchor == pos.y,
        State::Grade { anchor } => anchor == pos.x,
        State::SubjectCode { anchor } => anchor == pos.x,
        State::Cefr { anchor } => anchor == pos.y,
    }
}

/// The value handling for a block accepted at the anchor.
fn apply_value(st: State, data: &mut PageData, text: &String) -> (r: State)
    ensures
        ({
            let sd = value_step(st, old(data)@, text@);
            r == sd.0 && final(data)@ == sd.1
        }),
{
    match st {
        State::CandidateId { anchor } => {
            if data.candidate_id.is_none() {
                data.candidate_id = Some(text.clone());
            }
        },
        State::SubjectCode { anchor } => {
            if parses_as_u32(text.as_str()) {
                let ghost before = data.subject_labels@;
                data.subject_labels.push(text.clone());
                proof {
                    assert(data@.subject_labels =~= before.map_values(|s: String| s@).push(text@));
                }
            }
        },
        State::Grade { anchor } => {
            let ghost before = data.grades@;
            data.grades.push(text.clone());
            proof {
                assert(data@.grades =~= before.map_values(|s: String| s@).push(text@));
            }
        },
        State::Cefr { anchor } => {
            if data.cefr_band.is_none() {
                data.cefr_band = Some(text.clone());
            }
        },
        State::Unknown => {},
    }
    st
}

/// One classifier transition: updates the accumulator in place and returns
/// the next state. Label rules are tried first; a block matching none of
/// them is a value when the state's axis equals the anchor, and is
/// discarded otherwise.
pub fn classify_step(
    p: Pipeline,
    st: State,
    data: &mut PageData,
    text: &String,
    pos: Pos,
) -> (r: State)
    ensures
        ({
            let sd = spec_step(p, st, old(data)@, text@, pos);
            r == sd.0 && final(data)@ == sd.1
        }),
{
    let lower = lowercase(text.as_str());
    let l = lower.as_str();
    if str_contains(l, "angka") && str_contains(l, "giliran") {
        State::CandidateId { anchor: pos.y }
    } else if str_contains(l, "gred") {
        State::Grade { anchor: pos.x }
    } else if str_contains(l, "kod") {
        State::SubjectCode { anchor: pos.x }
    } else if p == Pipeline::Cefr && str_contains(l, "tahap") && str_contains(l, "cefr")
        && str_contains(l, ":") {
        State::Cefr { anchor: pos.y }
    } else if p == Pipeline::Cefr && matches_candidate_pattern(l) {
        if data.candidate_id.is_none() {
            data.candidate_id = Some(text.clone());
        }
        st
    } else if accepts_value_at(st, pos) {
        apply_value(st, data, text)
    } else {
        st
    }
}

} // verus!
