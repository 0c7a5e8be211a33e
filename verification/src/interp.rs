//! The content stream interpreter: replays a page's drawing operations in
//! stream order, maintaining the selected font, the current position and a
//! text buffer, and hands one trimmed text block to the classifier each time
//! a text object ends.
//!
//! The replay is specified as a fold in two layers: `blocks_fold` turns the
//! operations into the sequence of emitted text blocks, and `classify_fold`
//! runs the classifier over those blocks. The classifier's outcome therefore
//! depends on the operations only through the blocks they emit, which
//! `lemma_result_depends_only_on_blocks` states.

use vstd::prelude::*;
use vstd::string::*;
use crate::classify::{empty_page, spec_step, classify_step, PageData, PageView, Pipeline, State};
use crate::fontmap::{frag_of, FontCache, FontMap};
use crate::pos::Pos;
use crate::text::{trim_spec, trim_str};

verus! {

/// One drawing operation, as far as the replay reads it: font selection,
/// text positioning (the translation component only), text showing, the end
/// of a text object, or any other operation, which the replay ignores.
#[derive(Clone, Debug)]
pub enum Op {
    SelectFont(String),
    SetPos(Pos),
    ShowText(Vec<u8>),
    EndText,
    Other,
}

/// Why replaying a page failed. Each variant keeps the context an operator
/// needs to locate the fault: the font name that was never cached, or the
/// character code without a table entry.
#[derive(Clone, Debug, PartialEq, Eq)]
pub enum ExtractError {
    /// A font-selection operation named a font that is not in the cache.
    MissingFont(String),
    /// A shown character code has no entry in the active font's table.
    CodeNotMapped(u32),
    /// A text-show operand whose byte length is not a multiple of two: the
    /// two-byte code-width assumption is broken for this font.
    UnevenText,
}

/// The mathematical content of an `ExtractError`.
pub ghost enum ExtractErrorView {
    MissingFont(Seq<char>),
    CodeNotMapped(u32),
    UnevenText,
}

impl View for ExtractError {
    type V = ExtractErrorView;

    open spec fn view(&self) -> ExtractErrorView {
        match self {
            ExtractError::MissingFont(name) => ExtractErrorView::MissingFont(name@),
            ExtractError::CodeNotMapped(code) => ExtractErrorView::CodeNotMapped(*code),
            ExtractError::UnevenText => ExtractErrorView::UnevenText,
        }
    }
}

/// A completed text block: the trimmed text of one text object and the
/// position at which it was shown.
pub ghost struct Block {
    pub text: Seq<char>,
    pub pos: Pos,
}

/// The replay state the text layer maintains between operations: the active
/// font's table, the text buffer, and the current position.
pub ghost struct TState {
    pub font: Option<Map<u32, Vec<u8>>>,
    pub buf: Seq<char>,
    pub pos: Pos,
}

/// The state replay starts from: no font, an empty buffer, the origin.
pub open spec fn init_tstate() -> TState {
    TState { font: None, buf: Seq::empty(), pos: Pos { x: 0, y: 0 } }
}

/// The decoding of a text-show operand through a font table: each two-byte
/// big-endian code in turn, each code's fragment decoded with the empty
/// fallback, stopping at the first code without a table entry.
pub open spec fn decode_chunks(m: Map<u32, Vec<u8>>, bytes: Seq<u8>) -> Result<Seq<char>, u32>
    decreases bytes.len(),
{
    if bytes.len() < 2 {
        Ok(Seq::empty())
    } else {
        let code = ((bytes[0] as u32) * 256 + (bytes[1] as u32)) as u32;
        if !m.contains_key(code) {
            Err(code)
        } else {
            match decode_chunks(m, bytes.skip(2)) {
                Ok(rest) => Ok(frag_of(m[code]@) + rest),
                Err(c) => Err(c),
            }
        }
    }
}

/// One operation of the text layer: the next state, and the block emitted
/// when the operation ends a text object.
pub open spec fn text_op(cache: Map<Seq<char>, Map<u32, Vec<u8>>>, t: TState, op: Op) -> Result<
    (TState, Option<Block>),
    ExtractErrorView,
> {
    match op {
        Op::SelectFont(name) => if cache.contains_key(name@) {
            Ok((TState { font: Some(cache[name@]), ..t }, None))
        } else {
            Err(ExtractErrorView::MissingFont(name@))
        },
        Op::SetPos(p) => Ok((TState { pos: p, ..t }, None)),
        Op::ShowText(bytes) => match t.font {
            Some(m) => if bytes@.len() % 2 != 0 {
                Err(ExtractErrorView::UnevenText)
            } else {
                match decode_chunks(m, bytes@) {
                    Ok(frag) => Ok((TState { buf: t.buf + frag, ..t }, None)),
                    Err(c) => Err(ExtractErrorView::CodeNotMapped(c)),
                }
            },
            None => Ok((t, None)),
        },
        Op::EndText => Ok(
            (
                TState { buf: Seq::empty(), ..t },
                Some(Block { text: trim_spec(t.buf), pos: t.pos }),
            ),
        ),
        Op::Other => Ok((t, None)),
    }
}

/// The text layer folded over a sequence of operations: the final state and
/// the blocks emitted, or the first error.
pub open spec fn blocks_fold(cache: Map<Seq<char>, Map<u32, Vec<u8>>>, t: TState, ops: Seq<Op>) -> Result<
    (TState, Seq<Block>),
    ExtractErrorView,
>
    decreases ops.len(),
{
    if ops.len() == 0 {
        Ok((t, Seq::empty()))
    } else {
        match text_op(cache, t, ops.first()) {
            Err(e) => Err(e),
            Ok(step) => match blocks_fold(cache, step.0, ops.drop_first()) {
                Err(e) => Err(e),
                Ok(rest) => Ok(
                    (
                        rest.0,
                        match step.1 {
                            Some(b) => seq![b] + rest.1,
                            None => rest.1,
                        },
                    ),
                ),
            },
        }
    }
}

/// The classifier folded over a sequence of blocks, from a state and an
/// accumulator.
pub open spec fn classify_fold(p: Pipeline, st: State, d: PageView, bs: Seq<Block>) -> (
    State,
    PageView,
)
    decreases bs.len(),
{
    if bs.len() == 0 {
        (st, d)
    } else {
        let sd = spec_step(p, st, d, bs.first().text, bs.first().pos);
        classify_fold(p, sd.0, sd.1, bs.drop_first())
    }
}

/// The sequence of text blocks a page's operations emit, or the first
/// replay error.
pub open spec fn page_blocks(cache: Map<Seq<char>, Map<u32, Vec<u8>>>, ops: Seq<Op>) -> Result<
    Seq<Block>,
    ExtractErrorView,
> {
    match blocks_fold(cache, init_tstate(), ops) {
        Ok(r) => Ok(r.1),
        Err(e) => Err(e),
    }
}

/// The page data a page's operations yield under a pipeline, or the first
/// replay error.
pub open spec fn spec_run_page(
    p: Pipeline,
    cache: Map<Seq<char>, Map<u32, Vec<u8>>>,
    ops: Seq<Op>,
) -> Result<PageView, ExtractErrorView> {
    match page_blocks(cache, ops) {
        Ok(bs) => Ok(classify_fold(p, State::Unknown, empty_page(), bs).1),
        Err(e) => Err(e),
    }
}

/// The classifier's outcome depends only on the emitted blocks: two
/// operation sequences over two font caches that emit the same blocks (or
/// fail with the same error) yield the same page result under every
/// pipeline.
pub proof fn lemma_result_depends_only_on_blocks(
    p: Pipeline,
    cache1: Map<Seq<char>, Map<u32, Vec<u8>>>,
    ops1: Seq<Op>,
    cache2: Map<Seq<char>, Map<u32, Vec<u8>>>,
    ops2: Seq<Op>,
)
    requires
        page_blocks(cache1, ops1) == page_blocks(cache2, ops2),
    ensures
        spec_run_page(p, cache1, ops1) == spec_run_page(p, cache2, ops2),
        (match (page_blocks(cache1, ops1), page_blocks(cache2, ops2)) {
            (Ok(b1), Ok(b2)) => classify_fold(p, State::Unknown, empty_page(), b1) == classify_fold(
                p,
                State::Unknown,
                empty_page(),
                b2,
            ),
            _ => true,
        }),
{
}

/// Decodes one text-show operand through the active font: the concatenation
/// of the fragments of its two-byte codes, or the first code without a
/// table entry.
fn decode_show_text(fm: &FontMap, bytes: &Vec<u8>) -> (r: Result<String, u32>)
    requires
        bytes@.len() % 2 == 0,
    ensures
        match r {
            Ok(s) => decode_chunks(fm@, bytes@) == Ok::<Seq<char>, u32>(s@),
            Err(c) => decode_chunks(fm@, bytes@) == Err::<Seq<char>, u32>(c),
        },
{
    let mut out = String::new();
    let len = bytes.len();
    let mut i: usize = 0;
    proof {
        assert(bytes@.skip(0) =~= bytes@);
        match decode_chunks(fm@, bytes@) {
            Ok(rest) => {
                assert(out@ + rest =~= rest);
            },
            Err(_) => {},
        }
    }
    while i < len
        invariant
            len == bytes@.len(),
            len % 2 == 0,
            i % 2 == 0,
            0 <= i <= len,
            decode_chunks(fm@, bytes@) == (match decode_chunks(fm@, bytes@.skip(i as int)) {
                Ok(rest) => Ok::<Seq<char>, u32>(out@ + rest),
                Err(c) => Err::<Seq<char>, u32>(c),
            }),
        decreases len - i,
    {
        proof {
            assert(bytes@.skip(i as int).len() >= 2);
            assert(bytes@.skip(i as int)[0] == bytes@[i as int]);
            assert(bytes@.skip(i as int)[1] == bytes@[i as int + 1]);
            assert(bytes@.skip(i as int).skip(2) =~= bytes@.skip(i as int + 2));
        }
        let code: u32 = (bytes[i] as u32) * 256 + (bytes[i + 1] as u32);
        let ghost out_old = out@;
        match fm.decode_code(code) {
            Some(frag) => {
                out.append(frag.as_str());
            },
            None => {
                return Err(code);
            },
        }
        proof {
            match decode_chunks(fm@, bytes@.skip(i as int + 2)) {
                Ok(rest) => {
                    assert((out_old + frag_of(fm@[code]@)) + rest =~= out_old + (frag_of(
                        fm@[code]@,
                    ) + rest));
                },
                Err(_) => {},
            }
        }
        i = i + 2;
    }
    proof {
        assert(bytes@.skip(len as int) =~= Seq::<u8>::empty());
        assert(out@ + Seq::<char>::empty() =~= out@);
    }
    Ok(out)
}

/// The view of the optionally borrowed active font.
pub open spec fn font_view(f: Option<&FontMap>) -> Option<Map<u32, Vec<u8>>> {
    match f {
        Some(fm) => Some(fm@),
        None => None,
    }
}

/// Replays one page's operations under a pipeline and returns the page's
/// accumulated data, or the first replay error. The result equals the
/// specification fold of the operations over the cache.
pub fn run_page(p: Pipeline, ops: &Vec<Op>, cache: &FontCache) -> (r: Result<
    PageData,
    ExtractError,
>)
    ensures
        match r {
            Ok(d) => spec_run_page(p, cache@, ops@) == Ok::<PageView, ExtractErrorView>(d@),
            Err(e) => spec_run_page(p, cache@, ops@) == Err::<PageView, ExtractErrorView>(e@),
        },
{
    let mut current_font: Option<&FontMap> = None;
    let mut buf = String::new();
    let mut pos = Pos::new(0, 0);
    let mut st = State::Unknown;
    let mut data = PageData::new();
    let n = ops.len();
    let mut i: usize = 0;
    proof {
        assert(ops@.skip(0) =~= ops@);
        assert(buf@ =~= Seq::<char>::empty());
        assert(TState { font: font_view(current_font), buf: buf@, pos: pos } == init_tstate());
    }
    while i < n
        invariant
            n == ops@.len(),
            0 <= i <= n,
            spec_run_page(p, cache@, ops@) == (match blocks_fold(
                cache@,
                TState { font: font_view(current_font), buf: buf@, pos: pos },
                ops@.skip(i as int),
            ) {
                Ok(rest) => Ok::<PageView, ExtractErrorView>(classify_fold(p, st, data@, rest.1).1),
                Err(e) => Err::<PageView, ExtractErrorView>(e),
            }),
        decreases n - i,
    {
        proof {
            assert(ops@.skip(i as int).first() == ops@[i as int]);
            assert(ops@.skip(i as int).drop_first() =~= ops@.skip(i as int + 1));
        }
        let ghost t_old = TState { font: font_view(current_font), buf: buf@, pos: pos };
        match &ops[i] {
            Op::SelectFont(name) => {
                match cache.lookup(name) {
                    Some(fm) => {
                        current_font = Some(fm);
                    },
                    None => {
                        return Err(ExtractError::MissingFont(name.clone()));
                    },
                }
            },
            Op::SetPos(np) => {
                pos = *np;
            },
            Op::ShowText(bytes) => {
                match current_font {
                    Some(fm) => {
                        if bytes.len() % 2 != 0 {
                            return Err(ExtractError::UnevenText);
                        }
                        match decode_show_text(fm, bytes) {
                            Ok(frag) => {
                                buf.append(frag.as_str());
                            },
                            Err(code) => {
                                return Err(ExtractError::CodeNotMapped(code));
                            },
                        }
                    },
                    None => {},
                }
            },
            Op::EndText => {
                let ghost b = Block { text: trim_spec(buf@), pos: pos };
                let ghost st_old = st;
                let ghost d_old = data@;
                let trimmed = trim_str(buf.as_str());
                st = classify_step(p, st, &mut data, &trimmed, pos);
                buf = String::new();
                proof {
                    let t_new = TState { font: font_view(current_font), buf: buf@, pos: pos };
                    match blocks_fold(cache@, t_new, ops@.skip(i as int + 1)) {
                        Ok(rest) => {
                            assert((seq![b] + rest.1).first() == b);
                            assert((seq![b] + rest.1).drop_first() =~= rest.1);
                            assert(classify_fold(p, st_old, d_old, seq![b] + rest.1) == classify_fold(
                                p,
                                st,
                                data@,
                                rest.1,
                            ));
                        },
                        Err(e) => {},
                    }
                }
            },
            Op::Other => {},
        }
        i = i + 1;
    }
    proof {
        assert(ops@.skip(n as int) =~= Seq::<Op>::empty());
    }
    Ok(data)
}

} // verus!
