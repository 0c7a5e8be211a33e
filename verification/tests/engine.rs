use exam_extract::classify::{classify_step, PageData, Pipeline, State};
use exam_extract::fontmap::{FontCache, FontMap};
use exam_extract::interp::{run_page, ExtractError, Op};
use exam_extract::pos::Pos;

fn utf16be(s: &str) -> Vec<u8> {
    s.encode_utf16().flat_map(|u| u.to_be_bytes()).collect()
}

/// A cache with one font, "F1", whose code `n` shows the n-th of the given
/// fragments.
fn cache_of(fragments: &[&str]) -> FontCache {
    let pairs = fragments
        .iter()
        .enumerate()
        .map(|(n, s)| (n as u32, utf16be(s)))
        .collect();
    let mut cache = FontCache::new();
    cache.add_font("F1".to_string(), FontMap::from_pairs(pairs));
    cache
}

fn code(n: u16) -> Vec<u8> {
    n.to_be_bytes().to_vec()
}

fn show_block(ops: &mut Vec<Op>, n: u16, x: i64, y: i64) {
    ops.push(Op::SetPos(Pos::new(x, y)));
    ops.push(Op::ShowText(code(n)));
    ops.push(Op::EndText);
}

#[test]
fn grades_page_end_to_end() {
    // Blocks in order: label "Angka Giliran" at y=700, value "WL001D001" at
    // y=700, label "Kod" at x=50, value "1103" at x=50, label "Gred" at
    // x=50, value "A" at x=50.
    let cache = cache_of(&["Angka Giliran", "WL001D001", "Kod", "1103", "Gred", "A"]);
    let mut ops = vec![Op::SelectFont("F1".to_string())];
    show_block(&mut ops, 0, 10, 700);
    show_block(&mut ops, 1, 200, 700);
    show_block(&mut ops, 2, 50, 650);
    show_block(&mut ops, 3, 50, 600);
    show_block(&mut ops, 4, 50, 550);
    show_block(&mut ops, 5, 50, 500);
    let data = run_page(Pipeline::Grades, &ops, &cache).expect("page replays");
    assert_eq!(data.candidate_id, Some("WL001D001".to_string()));
    assert_eq!(data.subject_labels, vec!["1103".to_string()]);
    assert_eq!(data.grades, vec!["A".to_string()]);
    assert_eq!(data.cefr_band, None);
}

#[test]
fn cefr_page_end_to_end() {
    // Label "Tahap CEFR:" at y=300, value "B2" at y=300, value "C1" at
    // y=300 (ignored: first wins), candidate-pattern block elsewhere.
    let cache = cache_of(&["Tahap CEFR:", "B2", "C1", "WL002D002"]);
    let mut ops = vec![Op::SelectFont("F1".to_string())];
    show_block(&mut ops, 0, 10, 300);
    show_block(&mut ops, 1, 100, 300);
    show_block(&mut ops, 2, 150, 300);
    show_block(&mut ops, 3, 10, 100);
    let data = run_page(Pipeline::Cefr, &ops, &cache).expect("page replays");
    assert_eq!(data.candidate_id, Some("WL002D002".to_string()));
    assert_eq!(data.cefr_band, Some("B2".to_string()));
}

#[test]
fn cefr_rules_are_not_applied_in_grades_pipeline() {
    let cache = cache_of(&["Tahap CEFR:", "B2", "WL002D002"]);
    let mut ops = vec![Op::SelectFont("F1".to_string())];
    show_block(&mut ops, 0, 10, 300);
    show_block(&mut ops, 1, 100, 300);
    show_block(&mut ops, 2, 10, 100);
    let data = run_page(Pipeline::Grades, &ops, &cache).expect("page replays");
    assert_eq!(data.candidate_id, None);
    assert_eq!(data.cefr_band, None);
}

#[test]
fn anchor_mismatch_drops_value() {
    // "Gred" establishes x=50; a value at x=51 fails the exact-equality
    // anchor test and is dropped, not recorded.
    let cache = cache_of(&["Gred", "A", "B"]);
    let mut ops = vec![Op::SelectFont("F1".to_string())];
    show_block(&mut ops, 0, 50, 700);
    show_block(&mut ops, 1, 51, 650);
    show_block(&mut ops, 2, 50, 600);
    let data = run_page(Pipeline::Grades, &ops, &cache).expect("page replays");
    assert_eq!(data.grades, vec!["B".to_string()]);
}

#[test]
fn label_keywords_are_matched_case_insensitively() {
    let cache = cache_of(&["GRED", "A"]);
    let mut ops = vec![Op::SelectFont("F1".to_string())];
    show_block(&mut ops, 0, 50, 700);
    show_block(&mut ops, 1, 50, 650);
    let data = run_page(Pipeline::Grades, &ops, &cache).expect("page replays");
    assert_eq!(data.grades, vec!["A".to_string()]);
}

#[test]
fn label_priority_prefers_candidate_id_then_grade() {
    // A block holding "angka", "giliran" and "gred" reclassifies to the
    // candidate-id state, not the grade state.
    let cache = cache_of(&["Angka Giliran Gred", "WL003D003"]);
    let mut ops = vec![Op::SelectFont("F1".to_string())];
    show_block(&mut ops, 0, 10, 700);
    show_block(&mut ops, 1, 200, 700);
    let data = run_page(Pipeline::Grades, &ops, &cache).expect("page replays");
    assert_eq!(data.candidate_id, Some("WL003D003".to_string()));
    assert_eq!(data.grades, Vec::<String>::new());
}

#[test]
fn non_numeric_subject_codes_are_dropped() {
    let cache = cache_of(&["Kod", "1103", "stray", "2113"]);
    let mut ops = vec![Op::SelectFont("F1".to_string())];
    show_block(&mut ops, 0, 50, 700);
    show_block(&mut ops, 1, 50, 650);
    show_block(&mut ops, 2, 50, 600);
    show_block(&mut ops, 3, 50, 550);
    let data = run_page(Pipeline::Grades, &ops, &cache).expect("page replays");
    assert_eq!(
        data.subject_labels,
        vec!["1103".to_string(), "2113".to_string()]
    );
}

#[test]
fn candidate_id_is_not_overwritten() {
    let cache = cache_of(&["Angka Giliran", "WL001D001", "WL009D009"]);
    let mut ops = vec![Op::SelectFont("F1".to_string())];
    show_block(&mut ops, 0, 10, 700);
    show_block(&mut ops, 1, 200, 700);
    show_block(&mut ops, 2, 300, 700);
    let data = run_page(Pipeline::Grades, &ops, &cache).expect("page replays");
    assert_eq!(data.candidate_id, Some("WL001D001".to_string()));
}

#[test]
fn text_is_buffered_across_shows_and_trimmed() {
    let cache = cache_of(&["  Gr", "ed  "]);
    let mut ops = vec![Op::SelectFont("F1".to_string())];
    ops.push(Op::SetPos(Pos::new(50, 700)));
    ops.push(Op::ShowText(code(0)));
    ops.push(Op::ShowText(code(1)));
    ops.push(Op::EndText);
    show_block(&mut ops, 0, 50, 650);
    let data = run_page(Pipeline::Grades, &ops, &cache).expect("page replays");
    // "  Gr" + "ed  " trims to "Gred": a label, so the block at x=50 is a
    // grade value ("  Gr" trimmed to "Gr").
    assert_eq!(data.grades, vec!["Gr".to_string()]);
}

#[test]
fn font_switch_inside_a_text_object_changes_decoding() {
    let mut cache = FontCache::new();
    cache.add_font("F1".to_string(), FontMap::from_pairs(vec![(1, utf16be("Gr"))]));
    cache.add_font("F2".to_string(), FontMap::from_pairs(vec![(1, utf16be("ed"))]));
    let ops = vec![
        Op::SetPos(Pos::new(50, 700)),
        Op::SelectFont("F1".to_string()),
        Op::ShowText(code(1)),
        Op::SelectFont("F2".to_string()),
        Op::ShowText(code(1)),
        Op::EndText,
        Op::SelectFont("F1".to_string()),
        Op::SetPos(Pos::new(50, 650)),
        Op::ShowText(code(1)),
        Op::EndText,
    ];
    let data = run_page(Pipeline::Grades, &ops, &cache).expect("page replays");
    assert_eq!(data.grades, vec!["Gr".to_string()]);
}

#[test]
fn show_before_font_selection_is_ignored() {
    let cache = cache_of(&["Gred"]);
    let mut ops = vec![Op::SetPos(Pos::new(50, 700)), Op::ShowText(code(0)), Op::EndText];
    ops.push(Op::SelectFont("F1".to_string()));
    let data = run_page(Pipeline::Grades, &ops, &cache).expect("page replays");
    assert_eq!(data.grades, Vec::<String>::new());
    assert!(matches!(
        run_page(Pipeline::Grades, &vec![Op::ShowText(vec![1])], &cache),
        Ok(_)
    ));
}

#[test]
fn missing_font_is_an_error() {
    let cache = cache_of(&["x"]);
    let ops = vec![Op::SelectFont("F9".to_string())];
    assert_eq!(
        run_page(Pipeline::Grades, &ops, &cache),
        Err(ExtractError::MissingFont("F9".to_string()))
    );
}

#[test]
fn unmapped_code_is_an_error() {
    let cache = cache_of(&["x"]);
    let ops = vec![
        Op::SelectFont("F1".to_string()),
        Op::ShowText(code(40)),
        Op::EndText,
    ];
    assert_eq!(
        run_page(Pipeline::Grades, &ops, &cache),
        Err(ExtractError::CodeNotMapped(40))
    );
}

#[test]
fn uneven_text_operand_is_an_error() {
    let cache = cache_of(&["x"]);
    let ops = vec![Op::SelectFont("F1".to_string()), Op::ShowText(vec![0, 0, 1])];
    assert_eq!(
        run_page(Pipeline::Grades, &ops, &cache),
        Err(ExtractError::UnevenText)
    );
}

#[test]
fn result_depends_only_on_emitted_blocks() {
    // Two different operator sequences over two different caches that emit
    // the same (text, position) blocks classify identically.
    let cache1 = cache_of(&["Gred", "A"]);
    let mut ops1 = vec![Op::SelectFont("F1".to_string())];
    show_block(&mut ops1, 0, 50, 700);
    show_block(&mut ops1, 1, 50, 650);

    let mut cache2 = FontCache::new();
    cache2.add_font(
        "G".to_string(),
        FontMap::from_pairs(vec![(9, utf16be("Gr")), (10, utf16be("ed")), (11, utf16be("A"))]),
    );
    let ops2 = vec![
        Op::Other,
        Op::SelectFont("G".to_string()),
        Op::SetPos(Pos::new(50, 700)),
        Op::ShowText(code(9)),
        Op::Other,
        Op::ShowText(code(10)),
        Op::EndText,
        Op::SetPos(Pos::new(50, 650)),
        Op::ShowText(code(11)),
        Op::EndText,
    ];
    let d1 = run_page(Pipeline::Grades, &ops1, &cache1).expect("page replays");
    let d2 = run_page(Pipeline::Grades, &ops2, &cache2).expect("page replays");
    assert_eq!(d1.candidate_id, d2.candidate_id);
    assert_eq!(d1.subject_labels, d2.subject_labels);
    assert_eq!(d1.grades, d2.grades);
    assert_eq!(d1.cefr_band, d2.cefr_band);
}

#[test]
fn classify_step_is_callable_directly() {
    let mut data = PageData::new();
    let st = classify_step(
        Pipeline::Grades,
        State::Unknown,
        &mut data,
        &"Gred".to_string(),
        Pos::new(50, 700),
    );
    assert_eq!(st, State::Grade { anchor: 50 });
    let st = classify_step(Pipeline::Grades, st, &mut data, &"B".to_string(), Pos::new(50, 600));
    assert_eq!(st, State::Grade { anchor: 50 });
    assert_eq!(data.grades, vec!["B".to_string()]);
}
