use k2f_layout::pt::Pt;
use k2f_layout::style::Style;
use k2f_layout::text_types::{TextLine, TextRun};
use k2f_layout::wrap::{
    break_at, flush_line, flush_line_preformatted, next_line_width, pieces_advance, push_piece, recompute_line_metrics,
    BreakPoint, Piece,
};
use k2f_layout::wrap_tokenize::{split_run_for_wrapping, utf8_len, FragKind};

fn run(start: usize, text: &str) -> TextRun {
    TextRun { start, end: start + text.len(), style: Style::default(), text: text.to_string(), math_tex: None }
}

fn kinds_and_texts(r: &TextRun) -> Vec<(FragKind, Option<(usize, usize, String)>)> {
    split_run_for_wrapping(r)
        .into_iter()
        .map(|f| (f.kind, f.run.map(|x| (x.start, x.end, x.text))))
        .collect()
}

#[test]
fn tokenizer_groups_whitespace_and_breaks_after_hyphens() {
    let frags = kinds_and_texts(&run(10, "well-known  words\nend"));
    assert_eq!(
        frags,
        vec![
            (FragKind::Text, Some((10, 15, "well-".to_string()))),
            (FragKind::Text, Some((15, 20, "known".to_string()))),
            (FragKind::Whitespace, Some((20, 22, "  ".to_string()))),
            (FragKind::Text, Some((22, 27, "words".to_string()))),
            (FragKind::Newline, None),
            (FragKind::Text, Some((28, 31, "end".to_string()))),
        ]
    );
}

#[test]
fn tokenizer_offsets_are_utf8_bytes() {
    let frags = kinds_and_texts(&run(0, "\u{e9}t\u{e9} \u{1F642}"));
    assert_eq!(
        frags,
        vec![
            (FragKind::Text, Some((0, 5, "\u{e9}t\u{e9}".to_string()))),
            (FragKind::Whitespace, Some((5, 6, " ".to_string()))),
            (FragKind::Text, Some((6, 10, "\u{1F642}".to_string()))),
        ]
    );
    assert_eq!(utf8_len('a'), 1);
    assert_eq!(utf8_len('\u{e9}'), 2);
    assert_eq!(utf8_len('\u{20AC}'), 3);
    assert_eq!(utf8_len('\u{1F642}'), 4);
}

#[test]
fn tokenizer_keeps_math_runs_whole_and_splits_crlf_twice() {
    let mut m = run(3, "\u{FFFC}");
    m.math_tex = Some("x^2".to_string());
    let frags = split_run_for_wrapping(&m);
    assert_eq!(frags.len(), 1);
    assert_eq!(frags[0].kind, FragKind::Atom);
    assert_eq!(frags[0].run.as_ref().unwrap().math_tex.as_deref(), Some("x^2"));

    let kinds: Vec<FragKind> = split_run_for_wrapping(&run(0, "a\r\nb")).into_iter().map(|f| f.kind).collect();
    assert_eq!(kinds, vec![FragKind::Text, FragKind::Newline, FragKind::Newline, FragKind::Text]);
    assert!(split_run_for_wrapping(&run(0, "")).is_empty());
}

fn piece(kind: FragKind, start: usize, text: &str, width: i128, height: i128) -> Piece {
    Piece { kind, run: run(start, text), width: Pt(width), height: Pt(height) }
}

#[test]
fn line_width_includes_tracking_between_merging_pieces() {
    let mut a = piece(FragKind::Text, 0, "ab", 2_000, 10);
    let mut b = piece(FragKind::Whitespace, 2, " ", 500, 10);
    a.run.style.letter_spacing = Pt(100);
    b.run.style.letter_spacing = Pt(100);
    let line = vec![a, b];
    // "ab" and " " touch and share a style: one tracking step joins them.
    assert_eq!(pieces_advance(&line).0, 2_000 + 100 + 500);
    let next = run(3, "c");
    let mut next_styled = next.clone();
    next_styled.style.letter_spacing = Pt(100);
    assert_eq!(next_line_width(&line, Pt(2_600), Pt(700), &next_styled).0, 2_600 + 100 + 700);
    // A run with another style does not merge: no tracking.
    assert_eq!(next_line_width(&line, Pt(2_600), Pt(700), &next).0, 3_300);
}

#[test]
fn push_piece_records_break_after_whitespace_and_keeps_base_height() {
    let mut line = Vec::new();
    let mut w = Pt(0);
    let mut h = Pt(12_000);
    let mut bp = None;
    push_piece(&mut line, &mut w, &mut h, piece(FragKind::Text, 0, "ab", 1_000, 5_000), Pt(12_000), &mut bp);
    assert_eq!((w.0, h.0), (1_000, 12_000));
    assert!(bp.is_none());
    push_piece(&mut line, &mut w, &mut h, piece(FragKind::Whitespace, 2, " ", 300, 20_000), Pt(12_000), &mut bp);
    assert_eq!((w.0, h.0), (1_300, 20_000));
    assert_eq!(bp, Some(BreakPoint { line_len_excluding_ws: 1, next_start: 2 }));
}

#[test]
fn flush_line_trims_trailing_whitespace_and_merges_runs() {
    let mut out: Vec<TextLine> = Vec::new();
    let mut line = vec![
        piece(FragKind::Text, 0, "ab", 1_000, 14_000),
        piece(FragKind::Whitespace, 2, " ", 300, 14_000),
        piece(FragKind::Text, 3, "cd", 1_000, 14_000),
        piece(FragKind::Whitespace, 5, " ", 300, 14_000),
    ];
    let mut w = Pt(2_600);
    let mut h = Pt(14_000);
    flush_line(&mut out, &mut line, &mut w, &mut h, Pt(12_000));
    assert_eq!(out.len(), 1);
    assert_eq!(out[0].runs.len(), 1);
    assert_eq!(out[0].runs[0].text, "ab cd");
    assert_eq!((out[0].runs[0].start, out[0].runs[0].end), (0, 5));
    assert_eq!(out[0].width.0, 2_300);
    assert_eq!(out[0].height.0, 14_000);
    assert!(line.is_empty());
    assert_eq!((w.0, h.0), (0, 12_000));

    // An empty line still produces a line of base height.
    flush_line(&mut out, &mut line, &mut w, &mut h, Pt(12_000));
    assert_eq!(out[1].runs.len(), 0);
    assert_eq!((out[1].width.0, out[1].height.0), (0, 12_000));
}

#[test]
fn break_at_moves_the_tail_to_the_next_line() {
    let mut out: Vec<TextLine> = Vec::new();
    let mut line = vec![
        piece(FragKind::Text, 0, "ab", 1_000, 12_000),
        piece(FragKind::Whitespace, 2, " ", 300, 12_000),
        piece(FragKind::Text, 3, "cd", 900, 18_000),
    ];
    let mut w = Pt(2_200);
    let mut h = Pt(18_000);
    break_at(BreakPoint { line_len_excluding_ws: 1, next_start: 2 }, &mut out, &mut line, &mut w, &mut h, Pt(12_000));
    assert_eq!(out.len(), 1);
    assert_eq!(out[0].runs[0].text, "ab");
    assert_eq!(out[0].width.0, 1_000);
    assert_eq!(line.len(), 1);
    assert_eq!(line[0].run.text, "cd");
    assert_eq!((w.0, h.0), (900, 18_000));

    let mut w2 = Pt(0);
    let mut h2 = Pt(0);
    recompute_line_metrics(&line, &mut w2, &mut h2, Pt(20_000));
    assert_eq!((w2.0, h2.0), (900, 20_000));
}

#[test]
fn preformatted_flush_keeps_runs_verbatim() {
    let mut out = Vec::new();
    let mut runs = vec![run(0, "  x  ")];
    let mut w = Pt(5_000);
    let mut h = Pt(9_000);
    flush_line_preformatted(&mut out, &mut runs, &mut w, &mut h, Pt(12_000));
    assert_eq!(out[0].runs[0].text, "  x  ");
    assert_eq!((out[0].width.0, out[0].height.0), (5_000, 12_000));
    assert!(runs.is_empty());
    assert_eq!((w.0, h.0), (0, 12_000));
    flush_line_preformatted(&mut out, &mut runs, &mut w, &mut h, Pt(12_000));
    assert_eq!((out[1].width.0, out[1].height.0), (0, 12_000));
}
