use k2f_layout::pt::Pt;
use k2f_layout::style::Style;
use k2f_layout::text_types::{TextLine, TextRun};
use k2f_layout::wrap_loop::{WrapInput, WrapNeed, WrapRuns};

fn run(start: usize, text: &str) -> TextRun {
    TextRun { start, end: start + text.len(), style: Style::default(), text: text.to_string(), math_tex: None }
}

fn math(start: usize, tex: &str) -> TextRun {
    TextRun {
        start,
        end: start + '\u{FFFC}'.len_utf8(),
        style: Style::default(),
        text: "\u{FFFC}".to_string(),
        math_tex: Some(tex.to_string()),
    }
}

/// Drive the wrapper with a monospace measure: every character is 1pt wide.
fn wrap(runs: &[TextRun], max: i128, indent: i128) -> Result<Vec<TextLine>, String> {
    let mut s = WrapRuns::new(runs, Pt(max), Pt(12_000), Pt(indent))?;
    loop {
        let input = match s.need() {
            WrapNeed::Done => return Ok(s.finish()),
            WrapNeed::Step => WrapInput::Nothing,
            WrapNeed::Width(r) => WrapInput::Width(Pt(1000 * r.text.chars().count() as i128)),
            WrapNeed::Math(_) => WrapInput::Math(Pt(2_500), Pt(15_000)),
            WrapNeed::Fit(r, limit) => {
                let fitting = ((limit.0 / 1000).max(1) as usize).min(r.text.chars().count());
                WrapInput::Fit(r.text.char_indices().nth(fitting).map(|(b, _)| b).unwrap_or(r.text.len()))
            }
        };
        s.step(input)?;
    }
}

fn texts(lines: &[TextLine]) -> Vec<String> {
    lines.iter().map(|l| l.runs.iter().map(|r| r.text.as_str()).collect::<String>()).collect()
}

#[test]
fn wraps_at_the_last_space_that_fits() {
    let lines = wrap(&[run(0, "Hello world")], 6_000, 0).unwrap();
    assert_eq!(texts(&lines), vec!["Hello", "world"]);
    assert_eq!(lines[0].width, Pt(5_000));
    assert_eq!(lines[1].width, Pt(5_000));
    // The style's line height (12pt at 1.2) is above the 12pt base.
    assert_eq!(lines[0].height, Pt(14_400));
}

#[test]
fn hard_newlines_break_even_without_a_width_limit() {
    let lines = wrap(&[run(0, "Hello\nworld")], i128::MAX, 0).unwrap();
    assert_eq!(texts(&lines), vec!["Hello", "world"]);
    let one = wrap(&[run(0, "Hello world")], i128::MAX, 0).unwrap();
    assert_eq!(texts(&one), vec!["Hello world"]);
}

#[test]
fn long_words_are_cut_to_the_prefix_that_fits() {
    let lines = wrap(&[run(0, "abcdefgh")], 3_000, 0).unwrap();
    assert_eq!(texts(&lines), vec!["abc", "def", "gh"]);
    assert_eq!(lines[1].runs[0].start, 3);
    assert_eq!(lines[1].runs[0].end, 6);
}

#[test]
fn first_line_gives_up_the_indent() {
    let lines = wrap(&[run(0, "aa bb cc")], 5_000, 2_000).unwrap();
    assert_eq!(texts(&lines), vec!["aa", "bb cc"]);
}

#[test]
fn a_character_wider_than_the_line_goes_on_a_line_alone() {
    // Every character is 1000 wide on a 500 line: each one gets a line of its own.
    let lines = wrap(&[run(0, "ab c")], 500, 0).unwrap();
    assert_eq!(texts(&lines), vec!["a", "b", "c"]);
    assert_eq!(lines[0].width, Pt(1000));
}

#[test]
fn a_fit_past_the_first_character_still_makes_progress() {
    // A shaper that finds no proper prefix (answers the whole word) still gets one character cut.
    let mut s = WrapRuns::new(&[run(0, "xyz")], Pt(500), Pt(12_000), Pt(0)).unwrap();
    let mut steps = 0;
    loop {
        let input = match s.need() {
            WrapNeed::Done => break,
            WrapNeed::Step => WrapInput::Nothing,
            WrapNeed::Width(r) => WrapInput::Width(Pt(1000 * r.text.chars().count() as i128)),
            WrapNeed::Math(_) => WrapInput::Math(Pt(0), Pt(0)),
            WrapNeed::Fit(r, _) => WrapInput::Fit(r.text.len()),
        };
        s.step(input).unwrap();
        steps += 1;
        assert!(steps < 100);
    }
    assert_eq!(texts(&s.finish()), vec!["x", "y", "z"]);
}

#[test]
fn inline_math_joins_the_line_or_is_rejected() {
    let lines = wrap(&[run(0, "x "), math(2, "a^2")], 10_000, 0).unwrap();
    assert_eq!(lines.len(), 1);
    assert_eq!(lines[0].height, Pt(15_000));
    let err = wrap(&[math(0, "a^2")], 2_000, 0).unwrap_err();
    assert_eq!(err, "UNSPLITTABLE_OVERFLOW: inline math 'a^2' is wider than the line");
}

#[test]
fn empty_paragraph_is_one_empty_line() {
    let lines = wrap(&[], 5_000, 0).unwrap();
    assert_eq!(lines.len(), 1);
    assert!(lines[0].runs.is_empty());
    assert_eq!(lines[0].height, Pt(12_000));
}

#[test]
fn wrapping_keeps_every_visible_character_in_order() {
    let lines = wrap(&[run(0, "ab cd\nefghij  k-lm")], 3_000, 1_000).unwrap();
    let all: String = texts(&lines).concat().chars().filter(|c| !c.is_whitespace()).collect();
    assert_eq!(all, "abcdefghijk-lm");
    assert!(lines.len() >= 4);
}

#[test]
fn every_line_fits_the_width_and_the_first_gives_up_the_indent() {
    let text = "the quick brown fox jumps over the lazy dog\nand then some extraordinarily long words";
    for (max, indent) in [(7_000, 0), (7_000, 3_000), (12_000, 4_000), (4_000, 0)] {
        let lines = wrap(&[run(0, text)], max, indent).unwrap();
        for (k, l) in lines.iter().enumerate() {
            let limit = if k == 0 && indent > 0 { (max - indent).max(0) } else { max };
            assert!(l.width.0 <= limit, "line {k} {:?} is {} wide, limit {limit}", texts(&lines)[k], l.width.0);
        }
    }
}
