use k2f_layout::pt::Pt;
use k2f_layout::style::TextAlign;
use k2f_layout::text_align::{justify_space_extras, line_start_offset, JustifyBudget};

#[test]
fn line_start_offset_is_deterministic_and_non_negative() {
    let node_width = Pt(100);
    let line_width = Pt(40);

    assert_eq!(line_start_offset(TextAlign::Start, node_width, line_width), Pt(0));
    assert_eq!(line_start_offset(TextAlign::Center, node_width, line_width), Pt(30));
    assert_eq!(line_start_offset(TextAlign::End, node_width, line_width), Pt(60));
    assert_eq!(line_start_offset(TextAlign::Justify, node_width, line_width), Pt(0));

    // When the line is wider than the node, offset is clamped to 0.
    assert_eq!(line_start_offset(TextAlign::End, Pt(50), Pt(120)), Pt(0));
}

#[test]
fn justify_extras_only_on_non_last_lines_with_spaces() {
    assert_eq!(justify_space_extras(TextAlign::Justify, Pt(100), Pt(40), 3, false), (Pt(20), 0));
    assert_eq!(justify_space_extras(TextAlign::Justify, Pt(100), Pt(40), 3, true), (Pt(0), 0));
    assert_eq!(justify_space_extras(TextAlign::Start, Pt(100), Pt(40), 3, false), (Pt(0), 0));
    assert_eq!(justify_space_extras(TextAlign::Justify, Pt(100), Pt(40), 0, false), (Pt(0), 0));
    // 61 free / 2 spaces => 30 each + remainder 1
    assert_eq!(justify_space_extras(TextAlign::Justify, Pt(100), Pt(39), 2, false), (Pt(30), 1));
}

#[test]
fn justify_budget_hands_out_remainder_first() {
    let mut b = JustifyBudget { extra_per: Pt(30), rem: 1 };
    assert_eq!(b.take_space_extra(), Pt(31));
    assert_eq!(b.take_space_extra(), Pt(30));
    let mut z = JustifyBudget { extra_per: Pt(0), rem: 0 };
    assert_eq!(z.take_space_extra(), Pt(0));
}
