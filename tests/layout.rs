use script_extractor::layout::{analyze_layout, ParseError, PositionedLine};

fn line(top: i32, left: i32, page: u32, text: &str) -> PositionedLine {
    PositionedLine { top, left, height: 12, page, text: text.to_string() }
}

fn repeated(left: i32, count: usize, lines: &mut Vec<PositionedLine>) {
    for i in 0..count {
        lines.push(line(100 + 12 * (i as i32 % 50), left, 1 + (i as u32 / 50), "x"));
    }
}

#[test]
fn two_columns_are_ambiguous() {
    let lines = vec![line(10, 100, 1, "a"), line(22, 200, 1, "b"), line(34, 100, 1, "c")];
    assert_eq!(analyze_layout(&lines), Err(ParseError::AmbiguousLayout));
}

#[test]
fn no_lines_are_ambiguous() {
    assert_eq!(analyze_layout(&Vec::new()), Err(ParseError::AmbiguousLayout));
}

#[test]
fn columns_are_ordered_by_offset_not_frequency() {
    let mut lines = Vec::new();
    repeated(100, 50, &mut lines);
    repeated(200, 80, &mut lines);
    repeated(300, 60, &mut lines);
    let p = analyze_layout(&lines).unwrap();
    assert_eq!(p.direction_position, 100);
    assert_eq!(p.dialog_position, 200);
    assert_eq!(p.speaker_position, 300);
    assert_eq!(p.speaker_direction_position, 0);
}

#[test]
fn fourth_column_between_dialog_and_speaker_is_speaker_direction() {
    let mut lines = Vec::new();
    repeated(100, 50, &mut lines);
    repeated(200, 80, &mut lines);
    repeated(300, 60, &mut lines);
    repeated(150, 20, &mut lines);
    repeated(260, 5, &mut lines);
    repeated(250, 10, &mut lines);
    let p = analyze_layout(&lines).unwrap();
    assert_eq!(p.speaker_direction_position, 250);
}

#[test]
fn less_frequent_columns_do_not_displace_the_top_three() {
    let mut lines = Vec::new();
    repeated(50, 3, &mut lines);
    repeated(100, 10, &mut lines);
    repeated(200, 10, &mut lines);
    repeated(300, 10, &mut lines);
    let p = analyze_layout(&lines).unwrap();
    assert_eq!((p.direction_position, p.dialog_position, p.speaker_position), (100, 200, 300));
}

#[test]
fn equal_counts_prefer_the_smaller_offset() {
    let lines = vec![
        line(10, 400, 1, "a"),
        line(22, 300, 1, "b"),
        line(34, 200, 1, "c"),
        line(46, 100, 1, "d"),
    ];
    let p = analyze_layout(&lines).unwrap();
    assert_eq!((p.direction_position, p.dialog_position, p.speaker_position), (100, 200, 300));
}

#[test]
fn paragraph_height_is_the_most_frequent_step() {
    let lines = vec![
        line(100, 100, 1, "a"),
        line(112, 100, 1, "b"),
        line(124, 200, 1, "c"),
        line(160, 300, 1, "d"),
        line(172, 300, 1, "e"),
    ];
    let p = analyze_layout(&lines).unwrap();
    assert_eq!(p.intra_paragraph_line_height, 12);
}

#[test]
fn paragraph_height_restarts_on_each_page() {
    let lines = vec![
        line(30, 100, 1, "a"),
        line(30, 200, 2, "b"),
        line(30, 300, 3, "c"),
        line(42, 300, 3, "d"),
    ];
    let p = analyze_layout(&lines).unwrap();
    assert_eq!(p.intra_paragraph_line_height, 30);
}

#[test]
fn paragraph_height_tie_prefers_the_smaller_step() {
    let lines = vec![
        line(20, 100, 1, "a"),
        line(30, 200, 1, "b"),
        line(10, 300, 2, "c"),
        line(30, 300, 2, "d"),
    ];
    let p = analyze_layout(&lines).unwrap();
    assert_eq!(p.intra_paragraph_line_height, 10);
}
