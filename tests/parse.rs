use script_extractor::filter::filter_script;
use script_extractor::fold::extract_scenes;
use script_extractor::layout::{ParseError, PositionedLine, ScriptProperties};
use script_extractor::location::extract_location;
use script_extractor::model::{DialogPart, Location, LocationType, ScenePart};
use script_extractor::parse_script;
use script_extractor::tokens::{extract_script_parts, is_location_change, is_scene_change, ScriptPart};

const DIRECTION: i32 = 100;
const DIALOG: i32 = 200;
const PAREN: i32 = 250;
const SPEAKER: i32 = 300;

fn props() -> ScriptProperties {
    ScriptProperties {
        direction_position: DIRECTION,
        dialog_position: DIALOG,
        speaker_direction_position: PAREN,
        speaker_position: SPEAKER,
        intra_paragraph_line_height: 12,
    }
}

fn line(top: i32, left: i32, page: u32, text: &str) -> PositionedLine {
    PositionedLine { top, left, height: 12, page, text: text.to_string() }
}

fn direction(text: &str, page: u32) -> ScenePart {
    ScenePart::Direction { direction: text.to_string(), page }
}

#[test]
fn end_to_end_one_scene() {
    let lines = vec![
        line(10, DIRECTION, 1, "EXT. PARK - DAY"),
        line(22, DIRECTION, 1, "A dog runs."),
        line(34, SPEAKER, 1, "ALICE"),
        line(46, DIALOG, 1, "Hello!"),
    ];
    let script = parse_script(&lines).unwrap();
    assert_eq!(script.len(), 1);
    assert_eq!(script[0].len(), 1);
    let loc = &script[0][0];
    assert_eq!(loc.kind, LocationType::External);
    assert_eq!(loc.name, "PARK - DAY");
    assert_eq!(
        loc.parts,
        vec![
            direction("A dog runs.", 1),
            ScenePart::Dialog {
                speaker: "ALICE".to_string(),
                dialog: vec![DialogPart::Dialog("Hello!".to_string())],
                page: 1,
            },
        ]
    );
}

#[test]
fn parse_rejects_two_columns() {
    let lines = vec![line(10, DIRECTION, 1, "A"), line(22, SPEAKER, 1, "B")];
    assert_eq!(parse_script(&lines), Err(ParseError::AmbiguousLayout));
}

#[test]
fn single_direction_line_folds_into_placeholder() {
    let lines = vec![line(30, DIRECTION, 4, "Rain falls.")];
    let script = extract_scenes(&extract_script_parts(&props(), &lines));
    assert_eq!(
        script,
        vec![vec![Location {
            kind: LocationType::Undefined,
            name: String::new(),
            parts: vec![direction("Rain falls.", 4)],
        }]]
    );
}

#[test]
fn close_direction_lines_merge() {
    let lines = vec![line(10, DIRECTION, 1, "A dog"), line(22, DIRECTION, 1, "runs.")];
    let parts = extract_script_parts(&props(), &lines);
    assert_eq!(parts, vec![ScriptPart::ScenePart(direction("A dog runs.", 1))]);
}

#[test]
fn distant_direction_lines_stay_apart() {
    let lines = vec![line(10, DIRECTION, 1, "A dog runs."), line(29, DIRECTION, 1, "It rains.")];
    let parts = extract_script_parts(&props(), &lines);
    assert_eq!(
        parts,
        vec![
            ScriptPart::ScenePart(direction("A dog runs.", 1)),
            ScriptPart::Separator,
            ScriptPart::ScenePart(direction("It rains.", 1)),
        ]
    );
    let script = extract_scenes(&parts);
    assert_eq!(script[0][0].parts.len(), 2);
}

#[test]
fn gap_of_eighteen_still_merges() {
    let lines = vec![line(10, DIRECTION, 1, "a"), line(28, DIRECTION, 1, "b")];
    let parts = extract_script_parts(&props(), &lines);
    assert_eq!(parts, vec![ScriptPart::ScenePart(direction("a b", 1))]);
}

#[test]
fn first_line_low_on_page_gets_separator() {
    let lines = vec![line(40, DIRECTION, 1, "a")];
    let parts = extract_script_parts(&props(), &lines);
    assert_eq!(parts, vec![ScriptPart::Separator, ScriptPart::ScenePart(direction("a", 1))]);
}

#[test]
fn page_reset_separates_and_keeps_first_page() {
    let lines = vec![line(700, DIRECTION, 1, "a"), line(10, DIRECTION, 2, "b"), line(20, DIRECTION, 2, "c")];
    let parts = extract_script_parts(&props(), &lines);
    assert_eq!(
        parts,
        vec![
            ScriptPart::Separator,
            ScriptPart::ScenePart(direction("a", 1)),
            ScriptPart::Separator,
            ScriptPart::ScenePart(direction("b c", 2)),
        ]
    );
}

#[test]
fn empty_lines_are_skipped() {
    let lines = vec![line(10, DIRECTION, 1, "a"), line(500, DIRECTION, 1, ""), line(22, DIRECTION, 1, "b")];
    let parts = extract_script_parts(&props(), &lines);
    assert_eq!(parts, vec![ScriptPart::ScenePart(direction("a b", 1))]);
}

#[test]
fn dialog_lines_merge_by_kind() {
    let lines = vec![
        line(10, SPEAKER, 3, "BOB"),
        line(22, PAREN, 3, "(quietly,"),
        line(34, PAREN, 3, "smiling)"),
        line(46, DIALOG, 3, "Hi"),
        line(58, DIALOG, 3, "there."),
        line(70, PAREN, 3, "(beat)"),
    ];
    let parts = extract_script_parts(&props(), &lines);
    assert_eq!(
        parts,
        vec![ScriptPart::ScenePart(ScenePart::Dialog {
            speaker: "BOB".to_string(),
            dialog: vec![
                DialogPart::Direction("(quietly, smiling)".to_string()),
                DialogPart::Dialog("Hi there.".to_string()),
                DialogPart::Direction("(beat)".to_string()),
            ],
            page: 3,
        })]
    );
}

#[test]
fn speaker_lines_concatenate() {
    let lines = vec![line(10, SPEAKER, 1, "BOB"), line(22, SPEAKER, 1, "(V.O.)")];
    let parts = extract_script_parts(&props(), &lines);
    assert_eq!(
        parts,
        vec![ScriptPart::ScenePart(ScenePart::Dialog {
            speaker: "BOB(V.O.)".to_string(),
            dialog: vec![],
            page: 1,
        })]
    );
}

#[test]
fn other_columns_give_scene_changes_or_nothing() {
    let lines = vec![line(10, 500, 1, "CUT TO:"), line(22, 500, 1, "12."), line(34, DIRECTION, 1, "CUT TO:")];
    let parts = extract_script_parts(&props(), &lines);
    assert_eq!(parts, vec![ScriptPart::SceneChange, ScriptPart::ScenePart(direction("CUT TO:", 1))]);
}

#[test]
fn location_change_after_content_keeps_location() {
    let parts = vec![
        ScriptPart::LocationChange("INT. HOUSE".to_string()),
        ScriptPart::ScenePart(direction("a", 1)),
        ScriptPart::LocationChange("EXT. GARDEN".to_string()),
        ScriptPart::ScenePart(direction("b", 1)),
    ];
    let script = extract_scenes(&parts);
    assert_eq!(script.len(), 1);
    assert_eq!(script[0].len(), 2);
    assert_eq!(script[0][0].name, "HOUSE");
    assert_eq!(script[0][0].kind, LocationType::Internal);
    assert_eq!(script[0][1].name, "GARDEN");
    assert_eq!(script[0][1].kind, LocationType::External);
}

#[test]
fn location_change_replaces_empty_location() {
    let parts = vec![
        ScriptPart::LocationChange("INT. HOUSE".to_string()),
        ScriptPart::LocationChange("EXT. GARDEN".to_string()),
        ScriptPart::ScenePart(direction("b", 1)),
    ];
    let script = extract_scenes(&parts);
    assert_eq!(script.len(), 1);
    assert_eq!(script[0].len(), 1);
    assert_eq!(script[0][0].name, "GARDEN");
}

#[test]
fn repeated_scene_changes_give_no_empty_scene() {
    let parts = vec![
        ScriptPart::ScenePart(direction("a", 1)),
        ScriptPart::SceneChange,
        ScriptPart::SceneChange,
        ScriptPart::ScenePart(direction("b", 1)),
        ScriptPart::SceneChange,
    ];
    let script = extract_scenes(&parts);
    assert_eq!(script.len(), 2);
    assert_eq!(script[0][0].parts, vec![direction("a", 1)]);
    assert_eq!(script[1][0].parts, vec![direction("b", 1)]);
}

#[test]
fn empty_stream_gives_empty_script() {
    assert!(extract_scenes(&Vec::new()).is_empty());
}

#[test]
fn trailing_empty_location_is_dropped() {
    let parts = vec![ScriptPart::ScenePart(direction("a", 1)), ScriptPart::LocationChange("INT. HALL".to_string())];
    let script = extract_scenes(&parts);
    assert_eq!(script.len(), 1);
    assert_eq!(script[0].len(), 1);
    assert_eq!(script[0][0].name, "");
}

#[test]
fn location_kinds() {
    let cases = [
        ("INT. KITCHEN", LocationType::Internal, "KITCHEN"),
        ("EXT. PARK - DAY", LocationType::External, "PARK - DAY"),
        ("INT./EXT. CAR", LocationType::InternalExternal, "CAR"),
        ("INT.KITCHEN", LocationType::Undefined, "INT.KITCHEN"),
        ("KITCHEN", LocationType::Undefined, "KITCHEN"),
        ("INT.   ATTIC", LocationType::Internal, "ATTIC"),
        ("INT.\u{2003}KITCHEN", LocationType::Internal, "KITCHEN"),
        ("EXT.\u{A0}PIER", LocationType::External, "PIER"),
        ("INT./EXT.\u{3000}\u{205F}VAN", LocationType::InternalExternal, "VAN"),
        ("INT.\u{200B}HALL", LocationType::Undefined, "INT.\u{200B}HALL"),
    ];
    for (heading, kind, name) in cases {
        let l = extract_location(heading);
        assert_eq!(l.kind, kind, "{}", heading);
        assert_eq!(l.name, name, "{}", heading);
        assert!(l.parts.is_empty());
    }
}

#[test]
fn heading_predicates() {
    assert!(is_location_change("INT. HOUSE"));
    assert!(is_location_change("EXT."));
    assert!(!is_location_change("int. house"));
    assert!(!is_location_change("INT"));
    assert!(is_scene_change("CUT TO:"));
    assert!(!is_scene_change("CUT"));
    assert!(!is_scene_change(" CUT TO"));
}

fn sample_script() -> Vec<Vec<Location>> {
    vec![
        vec![
            Location {
                kind: LocationType::Internal,
                name: "A".to_string(),
                parts: vec![direction("a1", 1), direction("a3", 3)],
            },
            Location { kind: LocationType::External, name: "B".to_string(), parts: vec![direction("b5", 5)] },
        ],
        vec![Location { kind: LocationType::Undefined, name: "C".to_string(), parts: vec![direction("c9", 9)] }],
    ]
}

#[test]
fn filter_keeps_pages_in_range() {
    let filtered = filter_script(sample_script(), (2, 5));
    assert_eq!(
        filtered,
        vec![vec![
            Location { kind: LocationType::Internal, name: "A".to_string(), parts: vec![direction("a3", 3)] },
            Location { kind: LocationType::External, name: "B".to_string(), parts: vec![direction("b5", 5)] },
        ]]
    );
}

#[test]
fn filter_is_idempotent() {
    let once = filter_script(sample_script(), (3, 9));
    let twice = filter_script(once.clone(), (3, 9));
    assert_eq!(once, twice);
    assert_eq!(once.len(), 2);
}

#[test]
fn unrestricted_filter_is_identity() {
    assert_eq!(filter_script(sample_script(), (0, u32::MAX)), sample_script());
}

#[test]
fn filter_outside_all_pages_is_empty() {
    assert!(filter_script(sample_script(), (20, 30)).is_empty());
}

#[test]
fn location_with_content_survives_separators_and_later_tokens() {
    let parts = vec![
        ScriptPart::ScenePart(direction("a", 1)),
        ScriptPart::Separator,
        ScriptPart::LocationChange("INT. HALL".to_string()),
        ScriptPart::Separator,
        ScriptPart::Separator,
        ScriptPart::ScenePart(direction("b", 2)),
        ScriptPart::LocationChange("EXT. YARD".to_string()),
        ScriptPart::SceneChange,
        ScriptPart::LocationChange("INT. ROOM".to_string()),
    ];
    let script = extract_scenes(&parts);
    assert_eq!(script.len(), 1);
    assert_eq!(script[0].len(), 2);
    assert_eq!(script[0][0].parts, vec![direction("a", 1)]);
    assert_eq!(script[0][1].kind, LocationType::Internal);
    assert_eq!(script[0][1].name, "HALL");
    assert_eq!(script[0][1].parts, vec![direction("b", 2)]);
}
