use vstd::prelude::*;
use crate::layout::{PositionedLine, ScriptProperties};
use crate::model::{dialog_view, DialogPart, DialogPartV, ScenePart, ScenePartV};
use crate::text::{has_prefix, join, join_text, starts_with};

verus! {

/// One element of the flat stream that the lines of a script are first turned into.
#[derive(Debug, Clone, PartialEq, Eq)]
pub enum ScriptPart {
    /// A break between two runs that must not be merged.
    Separator,
    ScenePart(ScenePart),
    /// A location heading, as written.
    LocationChange(String),
    SceneChange,
}

/// Mathematical value of a `ScriptPart`.
pub enum ScriptPartV {
    Separator,
    Part(ScenePartV),
    LocationChange(Seq<char>),
    SceneChange,
}

impl View for ScriptPart {
    type V = ScriptPartV;

    open spec fn view(&self) -> ScriptPartV {
        match self {
            ScriptPart::Separator => ScriptPartV::Separator,
            ScriptPart::ScenePart(p) => ScriptPartV::Part(p@),
            ScriptPart::LocationChange(s) => ScriptPartV::LocationChange(s@),
            ScriptPart::SceneChange => ScriptPartV::SceneChange,
        }
    }
}

pub open spec fn stream_view(v: Seq<ScriptPart>) -> Seq<ScriptPartV> {
    v.map_values(|x: ScriptPart| x@)
}

/// A heading that starts a new location.
pub open spec fn is_location_heading(s: Seq<char>) -> bool {
    has_prefix(s, seq!['I', 'N', 'T', '.']) || has_prefix(s, seq!['E', 'X', 'T', '.'])
}

/// A transition that ends a scene.
pub open spec fn is_scene_transition(s: Seq<char>) -> bool {
    has_prefix(s, seq!['C', 'U', 'T', ' ', 'T', 'O'])
}

/// Whether `line` is a location heading (`INT.` or `EXT.`).
pub fn is_location_change(line: &str) -> (r: bool)
    ensures
        r == is_location_heading(line@),
{
    proof {
        reveal_strlit("INT.");
        reveal_strlit("EXT.");
        assert("INT."@ =~= seq!['I', 'N', 'T', '.']);
        assert("EXT."@ =~= seq!['E', 'X', 'T', '.']);
    }
    starts_with(line, "INT.") || starts_with(line, "EXT.")
}

/// Whether `line` is a scene transition (`CUT TO`).
pub fn is_scene_change(line: &str) -> (r: bool)
    ensures
        r == is_scene_transition(line@),
{
    proof {
        reveal_strlit("CUT TO");
        assert("CUT TO"@ =~= seq!['C', 'U', 'T', ' ', 'T', 'O']);
    }
    starts_with(line, "CUT TO")
}

/// Adds a line of dialog text or of a parenthetical direction to a dialog:
/// it joins the last entry where that has the same kind, else it starts one.
pub open spec fn add_dialog_text(d: Seq<DialogPartV>, parenthetical: bool, text: Seq<char>) -> Seq<
    DialogPartV,
> {
    if parenthetical {
        if d.len() > 0 && d.last() is Direction {
            d.drop_last().push(DialogPartV::Direction(join_text(d.last()->Direction_0, text)))
        } else {
            d.push(DialogPartV::Direction(text))
        }
    } else {
        if d.len() > 0 && d.last() is Dialog {
            d.drop_last().push(DialogPartV::Dialog(join_text(d.last()->Dialog_0, text)))
        } else {
            d.push(DialogPartV::Dialog(text))
        }
    }
}

/// The stream is open on a direction paragraph.
pub open spec fn ends_in_direction(parts: Seq<ScriptPartV>) -> bool {
    parts.len() > 0 && parts.last() matches ScriptPartV::Part(ScenePartV::Direction { .. })
}

/// The stream is open on a dialog block.
pub open spec fn ends_in_dialog(parts: Seq<ScriptPartV>) -> bool {
    parts.len() > 0 && parts.last() matches ScriptPartV::Part(ScenePartV::Dialog { .. })
}

/// The stream after one non-empty line at offset `left` on page `page`.
pub open spec fn add_line(
    parts: Seq<ScriptPartV>,
    p: ScriptProperties,
    left: i32,
    text: Seq<char>,
    page: u32,
) -> Seq<ScriptPartV> {
    if left == p.direction_position {
        if is_location_heading(text) {
            parts.push(ScriptPartV::LocationChange(text))
        } else if ends_in_direction(parts) {
            let (direction, first_page) = match parts.last() {
                ScriptPartV::Part(ScenePartV::Direction { direction, page }) => (direction, page),
                _ => (Seq::empty(), 0),
            };
            parts.drop_last().push(
                ScriptPartV::Part(
                    ScenePartV::Direction {
                        direction: join_text(direction, text),
                        page: first_page,
                    },
                ),
            )
        } else {
            parts.push(ScriptPartV::Part(ScenePartV::Direction { direction: text, page }))
        }
    } else if left == p.speaker_position || left == p.speaker_direction_position || left
        == p.dialog_position {
        let (base, speaker, dialog, first_page) = match parts.last() {
            ScriptPartV::Part(ScenePartV::Dialog { speaker, dialog, page }) if ends_in_dialog(
                parts,
            ) => (parts.drop_last(), speaker, dialog, page),
            _ => (parts, Seq::empty(), Seq::empty(), page),
        };
        let (speaker, dialog) = if left == p.speaker_position {
            (speaker + text, dialog)
        } else if left == p.speaker_direction_position {
            (speaker, add_dialog_text(dialog, true, text))
        } else {
            (speaker, add_dialog_text(dialog, false, text))
        };
        base.push(
            ScriptPartV::Part(ScenePartV::Dialog { speaker, dialog, page: first_page }),
        )
    } else if is_scene_transition(text) {
        parts.push(ScriptPartV::SceneChange)
    } else {
        parts
    }
}

/// A vertical step that starts a new section: a gap wider than a paragraph
/// break, or a step back up, as at the top of a new page.
pub open spec fn starts_section(top: int, last_top: int) -> bool {
    top - last_top > 18 || top - last_top < 0
}

/// The stream made from `lines`, and the top of the last non-empty line (0 if none).
pub open spec fn scan(p: ScriptProperties, lines: Seq<PositionedLine>) -> (Seq<ScriptPartV>, int)
    decreases lines.len(),
{
    if lines.len() == 0 {
        (Seq::empty(), 0)
    } else {
        let (parts, last_top) = scan(p, lines.drop_last());
        let line = lines.last();
        if line.text@.len() == 0 {
            (parts, last_top)
        } else {
            let parts = if starts_section(line.top as int, last_top) {
                parts.push(ScriptPartV::Separator)
            } else {
                parts
            };
            (add_line(parts, p, line.left, line.text@, line.page), line.top as int)
        }
    }
}

/// The stream of parts made from `lines` under layout `p`.
pub open spec fn script_parts_of(p: ScriptProperties, lines: Seq<PositionedLine>) -> Seq<
    ScriptPartV,
> {
    scan(p, lines).0
}

fn add_dialog_line(dialog: Vec<DialogPart>, parenthetical: bool, text: &str) -> (r: Vec<
    DialogPart,
>)
    ensures
        dialog_view(r@) == add_dialog_text(dialog_view(dialog@), parenthetical, text@),
{
    let mut d = dialog;
    let ghost dv = dialog_view(d@);
    let n = d.len();
    let same = n > 0 && match &d[n - 1] {
        DialogPart::Direction(_) => parenthetical,
        DialogPart::Dialog(_) => !parenthetical,
    };
    if same {
        let last = d.pop().unwrap();
        let merged = match last {
            DialogPart::Direction(s) => DialogPart::Direction(join(s, text)),
            DialogPart::Dialog(s) => DialogPart::Dialog(join(s, text)),
        };
        d.push(merged);
    } else if parenthetical {
        d.push(DialogPart::Direction(text.to_owned()));
    } else {
        d.push(DialogPart::Dialog(text.to_owned()));
    }
    assert(dialog_view(d@) =~= add_dialog_text(dv, parenthetical, text@));
    d
}

/// Adds one non-empty line to the stream, by its column.
fn add_line_to(parts: &mut Vec<ScriptPart>, p: &ScriptProperties, left: i32, text: &str, page: u32)
    ensures
        stream_view(final(parts)@) == add_line(stream_view(old(parts)@), *p, left, text@, page),
{
    let ghost before = stream_view(parts@);
    let n = parts.len();
    if left == p.direction_position {
        if is_location_change(text) {
            parts.push(ScriptPart::LocationChange(text.to_owned()));
        } else if n > 0 && matches!(parts[n - 1], ScriptPart::ScenePart(ScenePart::Direction { .. })) {
            assert(ends_in_direction(before));
            let last = parts.pop().unwrap();
            if let ScriptPart::ScenePart(ScenePart::Direction { direction, page: first }) = last {
                parts.push(
                    ScriptPart::ScenePart(
                        ScenePart::Direction { direction: join(direction, text), page: first },
                    ),
                );
            }
        } else {
            parts.push(
                ScriptPart::ScenePart(ScenePart::Direction { direction: text.to_owned(), page }),
            );
        }
    } else if left == p.speaker_position || left == p.speaker_direction_position || left
        == p.dialog_position {
        let open = n > 0 && matches!(parts[n - 1], ScriptPart::ScenePart(ScenePart::Dialog { .. }));
        let (speaker, dialog, first) = if open {
            assert(ends_in_dialog(before));
            match parts.pop().unwrap() {
                ScriptPart::ScenePart(ScenePart::Dialog { speaker, dialog, page }) => (
                    speaker,
                    dialog,
                    page,
                ),
                _ => (String::new(), Vec::new(), page),
            }
        } else {
            (String::new(), Vec::new(), page)
        };
        assert(!open ==> dialog_view(dialog@) =~= Seq::<DialogPartV>::empty());
        let mut speaker = speaker;
        let mut dialog = dialog;
        if left == p.speaker_position {
            speaker.append(text);
        } else if left == p.speaker_direction_position {
            dialog = add_dialog_line(dialog, true, text);
        } else {
            dialog = add_dialog_line(dialog, false, text);
        }
        parts.push(ScriptPart::ScenePart(ScenePart::Dialog { speaker, dialog, page: first }));
    } else if is_scene_change(text) {
        parts.push(ScriptPart::SceneChange);
    }
    assert(stream_view(parts@) =~= add_line(before, *p, left, text@, page));
}

/// Classifies each non-empty line by its column and merges the consecutive
/// lines of one paragraph, or of one dialog block, into one part. A vertical
/// gap of more than 18, or a step back up, puts a separator before a line.
pub fn extract_script_parts(properties: &ScriptProperties, lines: &Vec<PositionedLine>) -> (r: Vec<
    ScriptPart,
>)
    ensures
        stream_view(r@) == script_parts_of(*properties, lines@),
{
    let mut parts: Vec<ScriptPart> = Vec::new();
    let mut last_top: i32 = 0;
    let mut i: usize = 0;
    assert(stream_view(parts@) =~= Seq::<ScriptPartV>::empty());
    while i < lines.len()
        invariant
            i <= lines.len(),
            (stream_view(parts@), last_top as int) == scan(
                *properties,
                lines@.subrange(0, i as int),
            ),
        decreases lines.len() - i,
    {
        let line = &lines[i];
        let ghost prefix = lines@.subrange(0, i + 1);
        assert(prefix.drop_last() =~= lines@.subrange(0, i as int));
        assert(prefix.last() == lines@[i as int]);
        if !line.text.as_str().is_empty() {
            let step = line.top as i64 - last_top as i64;
            if step > 18 || step < 0 {
                let ghost seen = stream_view(parts@);
                parts.push(ScriptPart::Separator);
                assert(stream_view(parts@) =~= seen.push(ScriptPartV::Separator));
            }
            add_line_to(&mut parts, properties, line.left, line.text.as_str(), line.page);
            last_top = line.top;
        }
        i = i + 1;
    }
    assert(lines@.subrange(0, lines@.len() as int) =~= lines@);
    parts
}

} // verus!
