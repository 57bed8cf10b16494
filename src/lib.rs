//! Turns the positioned text lines of a screenplay's page images into scenes,
//! locations, directions and dialog. The columns that each kind of content
//! uses are inferred from how often each offset occurs; the lines are then
//! classified by column, merged into paragraphs and dialog blocks, and folded
//! into scenes.
use vstd::prelude::*;

pub mod attributes;
pub mod filter;
pub mod fold;
pub mod laws;
pub mod layout;
pub mod location;
pub mod model;
pub mod range;
pub mod text;
pub mod tokens;

use crate::fold::{extract_scenes, scenes_of};
use crate::layout::{analyze_layout, has_three_columns, layout_of, ParseError, PositionedLine, ScriptProperties};
use crate::model::{script_view, well_formed_script, Script};
use crate::tokens::{extract_script_parts, script_parts_of};

verus! {

/// Parses the lines of a script, in document order, into scenes. Fails where
/// the lines use fewer than three distinct columns.
pub fn parse_script(lines: &Vec<PositionedLine>) -> (r: Result<Script, ParseError>)
    ensures
        r is Err <==> !has_three_columns(lines@),
        r matches Err(e) ==> e == ParseError::AmbiguousLayout,
        r matches Ok(s) ==> exists|p: ScriptProperties|
            layout_of(lines@, p) && script_view(s@) == scenes_of(script_parts_of(p, lines@)),
        r matches Ok(s) ==> well_formed_script(script_view(s@)),
{
    let properties = analyze_layout(lines)?;
    let parts = extract_script_parts(&properties, lines);
    Ok(extract_scenes(&parts))
}

} // verus!
