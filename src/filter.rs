use vstd::prelude::*;
use crate::model::{
    parts_view, scene_view, script_view, well_formed_script, Location, LocationV, Scene, ScenePart,
    ScenePartV, Script,
};

verus! {

/// The part starts on a page within `lower..=upper`.
pub open spec fn in_range(p: ScenePartV, lower: u32, upper: u32) -> bool {
    lower <= p.page() <= upper
}

/// The parts that start within the range, in order.
pub open spec fn parts_in_range(parts: Seq<ScenePartV>, lower: u32, upper: u32) -> Seq<ScenePartV>
    decreases parts.len(),
{
    if parts.len() == 0 {
        Seq::empty()
    } else {
        let kept = parts_in_range(parts.drop_last(), lower, upper);
        if in_range(parts.last(), lower, upper) {
            kept.push(parts.last())
        } else {
            kept
        }
    }
}

/// A location restricted to the range.
pub open spec fn location_in_range(l: LocationV, lower: u32, upper: u32) -> LocationV {
    LocationV { kind: l.kind, name: l.name, parts: parts_in_range(l.parts, lower, upper) }
}

/// The locations restricted to the range, without those left empty.
pub open spec fn locations_in_range(scene: Seq<LocationV>, lower: u32, upper: u32) -> Seq<LocationV>
    decreases scene.len(),
{
    if scene.len() == 0 {
        Seq::empty()
    } else {
        let kept = locations_in_range(scene.drop_last(), lower, upper);
        let l = location_in_range(scene.last(), lower, upper);
        if l.parts.len() > 0 {
            kept.push(l)
        } else {
            kept
        }
    }
}

/// The scenes restricted to the range, without those left empty.
pub open spec fn scenes_in_range(script: Seq<Seq<LocationV>>, lower: u32, upper: u32) -> Seq<
    Seq<LocationV>,
>
    decreases script.len(),
{
    if script.len() == 0 {
        Seq::empty()
    } else {
        let kept = scenes_in_range(script.drop_last(), lower, upper);
        let s = locations_in_range(script.last(), lower, upper);
        if s.len() > 0 {
            kept.push(s)
        } else {
            kept
        }
    }
}

fn filter_parts(parts: &Vec<ScenePart>, lower: u32, upper: u32) -> (r: Vec<ScenePart>)
    ensures
        parts_view(r@) == parts_in_range(parts_view(parts@), lower, upper),
{
    let ghost pv = parts_view(parts@);
    let mut kept: Vec<ScenePart> = Vec::new();
    let mut k: usize = 0;
    assert(parts_view(kept@) =~= parts_in_range(pv.subrange(0, 0), lower, upper));
    while k < parts.len()
        invariant
            k <= parts.len(),
            pv == parts_view(parts@),
            parts_view(kept@) == parts_in_range(pv.subrange(0, k as int), lower, upper),
        decreases parts.len() - k,
    {
        let ghost prefix = pv.subrange(0, k + 1);
        assert(prefix.drop_last() =~= pv.subrange(0, k as int));
        assert(prefix.last() == parts@[k as int]@);
        let page = parts[k].page();
        if lower <= page && page <= upper {
            let ghost before = parts_view(kept@);
            kept.push(parts[k].duplicate());
            assert(parts_view(kept@) =~= before.push(parts@[k as int]@));
        }
        k = k + 1;
    }
    assert(pv.subrange(0, pv.len() as int) =~= pv);
    kept
}

fn filter_scene(scene: &Scene, lower: u32, upper: u32) -> (r: Scene)
    ensures
        scene_view(r@) == locations_in_range(scene_view(scene@), lower, upper),
{
    let ghost sv = scene_view(scene@);
    let mut kept: Scene = Vec::new();
    let mut j: usize = 0;
    assert(scene_view(kept@) =~= locations_in_range(sv.subrange(0, 0), lower, upper));
    while j < scene.len()
        invariant
            j <= scene.len(),
            sv == scene_view(scene@),
            scene_view(kept@) == locations_in_range(sv.subrange(0, j as int), lower, upper),
        decreases scene.len() - j,
    {
        let ghost prefix = sv.subrange(0, j + 1);
        assert(prefix.drop_last() =~= sv.subrange(0, j as int));
        assert(prefix.last() == scene@[j as int]@);
        let l = &scene[j];
        let parts = filter_parts(&l.parts, lower, upper);
        if parts.len() > 0 {
            let ghost before = scene_view(kept@);
            let loc = Location { kind: l.kind, name: l.name.clone(), parts };
            assert(loc@ == location_in_range(l@, lower, upper));
            kept.push(loc);
            assert(scene_view(kept@) =~= before.push(loc@));
        }
        j = j + 1;
    }
    assert(sv.subrange(0, sv.len() as int) =~= sv);
    kept
}

/// Keeps the parts that start on a page within the inclusive range, drops the
/// locations and then the scenes that this leaves empty, and keeps the order.
pub fn filter_script(script: Script, page_range: (u32, u32)) -> (r: Script)
    ensures
        script_view(r@) == scenes_in_range(script_view(script@), page_range.0, page_range.1),
        well_formed_script(script_view(r@)),
{
    let (lower, upper) = page_range;
    let ghost sv = script_view(script@);
    let mut kept: Script = Vec::new();
    let mut i: usize = 0;
    assert(script_view(kept@) =~= scenes_in_range(sv.subrange(0, 0), lower, upper));
    while i < script.len()
        invariant
            i <= script.len(),
            sv == script_view(script@),
            script_view(kept@) == scenes_in_range(sv.subrange(0, i as int), lower, upper),
        decreases script.len() - i,
    {
        let ghost prefix = sv.subrange(0, i + 1);
        assert(prefix.drop_last() =~= sv.subrange(0, i as int));
        assert(prefix.last() == scene_view(script@[i as int]@));
        let scene = filter_scene(&script[i], lower, upper);
        if scene.len() > 0 {
            let ghost before = script_view(kept@);
            let ghost added = scene_view(scene@);
            kept.push(scene);
            assert(script_view(kept@) =~= before.push(added));
        }
        i = i + 1;
    }
    assert(sv.subrange(0, sv.len() as int) =~= sv);
    proof {
        lemma_scenes_in_range_well_formed(sv, lower, upper);
    }
    kept
}

proof fn lemma_locations_in_range_nonempty(scene: Seq<LocationV>, lower: u32, upper: u32)
    ensures
        forall|j: int|
            0 <= j < locations_in_range(scene, lower, upper).len() ==> #[trigger] locations_in_range(
                scene,
                lower,
                upper,
            )[j].parts.len() > 0,
    decreases scene.len(),
{
    if scene.len() > 0 {
        lemma_locations_in_range_nonempty(scene.drop_last(), lower, upper);
    }
}

/// Whatever the input, the restricted script has no empty scene or location.
pub proof fn lemma_scenes_in_range_well_formed(script: Seq<Seq<LocationV>>, lower: u32, upper: u32)
    ensures
        well_formed_script(scenes_in_range(script, lower, upper)),
    decreases script.len(),
{
    if script.len() > 0 {
        lemma_scenes_in_range_well_formed(script.drop_last(), lower, upper);
        lemma_locations_in_range_nonempty(script.last(), lower, upper);
    }
}

} // verus!
