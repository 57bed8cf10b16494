use vstd::prelude::*;
use crate::location::{extract_location, location_of};
use crate::model::{
    default_location, scene_view, script_view, well_formed_script, Location, LocationV, Scene,
    Script,
};
use crate::tokens::{stream_view, ScriptPart, ScriptPartV};

verus! {

/// The script under construction after one more element of the stream. Its
/// last location of its last scene is the one that receives parts.
pub open spec fn fold_step(st: Seq<Seq<LocationV>>, part: ScriptPartV) -> Seq<Seq<LocationV>> {
    let scene = st.last();
    let loc = scene.last();
    match part {
        ScriptPartV::SceneChange => if loc.parts.len() > 0 {
            st.push(seq![default_location()])
        } else {
            st
        },
        ScriptPartV::LocationChange(raw) => {
            let kept = if loc.parts.len() == 0 {
                scene.drop_last()
            } else {
                scene
            };
            st.update(st.len() - 1, kept.push(location_of(raw)))
        },
        ScriptPartV::Part(p) => st.update(
            st.len() - 1,
            scene.update(
                scene.len() - 1,
                LocationV { kind: loc.kind, name: loc.name, parts: loc.parts.push(p) },
            ),
        ),
        ScriptPartV::Separator => st,
    }
}

/// The script under construction after the whole stream, starting from one
/// scene that holds the placeholder location.
pub open spec fn fold_parts(parts: Seq<ScriptPartV>) -> Seq<Seq<LocationV>>
    decreases parts.len(),
{
    if parts.len() == 0 {
        seq![seq![default_location()]]
    } else {
        fold_step(fold_parts(parts.drop_last()), parts.last())
    }
}

/// Drops the last location where it is still empty, and then the last scene
/// where that leaves it empty.
pub open spec fn prune(st: Seq<Seq<LocationV>>) -> Seq<Seq<LocationV>> {
    let scene = st.last();
    if scene.last().parts.len() == 0 {
        let kept = scene.drop_last();
        if kept.len() == 0 {
            st.drop_last()
        } else {
            st.update(st.len() - 1, kept)
        }
    } else {
        st
    }
}

/// The script that a stream of parts folds into.
pub open spec fn scenes_of(parts: Seq<ScriptPartV>) -> Seq<Seq<LocationV>> {
    prune(fold_parts(parts))
}

/// Every location is non-empty, and so is every finished scene.
spec fn builder_ok(scenes: Seq<Seq<LocationV>>, scene: Seq<LocationV>) -> bool {
    &&& well_formed_script(scenes)
    &&& forall|j: int| 0 <= j < scene.len() ==> #[trigger] scene[j].parts.len() > 0
}

/// Folds the stream of parts into scenes of locations. A scene change opens a
/// new scene only where the current location has parts; a location change
/// replaces the current location where it is still empty; empty locations and
/// scenes never reach the result.
pub fn extract_scenes(script_parts: &Vec<ScriptPart>) -> (r: Script)
    ensures
        script_view(r@) == scenes_of(stream_view(script_parts@)),
        well_formed_script(script_view(r@)),
{
    let ghost sv = stream_view(script_parts@);
    let mut scenes: Vec<Scene> = Vec::new();
    let mut scene: Scene = Vec::new();
    let mut loc = Location::placeholder();
    let mut i: usize = 0;
    assert(scene_view(scene@).push(loc@) =~= seq![default_location()]);
    assert(script_view(scenes@).push(scene_view(scene@).push(loc@)) =~= fold_parts(
        sv.subrange(0, 0),
    ));
    while i < script_parts.len()
        invariant
            i <= script_parts.len(),
            sv == stream_view(script_parts@),
            fold_parts(sv.subrange(0, i as int)) == script_view(scenes@).push(
                scene_view(scene@).push(loc@),
            ),
            builder_ok(script_view(scenes@), scene_view(scene@)),
        decreases script_parts.len() - i,
    {
        let ghost prefix = sv.subrange(0, i + 1);
        assert(prefix.drop_last() =~= sv.subrange(0, i as int));
        assert(prefix.last() == script_parts@[i as int]@);
        let ghost st = script_view(scenes@).push(scene_view(scene@).push(loc@));
        match &script_parts[i] {
            ScriptPart::SceneChange => {
                if loc.parts.len() > 0 {
                    let ghost old_scenes = scenes@;
                    let ghost closed = scene_view(scene@).push(loc@);
                    scene.push(loc);
                    assert(scene_view(scene@) =~= closed);
                    scenes.push(scene);
                    assert(script_view(scenes@) =~= script_view(old_scenes).push(closed));
                    scene = Vec::new();
                    loc = Location::placeholder();
                    assert(scene_view(scene@).push(loc@) =~= seq![default_location()]);
                    assert(script_view(scenes@).push(scene_view(scene@).push(loc@)) =~= st.push(
                        seq![default_location()],
                    ));
                }
            },
            ScriptPart::LocationChange(raw) => {
                let next = extract_location(raw.as_str());
                if loc.parts.len() > 0 {
                    let ghost closed = scene_view(scene@).push(loc@);
                    scene.push(loc);
                    assert(scene_view(scene@) =~= closed);
                }
                loc = next;
            },
            ScriptPart::ScenePart(p) => {
                let ghost old_loc = loc@;
                loc.parts.push(p.duplicate());
                assert(loc@.parts =~= old_loc.parts.push(p@));
            },
            ScriptPart::Separator => {},
        }
        assert(script_view(scenes@).push(scene_view(scene@).push(loc@)) =~~= fold_step(
            st,
            prefix.last(),
        ));
        i = i + 1;
    }
    assert(sv.subrange(0, sv.len() as int) =~= sv);
    let ghost st = script_view(scenes@).push(scene_view(scene@).push(loc@));
    let ghost old_scenes = scenes@;
    if loc.parts.len() > 0 {
        let ghost closed = scene_view(scene@).push(loc@);
        scene.push(loc);
        assert(scene_view(scene@) =~= closed);
    } else {
        assert(scene_view(scene@) =~= st.last().drop_last());
    }
    if scene.len() > 0 {
        let ghost closed = scene_view(scene@);
        scenes.push(scene);
        assert(script_view(scenes@) =~= script_view(old_scenes).push(closed));
    }
    assert(script_view(scenes@) =~~= prune(st));
    scenes
}

} // verus!
