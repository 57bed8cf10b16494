use vstd::prelude::*;
use crate::filter::{locations_in_range, location_in_range, parts_in_range, scenes_in_range, in_range};
use crate::fold::{fold_parts, fold_step, prune, scenes_of};
use crate::layout::{
    has_three_columns, left_keys, layout_of, speaker_direction_candidate, PositionedLine, ScriptProperties,
};
use crate::location::{ext_marker, location_of, skip_spaces};
use crate::model::{default_location, DialogPartV, LocationType, LocationV, ScenePartV};
use crate::text::join_text;
use crate::tokens::{
    add_dialog_text, ends_in_direction, is_location_heading, scan, script_parts_of, starts_section, ScriptPartV,
};

verus! {

proof fn lemma_parts_in_range_idempotent(parts: Seq<ScenePartV>, lower: u32, upper: u32)
    ensures
        parts_in_range(parts_in_range(parts, lower, upper), lower, upper) == parts_in_range(
            parts,
            lower,
            upper,
        ),
    decreases parts.len(),
{
    if parts.len() > 0 {
        let kept = parts_in_range(parts.drop_last(), lower, upper);
        lemma_parts_in_range_idempotent(parts.drop_last(), lower, upper);
        if in_range(parts.last(), lower, upper) {
            assert(kept.push(parts.last()).drop_last() =~= kept);
        }
    }
}

proof fn lemma_locations_in_range_idempotent(scene: Seq<LocationV>, lower: u32, upper: u32)
    ensures
        locations_in_range(locations_in_range(scene, lower, upper), lower, upper)
            == locations_in_range(scene, lower, upper),
    decreases scene.len(),
{
    if scene.len() > 0 {
        let kept = locations_in_range(scene.drop_last(), lower, upper);
        let l = location_in_range(scene.last(), lower, upper);
        lemma_locations_in_range_idempotent(scene.drop_last(), lower, upper);
        lemma_parts_in_range_idempotent(scene.last().parts, lower, upper);
        if l.parts.len() > 0 {
            assert(kept.push(l).drop_last() =~= kept);
            assert(location_in_range(l, lower, upper) == l);
        }
    }
}

/// Restricting a script to a page range twice gives what restricting it once gives.
pub proof fn lemma_filter_idempotent(script: Seq<Seq<LocationV>>, lower: u32, upper: u32)
    ensures
        scenes_in_range(scenes_in_range(script, lower, upper), lower, upper) == scenes_in_range(
            script,
            lower,
            upper,
        ),
    decreases script.len(),
{
    if script.len() > 0 {
        let kept = scenes_in_range(script.drop_last(), lower, upper);
        let s = locations_in_range(script.last(), lower, upper);
        lemma_filter_idempotent(script.drop_last(), lower, upper);
        lemma_locations_in_range_idempotent(script.last(), lower, upper);
        if s.len() > 0 {
            assert(kept.push(s).drop_last() =~= kept);
        }
    }
}

/// A scene change right after another one changes nothing: consecutive scene
/// changes never leave an empty scene behind.
pub proof fn lemma_repeated_scene_change(parts: Seq<ScriptPartV>)
    ensures
        fold_parts(parts.push(ScriptPartV::SceneChange).push(ScriptPartV::SceneChange))
            == fold_parts(parts.push(ScriptPartV::SceneChange)),
{
    let once = parts.push(ScriptPartV::SceneChange);
    let twice = once.push(ScriptPartV::SceneChange);
    assert(twice.drop_last() =~= once);
    assert(once.drop_last() =~= parts);
}

/// A location change where the current location has parts keeps that location
/// and adds the new one after it.
pub proof fn lemma_location_change_after_content(parts: Seq<ScriptPartV>, raw: Seq<char>)
    requires
        fold_parts(parts).last().last().parts.len() > 0,
    ensures
        ({
            let st = fold_parts(parts);
            fold_parts(parts.push(ScriptPartV::LocationChange(raw))) == st.update(
                st.len() - 1,
                st.last().push(location_of(raw)),
            )
        }),
{
    assert(parts.push(ScriptPartV::LocationChange(raw)).drop_last() =~= parts);
}

/// A location change where the current location is still empty replaces it.
pub proof fn lemma_location_change_replaces_empty(parts: Seq<ScriptPartV>, raw: Seq<char>)
    requires
        fold_parts(parts).last().last().parts.len() == 0,
    ensures
        ({
            let st = fold_parts(parts);
            fold_parts(parts.push(ScriptPartV::LocationChange(raw))) == st.update(
                st.len() - 1,
                st.last().drop_last().push(location_of(raw)),
            )
        }),
{
    assert(parts.push(ScriptPartV::LocationChange(raw)).drop_last() =~= parts);
}

/// The stream starts with a separator exactly where the first line starts a section.
pub open spec fn leading(line: PositionedLine) -> Seq<ScriptPartV> {
    if starts_section(line.top as int, 0) {
        seq![ScriptPartV::Separator]
    } else {
        Seq::empty()
    }
}

/// A direction paragraph part.
pub open spec fn direction_part(text: Seq<char>, page: u32) -> ScriptPartV {
    ScriptPartV::Part(ScenePartV::Direction { direction: text, page })
}

/// A line in the direction column that is no location heading.
pub open spec fn direction_line(p: ScriptProperties, l: PositionedLine) -> bool {
    l.left == p.direction_position && l.text@.len() > 0 && !is_location_heading(l.text@)
}

/// Two direction lines close together merge into one paragraph, joined by a
/// space; with a gap of more than 18 between them they stay two paragraphs.
pub proof fn lemma_direction_lines_merge(p: ScriptProperties, a: PositionedLine, b: PositionedLine)
    requires
        direction_line(p, a),
        direction_line(p, b),
    ensures
        !starts_section(b.top as int, a.top as int) ==> script_parts_of(p, seq![a, b]) == leading(
            a,
        ).push(direction_part(join_text(a.text@, b.text@), a.page)),
        b.top - a.top > 18 ==> script_parts_of(p, seq![a, b]) == leading(a).push(
            direction_part(a.text@, a.page),
        ).push(ScriptPartV::Separator).push(direction_part(b.text@, b.page)),
{
    lemma_scan_one_direction_line(p, a);
    let s = seq![a, b];
    assert(s.drop_last() =~= seq![a]);
    let first = leading(a).push(direction_part(a.text@, a.page));
    assert(ends_in_direction(first));
    if !starts_section(b.top as int, a.top as int) {
        assert(first.drop_last() =~= leading(a));
    }
}

proof fn lemma_scan_one_direction_line(p: ScriptProperties, line: PositionedLine)
    requires
        direction_line(p, line),
    ensures
        scan(p, seq![line]) == (
            leading(line).push(direction_part(line.text@, line.page)),
            line.top as int,
        ),
{
    assert(seq![line].drop_last() =~= Seq::<PositionedLine>::empty());
    assert(scan(p, Seq::<PositionedLine>::empty()) == (Seq::<ScriptPartV>::empty(), 0int));
    assert(seq![line].last() == line);
    assert(!ends_in_direction(leading(line)));
}

/// The placeholder location holding exactly one direction part.
pub open spec fn single_direction_script(text: Seq<char>, page: u32) -> Seq<Seq<LocationV>> {
    seq![
        seq![
            LocationV {
                kind: LocationType::Undefined,
                name: Seq::empty(),
                parts: seq![ScenePartV::Direction { direction: text, page }],
            },
        ],
    ]
}

/// One direction line folds into one scene whose placeholder location holds
/// that one direction.
pub proof fn lemma_single_direction_line(p: ScriptProperties, line: PositionedLine)
    requires
        direction_line(p, line),
    ensures
        scenes_of(script_parts_of(p, seq![line])) == single_direction_script(line.text@, line.page),
{
    lemma_scan_one_direction_line(p, line);
    let parts = script_parts_of(p, seq![line]);
    assert(parts == leading(line).push(direction_part(line.text@, line.page)));
    assert(parts.last() == direction_part(line.text@, line.page));
    let empty = Seq::<ScriptPartV>::empty();
    assert(fold_parts(empty) == seq![seq![default_location()]]);
    if starts_section(line.top as int, 0) {
        assert(parts.drop_last() =~= seq![ScriptPartV::Separator]);
        assert(parts.drop_last().drop_last() =~= empty);
        assert(fold_parts(parts.drop_last()) == fold_parts(empty));
    } else {
        assert(parts.drop_last() =~= empty);
    }
    assert(fold_parts(parts.drop_last()) == seq![seq![default_location()]]);
    assert(scenes_of(parts) =~~= single_direction_script(line.text@, line.page));
}

/// Location `j` of scene `i` is the current one: the last of the last scene.
pub open spec fn is_current(st: Seq<Seq<LocationV>>, i: int, j: int) -> bool {
    i == st.len() - 1 && j == st[i].len() - 1
}

/// The shape of a script under construction: at least one scene, no empty
/// scene, and only the current location may be empty.
pub open spec fn fold_ok(st: Seq<Seq<LocationV>>) -> bool {
    &&& st.len() > 0
    &&& forall|i: int| 0 <= i < st.len() ==> #[trigger] st[i].len() > 0
    &&& forall|i: int, j: int|
        0 <= i < st.len() && 0 <= j < st[i].len() && !is_current(st, i, j)
            ==> #[trigger] st[i][j].parts.len() > 0
}

/// `b` grew from `a`: a location of `a` that is not current is kept, in place
/// and unchanged, and is not current in `b`; the current location of `a`, where
/// it has parts, is kept in place with its kind and name and the parts it had
/// as a prefix.
pub open spec fn keeps(a: Seq<Seq<LocationV>>, b: Seq<Seq<LocationV>>) -> bool {
    forall|i: int, j: int|
        0 <= i < a.len() && 0 <= j < a[i].len() && (!is_current(a, i, j) || a[i][j].parts.len()
            > 0) ==> {
            &&& i < b.len() && j < b[i].len()
            &&& !is_current(a, i, j) ==> #[trigger] b[i][j] == a[i][j] && !is_current(b, i, j)
            &&& b[i][j].kind == a[i][j].kind && b[i][j].name == a[i][j].name
            &&& a[i][j].parts.len() <= b[i][j].parts.len()
            &&& b[i][j].parts.subrange(0, a[i][j].parts.len() as int) == a[i][j].parts
        }
}

proof fn lemma_fold_step_keeps(st: Seq<Seq<LocationV>>, part: ScriptPartV)
    requires
        fold_ok(st),
    ensures
        fold_ok(fold_step(st, part)),
        keeps(st, fold_step(st, part)),
{
    let nx = fold_step(st, part);
    let last = st.len() - 1;
    assert(st[last].len() > 0);
    assert forall|i: int, j: int|
        0 <= i < st.len() && 0 <= j < st[i].len() && (!is_current(st, i, j) || st[i][j].parts.len()
            > 0) implies {
        &&& i < nx.len() && j < nx[i].len()
        &&& !is_current(st, i, j) ==> #[trigger] nx[i][j] == st[i][j] && !is_current(nx, i, j)
        &&& nx[i][j].kind == st[i][j].kind && nx[i][j].name == st[i][j].name
        &&& st[i][j].parts.len() <= nx[i][j].parts.len()
        &&& nx[i][j].parts.subrange(0, st[i][j].parts.len() as int) == st[i][j].parts
    } by {
        if is_current(st, i, j) {
            if let ScriptPartV::Part(q) = part {
                assert(nx[i][j].parts.subrange(0, st[i][j].parts.len() as int) =~= st[i][j].parts);
            } else {
                assert(nx[i][j].parts.subrange(0, st[i][j].parts.len() as int) =~= st[i][j].parts);
            }
        }
    }
    assert(fold_ok(nx)) by {
        assert forall|i: int| 0 <= i < nx.len() implies #[trigger] nx[i].len() > 0 by {}
        assert forall|i: int, j: int|
            0 <= i < nx.len() && 0 <= j < nx[i].len() && !is_current(nx, i, j) implies #[trigger] nx[i][j].parts.len()
            > 0 by {
            assert(i < st.len());
            if i == last {
                assert(j < st[i].len());
            }
        }
    }
}

proof fn lemma_keeps_trans(a: Seq<Seq<LocationV>>, b: Seq<Seq<LocationV>>, c: Seq<Seq<LocationV>>)
    requires
        keeps(a, b),
        keeps(b, c),
    ensures
        keeps(a, c),
{
    assert forall|i: int, j: int|
        0 <= i < a.len() && 0 <= j < a[i].len() && (!is_current(a, i, j) || a[i][j].parts.len()
            > 0) implies {
        &&& i < c.len() && j < c[i].len()
        &&& !is_current(a, i, j) ==> #[trigger] c[i][j] == a[i][j] && !is_current(c, i, j)
        &&& c[i][j].kind == a[i][j].kind && c[i][j].name == a[i][j].name
        &&& a[i][j].parts.len() <= c[i][j].parts.len()
        &&& c[i][j].parts.subrange(0, a[i][j].parts.len() as int) == a[i][j].parts
    } by {
        assert(b[i][j].kind == a[i][j].kind);
        assert(c[i][j].kind == b[i][j].kind);
        let (la, lb) = (a[i][j].parts.len() as int, b[i][j].parts.len() as int);
        assert(c[i][j].parts.subrange(0, la) =~= c[i][j].parts.subrange(0, lb).subrange(0, la));
    }
}

proof fn lemma_keeps_refl(a: Seq<Seq<LocationV>>)
    ensures
        keeps(a, a),
{
    assert forall|i: int, j: int|
        0 <= i < a.len() && 0 <= j < a[i].len() && (!is_current(a, i, j) || a[i][j].parts.len()
            > 0) implies {
        &&& i < a.len() && j < a[i].len()
        &&& !is_current(a, i, j) ==> #[trigger] a[i][j] == a[i][j] && !is_current(a, i, j)
        &&& a[i][j].kind == a[i][j].kind && a[i][j].name == a[i][j].name
        &&& a[i][j].parts.len() <= a[i][j].parts.len()
        &&& a[i][j].parts.subrange(0, a[i][j].parts.len() as int) == a[i][j].parts
    } by {
        assert(a[i][j].parts.subrange(0, a[i][j].parts.len() as int) =~= a[i][j].parts);
    }
}

proof fn lemma_fold_ok(parts: Seq<ScriptPartV>)
    ensures
        fold_ok(fold_parts(parts)),
    decreases parts.len(),
{
    if parts.len() == 0 {
        assert(fold_parts(parts) == seq![seq![default_location()]]);
    } else {
        lemma_fold_ok(parts.drop_last());
        lemma_fold_step_keeps(fold_parts(parts.drop_last()), parts.last());
    }
}

/// Folding more of the stream only adds to what was folded before.
proof fn lemma_fold_append_keeps(a: Seq<ScriptPartV>, b: Seq<ScriptPartV>)
    ensures
        keeps(fold_parts(a), fold_parts(a + b)),
        fold_ok(fold_parts(a + b)),
    decreases b.len(),
{
    lemma_fold_ok(a + b);
    if b.len() == 0 {
        assert(a + b =~= a);
        lemma_keeps_refl(fold_parts(a));
    } else {
        lemma_fold_append_keeps(a, b.drop_last());
        assert((a + b).drop_last() =~= a + b.drop_last());
        lemma_fold_step_keeps(fold_parts(a + b.drop_last()), b.last());
        lemma_keeps_trans(fold_parts(a), fold_parts(a + b.drop_last()), fold_parts(a + b));
    }
}

/// Every element is a separator.
pub open spec fn all_separators(s: Seq<ScriptPartV>) -> bool {
    forall|i: int| 0 <= i < s.len() ==> #[trigger] s[i] is Separator
}

proof fn lemma_separators_change_nothing(a: Seq<ScriptPartV>, s: Seq<ScriptPartV>)
    requires
        all_separators(s),
    ensures
        fold_parts(a + s) == fold_parts(a),
    decreases s.len(),
{
    if s.len() == 0 {
        assert(a + s =~= a);
    } else {
        assert(s[s.len() - 1] is Separator);
        lemma_separators_change_nothing(a, s.drop_last());
        assert((a + s).drop_last() =~= a + s.drop_last());
    }
}

/// A location change that follows content, with only separators between,
/// keeps the location that holds the content: whatever follows, the final
/// script has that location, ending with the content, right before the new
/// location, which starts with the next part.
pub proof fn lemma_location_change_keeps_content(
    t0: Seq<ScriptPartV>,
    p: ScenePartV,
    s1: Seq<ScriptPartV>,
    raw: Seq<char>,
    s2: Seq<ScriptPartV>,
    q: ScenePartV,
    t1: Seq<ScriptPartV>,
)
    requires
        all_separators(s1),
        all_separators(s2),
    ensures
        ({
            let r = scenes_of(
                t0 + seq![ScriptPartV::Part(p)] + s1 + seq![ScriptPartV::LocationChange(raw)] + s2
                    + seq![ScriptPartV::Part(q)] + t1,
            );
            exists|i: int, j: int|
                0 <= i < r.len() && 0 <= j && j + 1 < r[i].len() && r[i][j].parts.len() > 0
                    && r[i][j].parts.last() == p && r[i][j + 1].kind == location_of(raw).kind
                    && r[i][j + 1].name == location_of(raw).name && r[i][j + 1].parts.len() > 0
                    && r[i][j + 1].parts[0] == q
        }),
{
    let a1 = t0 + seq![ScriptPartV::Part(p)];
    let a2 = a1 + s1;
    let a3 = a2 + seq![ScriptPartV::LocationChange(raw)];
    let a4 = a3 + s2;
    let a5 = a4 + seq![ScriptPartV::Part(q)];
    let all = a5 + t1;
    lemma_fold_ok(t0);
    lemma_fold_ok(a1);
    lemma_fold_ok(a3);
    assert(a1.drop_last() =~= t0);
    assert(a3.drop_last() =~= a2);
    assert(a5.drop_last() =~= a4);
    lemma_separators_change_nothing(a1, s1);
    lemma_separators_change_nothing(a3, s2);
    let st1 = fold_parts(a1);
    let st3 = fold_parts(a3);
    let st5 = fold_parts(a5);
    let i = st1.len() - 1;
    let j = st1[i].len() - 1;
    assert(st1[i][j].parts.len() > 0 && st1[i][j].parts.last() == p);
    assert(st3.len() == st1.len() && st3[i].len() == j + 2);
    assert(st3[i][j] == st1[i][j]);
    assert(st3[i][j + 1] == location_of(raw));
    assert(st5[i][j] == st1[i][j]);
    assert(st5[i][j + 1].parts =~= seq![q]);
    assert(is_current(st5, i, j + 1));
    lemma_fold_append_keeps(a5, t1);
    let fin = fold_parts(all);
    assert(fin[i][j] == st5[i][j]);
    assert(fin[i][j + 1].kind == st5[i][j + 1].kind);
    assert(fin[i][j + 1].parts.subrange(0, 1)[0] == q);
    assert(i < fin.len() && j + 1 < fin[i].len());
    assert(fin[i][j + 1].parts.len() > 0);
    let r = prune(fin);
    assert(i < r.len() && j + 1 < r[i].len());
    assert(r[i][j] == fin[i][j]);
    assert(r[i][j + 1] == fin[i][j + 1]);
    assert(r[i][j + 1].parts[0] == q);
    assert(r == scenes_of(all));
    assert(r[i][j].parts.last() == p);
}

/// The four lines of a short scene: a heading and a direction in column `d`,
/// a speaker in column `s`, and a line of dialog in column `g`, all on one
/// page and each at most 18 below the one before.
pub open spec fn park_scene_lines(lines: Seq<PositionedLine>, d: i32, g: i32, s: i32, page: u32) -> bool {
    &&& lines.len() == 4
    &&& 0 < d < g < s
    &&& lines[0].left == d && lines[1].left == d && lines[2].left == s && lines[3].left == g
    &&& forall|k: int| 0 <= k < 4 ==> #[trigger] lines[k].page == page
    &&& forall|k: int| 1 <= k < 4 ==> 0 <= #[trigger] lines[k].top - lines[k - 1].top <= 18
    &&& lines[0].text@ == "EXT. PARK - DAY"@
    &&& lines[1].text@ == "A dog runs."@
    &&& lines[2].text@ == "ALICE"@
    &&& lines[3].text@ == "Hello!"@
}

/// The script that the short scene makes.
pub open spec fn park_scene_script(page: u32) -> Seq<Seq<LocationV>> {
    seq![
        seq![
            LocationV {
                kind: LocationType::External,
                name: "PARK - DAY"@,
                parts: seq![
                    ScenePartV::Direction { direction: "A dog runs."@, page },
                    ScenePartV::Dialog {
                        speaker: "ALICE"@,
                        dialog: seq![DialogPartV::Dialog("Hello!"@)],
                        page,
                    },
                ],
            },
        ],
    ]
}

/// End to end: whatever the column offsets and the page, the short scene's
/// lines have three columns, and under the layout inferred from them they make one scene with one exterior location "PARK - DAY" holding the
/// direction and then ALICE's line.
pub proof fn lemma_park_scene(
    lines: Seq<PositionedLine>,
    d: i32,
    g: i32,
    s: i32,
    page: u32,
    p: ScriptProperties,
)
    requires
        park_scene_lines(lines, d, g, s, page),
        layout_of(lines, p),
    ensures
        has_three_columns(lines),
        scenes_of(script_parts_of(p, lines)) == park_scene_script(page),
{
    reveal_strlit("EXT. PARK - DAY");
    reveal_strlit("A dog runs.");
    reveal_strlit("ALICE");
    reveal_strlit("Hello!");
    reveal_strlit("PARK - DAY");
    let keys = left_keys(lines);
    assert(keys =~= seq![d as i64, d as i64, s as i64, g as i64]);
    assert(keys[0] == d && keys[2] == s && keys[3] == g);
    assert(keys.contains(d as i64) && keys.contains(g as i64) && keys.contains(s as i64));
    let (a, b, c) = (p.direction_position as i64, p.dialog_position as i64, p.speaker_position as i64);
    assert(keys.contains(a) && keys.contains(b) && keys.contains(c));
    assert(p.direction_position == d && p.dialog_position == g && p.speaker_position == s);
    assert(!exists|y: i64| speaker_direction_candidate(keys, p, y));
    assert(p.speaker_direction_position == 0);
    // the stream
    let l = lines;
    assert(l.subrange(0, 1).drop_last() =~= Seq::<PositionedLine>::empty());
    assert(l.subrange(0, 2).drop_last() =~= l.subrange(0, 1));
    assert(l.subrange(0, 3).drop_last() =~= l.subrange(0, 2));
    assert(l.subrange(0, 4).drop_last() =~= l.subrange(0, 3));
    assert(l.subrange(0, 4) =~= l);
    assert(scan(p, Seq::<PositionedLine>::empty()) == (Seq::<ScriptPartV>::empty(), 0int));
    let heading = l[0].text@;
    assert(is_location_heading(heading)) by {
        assert(heading.subrange(0, 4) =~= seq!['E', 'X', 'T', '.']);
    }
    assert(!is_location_heading(l[1].text@)) by {
        assert(l[1].text@.subrange(0, 4)[0] != 'I');
        assert(l[1].text@.subrange(0, 4)[0] != 'E');
    }
    let lead = leading(l[0]);
    let s1 = lead.push(ScriptPartV::LocationChange(heading));
    assert(scan(p, l.subrange(0, 1)) == (s1, l[0].top as int));
    let s2 = s1.push(ScriptPartV::Part(ScenePartV::Direction { direction: l[1].text@, page }));
    assert(l[1].top - l[0].top <= 18);
    assert(scan(p, l.subrange(0, 2)) == (s2, l[1].top as int));
    let s3 = s2.push(
        ScriptPartV::Part(ScenePartV::Dialog { speaker: l[2].text@, dialog: Seq::empty(), page }),
    );
    assert(Seq::<char>::empty() + l[2].text@ =~= l[2].text@);
    assert(l[2].top - l[1].top <= 18);
    assert(scan(p, l.subrange(0, 3)) == (s3, l[2].top as int));
    let s4 = s2.push(
        ScriptPartV::Part(
            ScenePartV::Dialog {
                speaker: l[2].text@,
                dialog: seq![DialogPartV::Dialog(l[3].text@)],
                page,
            },
        ),
    );
    assert(l[3].top - l[2].top <= 18);
    assert(s3.drop_last() =~= s2);
    assert(add_dialog_text(Seq::empty(), false, l[3].text@) =~= seq![DialogPartV::Dialog(l[3].text@)]);
    assert(scan(p, l) == (s4, l[3].top as int));
    // the fold
    let st0 = seq![seq![default_location()]];
    assert(fold_parts(Seq::<ScriptPartV>::empty()) == st0);
    assert(fold_parts(lead) == st0) by {
        if lead.len() > 0 {
            assert(lead.drop_last() =~= Seq::<ScriptPartV>::empty());
        }
    }
    assert(s1.drop_last() =~= lead);
    assert(s2.drop_last() =~= s1);
    assert(s4.drop_last() =~= s2);
    // the heading
    assert(heading.len() == 15);
    assert(heading.subrange(0, 9)[0] != 'I');
    assert(heading.subrange(0, 4)[0] != 'I');
    assert(heading.subrange(0, 4) =~= ext_marker());
    assert(skip_spaces(heading, 5) == 5);
    assert(skip_spaces(heading, 4) == 5);
    assert(heading.subrange(5, 15) =~= "PARK - DAY"@);
    assert(location_of(heading).kind == LocationType::External);
    assert(location_of(heading).name == "PARK - DAY"@);
    let loc = location_of(heading);
    let dir = ScenePartV::Direction { direction: l[1].text@, page };
    let dlg = ScenePartV::Dialog {
        speaker: l[2].text@,
        dialog: seq![DialogPartV::Dialog(l[3].text@)],
        page,
    };
    let f1 = seq![seq![loc]];
    assert(fold_parts(s1) =~~= f1);
    let f2 = seq![seq![LocationV { kind: loc.kind, name: loc.name, parts: seq![dir] }]];
    assert(loc.parts.push(dir) =~= seq![dir]);
    assert(fold_parts(s2) =~~= f2);
    let f4 = seq![seq![LocationV { kind: loc.kind, name: loc.name, parts: seq![dir, dlg] }]];
    assert(seq![dir].push(dlg) =~= seq![dir, dlg]);
    assert(fold_parts(s4) =~~= f4);
    assert(prune(f4) == f4);
    assert(scenes_of(s4) =~~= park_scene_script(page));
}

} // verus!
