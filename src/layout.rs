use vstd::prelude::*;

verus! {

/// One physical line of the page image: its position, its page and its text.
#[derive(Debug, Clone, PartialEq, Eq)]
pub struct PositionedLine {
    pub top: i32,
    pub left: i32,
    pub height: i32,
    pub page: u32,
    pub text: String,
}

/// The column of each kind of content, and the usual spacing between the lines
/// of one paragraph.
#[derive(Debug, Clone, Copy, PartialEq, Eq, Structural)]
pub struct ScriptProperties {
    pub direction_position: i32,
    pub dialog_position: i32,
    pub speaker_direction_position: i32,
    pub speaker_position: i32,
    pub intra_paragraph_line_height: i64,
}

/// Why a document could not be turned into a script.
#[derive(Debug, Clone, Copy, PartialEq, Eq, Structural)]
pub enum ParseError {
    /// Fewer than three distinct columns: the layout cannot be inferred.
    AmbiguousLayout,
    /// A position attribute of a line is missing or not a number.
    MalformedInput,
}

/// The horizontal offset of each line, in order.
pub open spec fn left_keys(lines: Seq<PositionedLine>) -> Seq<i64> {
    lines.map_values(|l: PositionedLine| l.left as i64)
}

/// The top of the line before line `i` on the same page, or 0 on a new page.
pub open spec fn previous_top(lines: Seq<PositionedLine>, i: int) -> int {
    if i == 0 || lines[i].page != lines[i - 1].page {
        0
    } else {
        lines[i - 1].top as int
    }
}

/// The vertical step from the previous line to each line.
pub open spec fn delta_keys(lines: Seq<PositionedLine>) -> Seq<i64> {
    Seq::new(lines.len(), |i: int| (lines[i].top - previous_top(lines, i)) as i64)
}

/// How often `x` occurs in `keys`.
pub open spec fn occurrences(keys: Seq<i64>, x: i64) -> nat
    decreases keys.len(),
{
    if keys.len() == 0 {
        0
    } else {
        occurrences(keys.drop_last(), x) + if keys.last() == x {
            1nat
        } else {
            0nat
        }
    }
}

proof fn lemma_occurrences_absent(keys: Seq<i64>, x: i64)
    requires
        !keys.contains(x),
    ensures
        occurrences(keys, x) == 0,
    decreases keys.len(),
{
    if keys.len() > 0 {
        assert(!keys.drop_last().contains(x)) by {
            if keys.drop_last().contains(x) {
                let m = choose|m: int| 0 <= m < keys.len() - 1 && keys.drop_last()[m] == x;
                assert(keys[m] == x);
            }
        }
        assert(keys.last() != x) by {
            assert(keys[keys.len() - 1] == keys.last());
        }
        lemma_occurrences_absent(keys.drop_last(), x);
    }
}

/// `x` ranks before `y`: it is more frequent, or as frequent and smaller.
pub open spec fn ranks_before(keys: Seq<i64>, x: i64, y: i64) -> bool {
    occurrences(keys, x) > occurrences(keys, y) || (occurrences(keys, x) == occurrences(keys, y)
        && x < y)
}

/// The document has at least three distinct columns.
pub open spec fn has_three_columns(lines: Seq<PositionedLine>) -> bool {
    exists|a: i64, b: i64, c: i64|
        a < b < c && left_keys(lines).contains(a) && left_keys(lines).contains(b) && left_keys(
            lines,
        ).contains(c)
}

/// `a < b < c` are the three most frequent columns.
pub open spec fn top_three(keys: Seq<i64>, a: i64, b: i64, c: i64) -> bool {
    &&& a < b < c
    &&& keys.contains(a) && keys.contains(b) && keys.contains(c)
    &&& forall|y: i64|
        keys.contains(y) && y != a && y != b && y != c ==> ranks_before(keys, a, y)
            && ranks_before(keys, b, y) && ranks_before(keys, c, y)
}

/// `y` may be the column of parenthetical directions of a dialog.
pub open spec fn speaker_direction_candidate(keys: Seq<i64>, p: ScriptProperties, y: i64) -> bool {
    column_between(
        keys,
        p.direction_position as i64,
        p.dialog_position as i64,
        p.speaker_position as i64,
        y,
    )
}

/// `y` is a column strictly between `dialog` and `speaker`, and none of the three.
pub open spec fn column_between(keys: Seq<i64>, direction: i64, dialog: i64, speaker: i64, y: i64) -> bool {
    &&& keys.contains(y)
    &&& y != direction && y != dialog && y != speaker
    &&& dialog < y < speaker
}

/// `p` is the layout inferred from `lines`.
pub open spec fn layout_of(lines: Seq<PositionedLine>, p: ScriptProperties) -> bool {
    let keys = left_keys(lines);
    let deltas = delta_keys(lines);
    &&& top_three(
        keys,
        p.direction_position as i64,
        p.dialog_position as i64,
        p.speaker_position as i64,
    )
    &&& (exists|y: i64| speaker_direction_candidate(keys, p, y)) ==> {
        &&& speaker_direction_candidate(keys, p, p.speaker_direction_position as i64)
        &&& forall|y: i64|
            speaker_direction_candidate(keys, p, y) && y != p.speaker_direction_position as i64
                ==> ranks_before(keys, p.speaker_direction_position as i64, y)
    }
    &&& !(exists|y: i64| speaker_direction_candidate(keys, p, y)) ==> p.speaker_direction_position
        == 0
    &&& deltas.contains(p.intra_paragraph_line_height)
    &&& forall|y: i64|
        deltas.contains(y) && y != p.intra_paragraph_line_height ==> ranks_before(
            deltas,
            p.intra_paragraph_line_height,
            y,
        )
}

/// `t` lists each distinct key once, with how often it occurs.
pub open spec fn is_tally(keys: Seq<i64>, t: Seq<(i64, usize)>) -> bool {
    &&& forall|i: int|
        0 <= i < t.len() ==> #[trigger] t[i].1 == occurrences(keys, t[i].0) && keys.contains(
            t[i].0,
        )
    &&& forall|i: int, j: int| 0 <= i < j < t.len() ==> t[i].0 != t[j].0
    &&& forall|x: i64| keys.contains(x) ==> exists|i: int| 0 <= i < t.len() && #[trigger] t[i].0 == x
}

/// Counts how often each key occurs, keys in order of first occurrence.
fn tally(keys: &Vec<i64>) -> (t: Vec<(i64, usize)>)
    ensures
        is_tally(keys@, t@),
{
    let mut t: Vec<(i64, usize)> = Vec::new();
    let mut k: usize = 0;
    while k < keys.len()
        invariant
            k <= keys.len(),
            is_tally(keys@.subrange(0, k as int), t@),
            forall|i: int| 0 <= i < t.len() ==> #[trigger] t[i].1 <= k,
        decreases keys.len() - k,
    {
        let x = keys[k];
        let ghost before = keys@.subrange(0, k as int);
        let ghost after = keys@.subrange(0, k + 1);
        assert(after.drop_last() =~= before);
        assert(after.last() == x);
        let mut j: usize = 0;
        while j < t.len() && t[j].0 != x
            invariant
                j <= t.len(),
                forall|i: int| 0 <= i < j ==> #[trigger] t[i].0 != x,
            decreases t.len() - j,
        {
            j = j + 1;
        }
        assert forall|y: i64| before.contains(y) implies after.contains(y) by {
            let m = choose|m: int| 0 <= m < before.len() && before[m] == y;
            assert(after[m] == y);
        }
        assert(after.contains(x)) by {
            assert(after[k as int] == x);
        }
        let ghost old_t = t@;
        if j < t.len() {
            let (key, n) = t[j];
            t.set(j, (key, n + 1));
        } else {
            t.push((x, 1));
        }
        assert forall|y: i64| after.contains(y) implies exists|i: int|
            0 <= i < t.len() && #[trigger] t[i].0 == y by {
            if y != x {
                let m = choose|m: int| 0 <= m < after.len() && after[m] == y;
                assert(m < k);
                assert(before[m] == y);
                assert(before.contains(y));
                let i = choose|i: int| 0 <= i < old_t.len() && #[trigger] old_t[i].0 == y;
                assert(t@[i].0 == y);
            } else {
                assert(t[j as int].0 == x);
            }
        }
        assert forall|i: int| 0 <= i < t.len() implies #[trigger] t@[i].1 == occurrences(
            after,
            t@[i].0,
        ) && after.contains(t@[i].0) by {
            assert(occurrences(after, t@[i].0) == occurrences(before, t@[i].0) + if x == t@[i].0 {
                1nat
            } else {
                0nat
            });
            if j == old_t.len() && i == j {
                assert(!before.contains(x));
                lemma_occurrences_absent(before, x);
            }
            if i < old_t.len() && i != j {
                assert(old_t[i].0 != x);
            }
            if i < old_t.len() {
                assert(old_t[i].1 == occurrences(before, old_t[i].0));
                assert(before.contains(old_t[i].0));
                assert(after.contains(old_t[i].0));
            }
        }
        k = k + 1;
    }
    assert(keys@.subrange(0, keys@.len() as int) =~= keys@);
    t
}

/// Entry `a` of a tally ranks before entry `b`.
pub open spec fn entry_before(a: (i64, usize), b: (i64, usize)) -> bool {
    a.1 > b.1 || (a.1 == b.1 && a.0 < b.0)
}

/// A key that is not excluded and lies strictly between `lo` and `hi`.
pub open spec fn eligible(ex: Seq<i64>, lo: i64, hi: i64, x: i64) -> bool {
    !ex.contains(x) && lo < x < hi
}

fn contains_key(v: &Vec<i64>, x: i64) -> (r: bool)
    ensures
        r == v@.contains(x),
{
    let mut i: usize = 0;
    while i < v.len()
        invariant
            i <= v.len(),
            forall|k: int| 0 <= k < i ==> v@[k] != x,
        decreases v.len() - i,
    {
        if v[i] == x {
            return true;
        }
        i = i + 1;
    }
    false
}

/// Entry `b` is eligible and ranks before every other eligible entry.
#[verifier::opaque]
pub open spec fn ranks_first(t: Seq<(i64, usize)>, ex: Seq<i64>, lo: i64, hi: i64, b: int) -> bool {
    &&& 0 <= b < t.len()
    &&& eligible(ex, lo, hi, t[b].0)
    &&& forall|i: int|
        0 <= i < t.len() && i != b && eligible(ex, lo, hi, #[trigger] t[i].0) ==> entry_before(
            t[b],
            t[i],
        )
}

proof fn lemma_first_ranks_before(
    keys: Seq<i64>,
    t: Seq<(i64, usize)>,
    ex: Seq<i64>,
    lo: i64,
    hi: i64,
    b: int,
    y: i64,
)
    requires
        is_tally(keys, t),
        ranks_first(t, ex, lo, hi, b),
        keys.contains(y),
        eligible(ex, lo, hi, y),
        y != t[b].0,
    ensures
        ranks_before(keys, t[b].0, y),
        eligible(ex, lo, hi, t[b].0),
        keys.contains(t[b].0),
{
    reveal(ranks_first);
    let iy = choose|i: int| 0 <= i < t.len() && #[trigger] t[i].0 == y;
    assert(t[iy].1 == occurrences(keys, y));
    assert(t[b].1 == occurrences(keys, t[b].0));
}

/// The index of the eligible entry that ranks first, if any is eligible.
fn best_entry(t: &Vec<(i64, usize)>, ex: &Vec<i64>, lo: i64, hi: i64) -> (r: Option<usize>)
    requires
        forall|i: int, j: int| 0 <= i < j < t.len() ==> t@[i].0 != t@[j].0,
    ensures
        r is None <==> forall|i: int| 0 <= i < t.len() ==> !eligible(ex@, lo, hi, #[trigger] t@[i].0),
        r matches Some(b) ==> b < t.len() && ranks_first(t@, ex@, lo, hi, b as int),
{
    let mut best: Option<usize> = None;
    let mut i: usize = 0;
    while i < t.len()
        invariant
            i <= t.len(),
            forall|i: int, j: int| 0 <= i < j < t.len() ==> t@[i].0 != t@[j].0,
            best is None <==> forall|k: int| 0 <= k < i ==> !eligible(ex@, lo, hi, #[trigger] t@[k].0),
            best matches Some(b) ==> b < i && eligible(ex@, lo, hi, t@[b as int].0) && forall|k: int|
                0 <= k < i && k != b && eligible(ex@, lo, hi, #[trigger] t@[k].0) ==> entry_before(
                    t@[b as int],
                    t@[k],
                ),
        decreases t.len() - i,
    {
        let (key, n) = t[i];
        if !contains_key(ex, key) && lo < key && key < hi {
            match best {
                None => {
                    best = Some(i);
                },
                Some(b) => {
                    if n > t[b].1 || (n == t[b].1 && key < t[b].0) {
                        best = Some(i);
                    }
                },
            }
        }
        i = i + 1;
    }
    proof {
        reveal(ranks_first);
    }
    best
}

proof fn lemma_tally_keys_bounded(keys: Seq<i64>, t: Seq<(i64, usize)>, lo: int, hi: int)
    requires
        is_tally(keys, t),
        forall|m: int| 0 <= m < keys.len() ==> lo <= #[trigger] keys[m] <= hi,
    ensures
        forall|i: int| 0 <= i < t.len() ==> lo <= #[trigger] t[i].0 <= hi,
{
    assert forall|i: int| 0 <= i < t.len() implies lo <= #[trigger] t[i].0 <= hi by {
        assert(t[i].1 == occurrences(keys, t[i].0));
        let m = choose|m: int| 0 <= m < keys.len() && keys[m] == t[i].0;
        assert(lo <= keys[m] <= hi);
    }
}

proof fn lemma_top_three(
    keys: Seq<i64>,
    t: Seq<(i64, usize)>,
    ia: int,
    ib: int,
    ic: int,
    none: Seq<i64>,
    ex1: Seq<i64>,
    ex2: Seq<i64>,
)
    requires
        is_tally(keys, t),
        forall|m: int| 0 <= m < keys.len() ==> i32::MIN <= #[trigger] keys[m] <= i32::MAX,
        none.len() == 0,
        ex1.len() == 1 && ex1[0] == t[ia].0,
        ex2.len() == 2 && ex2[0] == t[ia].0 && ex2[1] == t[ib].0,
        ranks_first(t, none, i64::MIN, i64::MAX, ia),
        ranks_first(t, ex1, i64::MIN, i64::MAX, ib),
        ranks_first(t, ex2, i64::MIN, i64::MAX, ic),
    ensures
        ({
            let (a, b, c) = (t[ia].0, t[ib].0, t[ic].0);
            &&& keys.contains(a) && keys.contains(b) && keys.contains(c)
            &&& a != b && a != c && b != c
            &&& forall|y: i64|
                keys.contains(y) && y != a && y != b && y != c ==> ranks_before(keys, a, y)
                    && ranks_before(keys, b, y) && ranks_before(keys, c, y)
        }),
{
    reveal(ranks_first);
    let (a, b, c) = (t[ia].0, t[ib].0, t[ic].0);
    assert(ex1.contains(a));
    assert(ex2.contains(a) && ex2.contains(b));
    assert(t[ia].1 == occurrences(keys, a));
    assert(t[ib].1 == occurrences(keys, b));
    assert(t[ic].1 == occurrences(keys, c));
    assert forall|y: i64|
        keys.contains(y) && y != a && y != b && y != c implies ranks_before(keys, a, y)
            && ranks_before(keys, b, y) && ranks_before(keys, c, y) by {
        let iy = choose|i: int| 0 <= i < t.len() && #[trigger] t[i].0 == y;
        let m = choose|m: int| 0 <= m < keys.len() && keys[m] == y;
        assert(i32::MIN <= keys[m] <= i32::MAX);
        assert(!none.contains(y));
        assert(!ex1.contains(y)) by {
            if ex1.contains(y) {
                let k = choose|k: int| 0 <= k < ex1.len() && ex1[k] == y;
            }
        }
        assert(!ex2.contains(y)) by {
            if ex2.contains(y) {
                let k = choose|k: int| 0 <= k < ex2.len() && ex2[k] == y;
            }
        }
        lemma_first_ranks_before(keys, t, none, i64::MIN, i64::MAX, ia, y);
        lemma_first_ranks_before(keys, t, ex1, i64::MIN, i64::MAX, ib, y);
        lemma_first_ranks_before(keys, t, ex2, i64::MIN, i64::MAX, ic, y);
    }
}

proof fn lemma_speaker_direction(
    keys: Seq<i64>,
    t: Seq<(i64, usize)>,
    ex3: Seq<i64>,
    direction: i64,
    dialog: i64,
    speaker: i64,
    sd: i64,
)
    requires
        is_tally(keys, t),
        ex3.len() == 3,
        ex3[0] == direction && ex3[1] == dialog && ex3[2] == speaker,
        (exists|b: int| ranks_first(t, ex3, dialog, speaker, b) && t[b].0 == sd) || (sd == 0
            && forall|i: int| 0 <= i < t.len() ==> !eligible(ex3, dialog, speaker, #[trigger] t[i].0)),
    ensures
        (exists|y: i64| column_between(keys, direction, dialog, speaker, y)) ==> {
            &&& column_between(keys, direction, dialog, speaker, sd)
            &&& forall|y: i64|
                column_between(keys, direction, dialog, speaker, y) && y != sd ==> ranks_before(
                    keys,
                    sd,
                    y,
                )
        },
        !(exists|y: i64| column_between(keys, direction, dialog, speaker, y)) ==> sd == 0,
{
    assert(ex3.contains(direction) && ex3.contains(dialog) && ex3.contains(speaker)) by {
        assert(ex3[0] == direction && ex3[1] == dialog && ex3[2] == speaker);
    }
    assert forall|y: i64| #[trigger]
        column_between(keys, direction, dialog, speaker, y) implies eligible(
        ex3,
        dialog,
        speaker,
        y,
    ) by {
        if ex3.contains(y) {
            let k = choose|k: int| 0 <= k < ex3.len() && ex3[k] == y;
        }
    }
    if exists|b: int| ranks_first(t, ex3, dialog, speaker, b) && t[b].0 == sd {
        let b = choose|b: int| ranks_first(t, ex3, dialog, speaker, b) && t[b].0 == sd;
        reveal(ranks_first);
        assert(keys.contains(sd)) by {
            assert(t[b].1 == occurrences(keys, t[b].0));
        }
        assert(column_between(keys, direction, dialog, speaker, sd));
        assert forall|y: i64|
            column_between(keys, direction, dialog, speaker, y) && y != sd implies ranks_before(
            keys,
            sd,
            y,
        ) by {
            lemma_first_ranks_before(keys, t, ex3, dialog, speaker, b, y);
        }
    } else {
        if exists|y: i64| column_between(keys, direction, dialog, speaker, y) {
            let y = choose|y: i64| column_between(keys, direction, dialog, speaker, y);
            let iy = choose|i: int| 0 <= i < t.len() && #[trigger] t[i].0 == y;
            assert(eligible(ex3, dialog, speaker, t[iy].0));
        }
    }
}

proof fn lemma_most_frequent(deltas: Seq<i64>, dt: Seq<(i64, usize)>, none: Seq<i64>, ih: int)
    requires
        is_tally(deltas, dt),
        none.len() == 0,
        forall|m: int| 0 <= m < deltas.len() ==> i32::MIN - i32::MAX <= #[trigger] deltas[m] <= i32::MAX - i32::MIN,
        ranks_first(dt, none, i64::MIN, i64::MAX, ih),
    ensures
        deltas.contains(dt[ih].0),
        forall|y: i64| deltas.contains(y) && y != dt[ih].0 ==> ranks_before(deltas, dt[ih].0, y),
{
    reveal(ranks_first);
    assert(dt[ih].1 == occurrences(deltas, dt[ih].0));
    assert forall|y: i64| deltas.contains(y) && y != dt[ih].0 implies ranks_before(deltas, dt[ih].0, y) by {
        let m = choose|m: int| 0 <= m < deltas.len() && deltas[m] == y;
        assert(i32::MIN - i32::MAX <= deltas[m] <= i32::MAX - i32::MIN);
        assert(!none.contains(y));
        lemma_first_ranks_before(deltas, dt, none, i64::MIN, i64::MAX, ih, y);
    }
}

/// The three most frequent keys, in ascending order.
fn top_columns(keys: &Vec<i64>, t: &Vec<(i64, usize)>) -> (r: (i64, i64, i64))
    requires
        is_tally(keys@, t@),
        t.len() >= 3,
        forall|m: int| 0 <= m < keys.len() ==> i32::MIN <= #[trigger] keys@[m] <= i32::MAX,
    ensures
        top_three(keys@, r.0, r.1, r.2),
{
    proof {
        lemma_tally_keys_bounded(keys@, t@, i32::MIN as int, i32::MAX as int);
    }
    let none: Vec<i64> = Vec::new();
    assert(eligible(none@, i64::MIN, i64::MAX, t@[0].0));
    let ia = best_entry(t, &none, i64::MIN, i64::MAX).unwrap();
    let a = t[ia].0;
    let ex1: Vec<i64> = vec![a];
    assert(ex1@.contains(a)) by {
        assert(ex1@[0] == a);
    }
    if t[0].0 != a {
        assert(eligible(ex1@, i64::MIN, i64::MAX, t@[0].0));
    } else {
        assert(eligible(ex1@, i64::MIN, i64::MAX, t@[1].0));
    }
    let ib = best_entry(t, &ex1, i64::MIN, i64::MAX).unwrap();
    let b = t[ib].0;
    let ex2: Vec<i64> = vec![a, b];
    assert(ex2@.contains(a) && ex2@.contains(b)) by {
        assert(ex2@[0] == a && ex2@[1] == b);
    }
    if t[0].0 != a && t[0].0 != b {
        assert(eligible(ex2@, i64::MIN, i64::MAX, t@[0].0));
    } else if t[1].0 != a && t[1].0 != b {
        assert(eligible(ex2@, i64::MIN, i64::MAX, t@[1].0));
    } else {
        assert(eligible(ex2@, i64::MIN, i64::MAX, t@[2].0));
    }
    let ic = best_entry(t, &ex2, i64::MIN, i64::MAX).unwrap();
    let c = t[ic].0;
    proof {
        lemma_top_three(keys@, t@, ia as int, ib as int, ic as int, none@, ex1@, ex2@);
    }
    if a < b {
        if b < c {
            (a, b, c)
        } else if a < c {
            (a, c, b)
        } else {
            (c, a, b)
        }
    } else {
        if a < c {
            (b, a, c)
        } else if b < c {
            (b, c, a)
        } else {
            (c, b, a)
        }
    }
}

/// The most frequent key strictly between `dialog` and `speaker` that is none
/// of the three columns, or 0 where there is none.
fn speaker_direction_column(
    keys: &Vec<i64>,
    t: &Vec<(i64, usize)>,
    direction: i64,
    dialog: i64,
    speaker: i64,
) -> (r: i64)
    requires
        is_tally(keys@, t@),
        top_three(keys@, direction, dialog, speaker),
        forall|m: int| 0 <= m < keys.len() ==> i32::MIN <= #[trigger] keys@[m] <= i32::MAX,
    ensures
        i32::MIN <= r <= i32::MAX,
        (exists|y: i64| column_between(keys@, direction, dialog, speaker, y)) ==> {
            &&& column_between(keys@, direction, dialog, speaker, r)
            &&& forall|y: i64|
                column_between(keys@, direction, dialog, speaker, y) && y != r ==> ranks_before(
                    keys@,
                    r,
                    y,
                )
        },
        !(exists|y: i64| column_between(keys@, direction, dialog, speaker, y)) ==> r == 0,
{
    proof {
        lemma_tally_keys_bounded(keys@, t@, i32::MIN as int, i32::MAX as int);
    }
    let ex3: Vec<i64> = vec![direction, dialog, speaker];
    let pick = best_entry(t, &ex3, dialog, speaker);
    let r: i64 = match pick {
        Some(s) => t[s].0,
        None => 0,
    };
    proof {
        if let Some(s) = pick {
            assert(ranks_first(t@, ex3@, dialog, speaker, s as int) && t@[s as int].0 == r);
            reveal(ranks_first);
        }
        lemma_speaker_direction(keys@, t@, ex3@, direction, dialog, speaker, r);
    }
    r
}

/// The most frequent key, the smaller one on a tie.
fn most_frequent(keys: &Vec<i64>, t: &Vec<(i64, usize)>) -> (r: i64)
    requires
        is_tally(keys@, t@),
        keys.len() > 0,
        forall|m: int|
            0 <= m < keys.len() ==> i32::MIN - i32::MAX <= #[trigger] keys@[m] <= i32::MAX - i32::MIN,
    ensures
        keys@.contains(r),
        forall|y: i64| keys@.contains(y) && y != r ==> ranks_before(keys@, r, y),
{
    proof {
        lemma_tally_keys_bounded(keys@, t@, i32::MIN - i32::MAX, i32::MAX - i32::MIN);
        assert(keys@.contains(keys@[0]));
    }
    let none: Vec<i64> = Vec::new();
    let ih = best_entry(t, &none, i64::MIN, i64::MAX).unwrap();
    proof {
        lemma_most_frequent(keys@, t@, none@, ih as int);
    }
    t[ih].0
}

/// Infers the column of each kind of content from how often each horizontal
/// offset is used, and the paragraph spacing from how often each vertical step
/// occurs. Ties go to the smaller value.
pub fn analyze_layout(lines: &Vec<PositionedLine>) -> (r: Result<ScriptProperties, ParseError>)
    ensures
        r is Err <==> !has_three_columns(lines@),
        r matches Err(e) ==> e == ParseError::AmbiguousLayout,
        r matches Ok(p) ==> layout_of(lines@, p),
{
    let mut lefts: Vec<i64> = Vec::new();
    let mut deltas: Vec<i64> = Vec::new();
    let mut i: usize = 0;
    while i < lines.len()
        invariant
            i <= lines.len(),
            lefts@.len() == i,
            deltas@.len() == i,
            forall|k: int| 0 <= k < i ==> #[trigger] lefts@[k] == lines@[k].left as i64,
            forall|k: int|
                0 <= k < i ==> #[trigger] deltas@[k] == (lines@[k].top - previous_top(lines@, k)) as i64,
        decreases lines.len() - i,
    {
        let prev: i64 = if i == 0 || lines[i - 1].page != lines[i].page {
            0
        } else {
            lines[i - 1].top as i64
        };
        lefts.push(lines[i].left as i64);
        deltas.push(lines[i].top as i64 - prev);
        i = i + 1;
    }
    assert(lefts@ =~= left_keys(lines@));
    assert(deltas@ =~= delta_keys(lines@));
    let t = tally(&lefts);
    if t.len() < 3 {
        proof {
            if has_three_columns(lines@) {
                let (a, b, c) = choose|a: i64, b: i64, c: i64|
                    a < b < c && left_keys(lines@).contains(a) && left_keys(lines@).contains(b)
                        && left_keys(lines@).contains(c);
                let ia = choose|i: int| 0 <= i < t.len() && #[trigger] t@[i].0 == a;
                let ib = choose|i: int| 0 <= i < t.len() && #[trigger] t@[i].0 == b;
                let ic = choose|i: int| 0 <= i < t.len() && #[trigger] t@[i].0 == c;
            }
        }
        return Err(ParseError::AmbiguousLayout);
    }
    let (direction, dialog, speaker) = top_columns(&lefts, &t);
    let speaker_direction = speaker_direction_column(&lefts, &t, direction, dialog, speaker);
    assert(lefts@.len() > 0) by {
        assert(t@[0].1 == occurrences(lefts@, t@[0].0));
    }
    let dt = tally(&deltas);
    let height = most_frequent(&deltas, &dt);
    let p = ScriptProperties {
        direction_position: direction as i32,
        dialog_position: dialog as i32,
        speaker_direction_position: speaker_direction as i32,
        speaker_position: speaker as i32,
        intra_paragraph_line_height: height,
    };
    assert(has_three_columns(lines@));
    Ok(p)
}

} // verus!
