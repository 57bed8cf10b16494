use vstd::prelude::*;

verus! {

/// The kind of a location, as given by the marker in front of its name.
#[derive(Debug, Clone, Copy, PartialEq, Eq, Structural)]
pub enum LocationType {
    Internal,
    External,
    InternalExternal,
    Undefined,
}

/// One entry of a dialog: a parenthetical stage direction or spoken text.
#[derive(Debug, Clone, PartialEq, Eq)]
pub enum DialogPart {
    Direction(String),
    Dialog(String),
}

/// A direction paragraph or a dialog block, with the page it starts on.
#[derive(Debug, Clone, PartialEq, Eq)]
pub enum ScenePart {
    Direction { direction: String, page: u32 },
    Dialog { speaker: String, dialog: Vec<DialogPart>, page: u32 },
}

/// A location within a scene and everything that happens there.
#[derive(Debug, Clone, PartialEq, Eq)]
pub struct Location {
    pub kind: LocationType,
    pub name: String,
    pub parts: Vec<ScenePart>,
}

pub type Scene = Vec<Location>;

pub type Script = Vec<Scene>;

/// Mathematical value of a `DialogPart`.
pub enum DialogPartV {
    Direction(Seq<char>),
    Dialog(Seq<char>),
}

/// Mathematical value of a `ScenePart`.
pub enum ScenePartV {
    Direction { direction: Seq<char>, page: u32 },
    Dialog { speaker: Seq<char>, dialog: Seq<DialogPartV>, page: u32 },
}

/// Mathematical value of a `Location`.
pub struct LocationV {
    pub kind: LocationType,
    pub name: Seq<char>,
    pub parts: Seq<ScenePartV>,
}

impl View for DialogPart {
    type V = DialogPartV;

    open spec fn view(&self) -> DialogPartV {
        match self {
            DialogPart::Direction(s) => DialogPartV::Direction(s@),
            DialogPart::Dialog(s) => DialogPartV::Dialog(s@),
        }
    }
}

pub open spec fn dialog_view(d: Seq<DialogPart>) -> Seq<DialogPartV> {
    d.map_values(|p: DialogPart| p@)
}

impl View for ScenePart {
    type V = ScenePartV;

    open spec fn view(&self) -> ScenePartV {
        match self {
            ScenePart::Direction { direction, page } => ScenePartV::Direction {
                direction: direction@,
                page: *page,
            },
            ScenePart::Dialog { speaker, dialog, page } => ScenePartV::Dialog {
                speaker: speaker@,
                dialog: dialog_view(dialog@),
                page: *page,
            },
        }
    }
}

pub open spec fn parts_view(p: Seq<ScenePart>) -> Seq<ScenePartV> {
    p.map_values(|x: ScenePart| x@)
}

impl View for Location {
    type V = LocationV;

    open spec fn view(&self) -> LocationV {
        LocationV { kind: self.kind, name: self.name@, parts: parts_view(self.parts@) }
    }
}

pub open spec fn scene_view(s: Seq<Location>) -> Seq<LocationV> {
    s.map_values(|l: Location| l@)
}

pub open spec fn script_view(s: Seq<Scene>) -> Seq<Seq<LocationV>> {
    s.map_values(|sc: Scene| scene_view(sc@))
}

impl ScenePartV {
    /// The page a part starts on.
    pub open spec fn page(self) -> u32 {
        match self {
            ScenePartV::Direction { page, .. } => page,
            ScenePartV::Dialog { page, .. } => page,
        }
    }
}

impl DialogPart {
    /// A copy with the same value.
    pub fn duplicate(&self) -> (r: DialogPart)
        ensures
            r@ == self@,
    {
        match self {
            DialogPart::Direction(s) => DialogPart::Direction(s.clone()),
            DialogPart::Dialog(s) => DialogPart::Dialog(s.clone()),
        }
    }
}

impl ScenePart {
    /// A copy with the same value.
    pub fn duplicate(&self) -> (r: ScenePart)
        ensures
            r@ == self@,
    {
        match self {
            ScenePart::Direction { direction, page } => ScenePart::Direction {
                direction: direction.clone(),
                page: *page,
            },
            ScenePart::Dialog { speaker, dialog, page } => {
                let mut copy: Vec<DialogPart> = Vec::new();
                let mut i: usize = 0;
                while i < dialog.len()
                    invariant
                        i <= dialog.len(),
                        copy@.len() == i,
                        forall|k: int| 0 <= k < i ==> #[trigger] copy@[k]@ == dialog@[k]@,
                    decreases dialog.len() - i,
                {
                    copy.push(dialog[i].duplicate());
                    i = i + 1;
                }
                assert(dialog_view(copy@) =~= dialog_view(dialog@));
                ScenePart::Dialog { speaker: speaker.clone(), dialog: copy, page: *page }
            },
        }
    }

    /// The page this part starts on.
    pub fn page(&self) -> (r: u32)
        ensures
            r == self@.page(),
    {
        match self {
            ScenePart::Direction { page, .. } => *page,
            ScenePart::Dialog { page, .. } => *page,
        }
    }
}

impl Location {
    /// A location with no name, no kind and nothing in it yet.
    pub fn placeholder() -> (r: Location)
        ensures
            r@ == default_location(),
    {
        let r = Location { kind: LocationType::Undefined, name: String::new(), parts: Vec::new() };
        assert(r@.parts =~= Seq::<ScenePartV>::empty());
        r
    }
}

/// The placeholder location that every scene starts with.
pub open spec fn default_location() -> LocationV {
    LocationV { kind: LocationType::Undefined, name: Seq::empty(), parts: Seq::empty() }
}

/// No scene is empty and no location is empty.
pub open spec fn well_formed_script(s: Seq<Seq<LocationV>>) -> bool {
    forall|i: int|
        0 <= i < s.len() ==> #[trigger] s[i].len() > 0 && forall|j: int|
            0 <= j < s[i].len() ==> #[trigger] s[i][j].parts.len() > 0
}

} // verus!
