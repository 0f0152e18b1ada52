use vstd::prelude::*;
use crate::geometry::{WorldPoint, UNIT, in_box, box_contains};
use crate::camera::{
    PixelPoint,
    WindowSize,
    NdcToWorld,
    CameraError,
    on_window,
    world_of,
    cursor_to_world,
    unique_camera,
};

verus! {

/// Side of the square pick box centred on each agent: 300 world units,
/// whatever the agent looks like on screen.
pub const PICK_BOX_SIZE: i64 = 300 * UNIT;

/// A mobile point entity. Its position is held by the scene, not here.
#[derive(Clone, Debug)]
pub struct Agent {
    pub name: String,
    lifespan: i64,
}

impl Agent {
    pub fn new(name: String) -> (r: Agent)
        ensures
            r.name_of() == name,
            r.lifespan() == 0,
    {
        Agent { name, lifespan: 0 }
    }

    pub closed spec fn name_of(&self) -> String {
        self.name
    }

    pub closed spec fn lifespan(&self) -> int {
        self.lifespan as int
    }

    /// The counter kept for later use; zero for a new agent.
    pub fn get_lifespan(&self) -> (r: i64)
        ensures
            r as int == self.lifespan(),
    {
        self.lifespan
    }
}

/// A click at `p` hits an agent standing at `pos`: `p` is in the closed
/// pick box centred on `pos`.
pub open spec fn hits(pos: WorldPoint, p: WorldPoint) -> bool {
    in_box(pos, PICK_BOX_SIZE as int, PICK_BOX_SIZE as int, p)
}

/// Whether a click at `p` hits the agent standing at `pos`.
pub fn hits_agent(pos: WorldPoint, p: WorldPoint) -> (r: bool)
    ensures
        r == hits(pos, p),
{
    box_contains(pos, PICK_BOX_SIZE, PICK_BOX_SIZE, p)
}

/// `sel` with `id` appended, unless it is there already.
pub open spec fn select_one(sel: Seq<u64>, id: u64) -> Seq<u64> {
    if sel.contains(id) {
        sel
    } else {
        sel.push(id)
    }
}

/// The selection after a click at `p`, over the agents in the order given:
/// each agent hit is added once, the existing order is kept.
pub open spec fn picked(sel: Seq<u64>, agents: Seq<(u64, WorldPoint)>, p: WorldPoint) -> Seq<u64>
    decreases agents.len(),
{
    if agents.len() == 0 {
        sel
    } else {
        let before = picked(sel, agents.drop_last(), p);
        let last = agents.last();
        if hits(last.1, p) {
            select_one(before, last.0)
        } else {
            before
        }
    }
}

proof fn lemma_select_one_no_duplicates(sel: Seq<u64>, id: u64)
    requires
        sel.no_duplicates(),
    ensures
        select_one(sel, id).no_duplicates(),
        select_one(sel, id).contains(id),
        forall|x: u64| sel.contains(x) ==> select_one(sel, id).contains(x),
{
    if !sel.contains(id) {
        let s = sel.push(id);
        assert(s[s.len() - 1] == id);
        assert forall|a: int, b: int| 0 <= a < s.len() && 0 <= b < s.len() && a != b
            implies s[a] != s[b] by {
            if a == s.len() - 1 {
                assert(sel[b] == s[b]);
            } else if b == s.len() - 1 {
                assert(sel[a] == s[a]);
            }
        }
        assert forall|x: u64| sel.contains(x) implies s.contains(x) by {
            let k = choose|k: int| 0 <= k < sel.len() && sel[k] == x;
            assert(s[k] == x);
        }
    }
}

/// After a click every agent hit is selected, and whatever was selected stays so.
proof fn lemma_picked_holds_hits(sel: Seq<u64>, agents: Seq<(u64, WorldPoint)>, p: WorldPoint)
    requires
        sel.no_duplicates(),
    ensures
        picked(sel, agents, p).no_duplicates(),
        forall|x: u64| sel.contains(x) ==> picked(sel, agents, p).contains(x),
        forall|j: int|
            0 <= j < agents.len() && hits(agents[j].1, p) ==> picked(sel, agents, p).contains(
                #[trigger] agents[j].0,
            ),
    decreases agents.len(),
{
    if agents.len() > 0 {
        let rest = agents.drop_last();
        lemma_picked_holds_hits(sel, rest, p);
        let before = picked(sel, rest, p);
        lemma_select_one_no_duplicates(before, agents.last().0);
        assert forall|j: int|
            0 <= j < agents.len() && hits(agents[j].1, p) implies picked(sel, agents, p).contains(
                #[trigger] agents[j].0,
            ) by {
            if j < agents.len() - 1 {
                assert(rest[j] == agents[j]);
            }
        }
    }
}

/// A click changes nothing when every agent it hits is selected already.
proof fn lemma_picked_settled(sel: Seq<u64>, agents: Seq<(u64, WorldPoint)>, p: WorldPoint)
    requires
        forall|j: int|
            0 <= j < agents.len() && hits(agents[j].1, p) ==> sel.contains(#[trigger] agents[j].0),
    ensures
        picked(sel, agents, p) == sel,
    decreases agents.len(),
{
    if agents.len() > 0 {
        let rest = agents.drop_last();
        assert forall|j: int|
            0 <= j < rest.len() && hits(rest[j].1, p) implies sel.contains(#[trigger] rest[j].0) by {
            assert(rest[j] == agents[j]);
        }
        lemma_picked_settled(sel, rest, p);
        if hits(agents.last().1, p) {
            assert(sel.contains(agents[agents.len() - 1].0));
        }
    }
}

/// Clicking the same point twice over the same agents selects nothing more the
/// second time: the second click leaves the selection as the first one left it,
/// and a selection without duplicates keeps none after both clicks.
pub proof fn lemma_click_twice_idempotent(
    sel: Seq<u64>,
    agents: Seq<(u64, WorldPoint)>,
    p: WorldPoint,
)
    requires
        sel.no_duplicates(),
    ensures
        picked(picked(sel, agents, p), agents, p) == picked(sel, agents, p),
        picked(picked(sel, agents, p), agents, p).no_duplicates(),
{
    lemma_picked_holds_hits(sel, agents, p);
    lemma_picked_settled(picked(sel, agents, p), agents, p);
}

/// A click exactly on an edge or a corner of an agent's pick box hits it: the
/// box is closed on both bounds of both axes.
pub proof fn lemma_pick_box_edges_hit(pos: WorldPoint, p: WorldPoint)
    requires
        pos.x - 150 * UNIT <= p.x <= pos.x + 150 * UNIT,
        pos.y - 150 * UNIT <= p.y <= pos.y + 150 * UNIT,
    ensures
        hits(pos, p),
{
}

/// The agents that have been clicked, each once, in the order of their first hit.
#[derive(Clone, Debug)]
pub struct SelectionSet {
    agents: Vec<u64>,
}

impl View for SelectionSet {
    type V = Seq<u64>;

    closed spec fn view(&self) -> Seq<u64> {
        self.agents@
    }
}

impl Default for SelectionSet {
    fn default() -> (r: SelectionSet)
        ensures
            r@ == Seq::<u64>::empty(),
    {
        SelectionSet::new()
    }
}

impl SelectionSet {
    /// No agent appears twice.
    pub open spec fn wf(&self) -> bool {
        self@.no_duplicates()
    }

    pub fn new() -> (r: SelectionSet)
        ensures
            r@ == Seq::<u64>::empty(),
            r.wf(),
    {
        SelectionSet { agents: Vec::new() }
    }

    pub fn len(&self) -> (r: usize)
        ensures
            r == self@.len(),
    {
        self.agents.len()
    }

    /// The selected agents, in order.
    pub fn as_slice(&self) -> (r: &[u64])
        ensures
            r@ == self@,
    {
        self.agents.as_slice()
    }

    pub fn contains(&self, id: u64) -> (r: bool)
        ensures
            r == self@.contains(id),
    {
        let mut i: usize = 0;
        while i < self.agents.len()
            invariant
                0 <= i <= self.agents@.len(),
                forall|j: int| 0 <= j < i ==> self.agents@[j] != id,
            decreases self.agents@.len() - i,
        {
            if self.agents[i] == id {
                return true;
            }
            i = i + 1;
        }
        false
    }

    /// Adds `id` at the end unless it is already selected.
    pub fn select(&mut self, id: u64)
        requires
            old(self).wf(),
        ensures
            final(self).wf(),
            final(self)@ == select_one(old(self)@, id),
    {
        if !self.contains(id) {
            self.agents.push(id);
            proof {
                let s = final(self)@;
                assert forall|a: int, b: int| 0 <= a < s.len() && 0 <= b < s.len() && a != b
                    implies s[a] != s[b] by {
                    if a == s.len() - 1 {
                        assert(old(self)@.contains(s[b]));
                    } else if b == s.len() - 1 {
                        assert(old(self)@.contains(s[a]));
                    }
                }
            }
        }
    }

    /// Records a click at world point `p`: every agent whose pick box holds
    /// `p` is selected, in the order of `agents`.
    pub fn pick(&mut self, agents: &Vec<(u64, WorldPoint)>, p: WorldPoint)
        requires
            old(self).wf(),
        ensures
            final(self).wf(),
            final(self)@ == picked(old(self)@, agents@, p),
    {
        let ghost start = self@;
        let mut i: usize = 0;
        while i < agents.len()
            invariant
                0 <= i <= agents@.len(),
                self.wf(),
                self@ == picked(start, agents@.subrange(0, i as int), p),
            decreases agents@.len() - i,
        {
            let (id, pos) = agents[i];
            proof {
                assert(agents@.subrange(0, i + 1).drop_last() =~= agents@.subrange(0, i as int));
            }
            if hits_agent(pos, p) {
                self.select(id);
            }
            i = i + 1;
        }
        proof {
            assert(agents@.subrange(0, agents@.len() as int) =~= agents@);
        }
    }
}

/// What a tick's pointer input came to.
#[derive(Clone, Copy, Debug, PartialEq, Eq, Structural)]
pub enum ClickOutcome {
    /// The button was not pressed this tick.
    NotPressed,
    /// The pointer is off the window, or not captured.
    NoPointer,
    /// No single camera to map the pointer with.
    Camera(CameraError),
    /// The click landed on this world point, and the agents hit were selected.
    Picked(WorldPoint),
}

/// The outcome of a tick's input: the press edge, the pointer, then the camera,
/// then the pointer's place on the window.
pub open spec fn click_outcome(
    just_pressed: bool,
    cursor: Option<PixelPoint>,
    win: WindowSize,
    cameras: Seq<NdcToWorld>,
) -> ClickOutcome {
    if !just_pressed {
        ClickOutcome::NotPressed
    } else if cursor.is_none() {
        ClickOutcome::NoPointer
    } else if cameras.len() == 0 {
        ClickOutcome::Camera(CameraError::NoCamera)
    } else if cameras.len() > 1 {
        ClickOutcome::Camera(CameraError::SeveralCameras)
    } else if !on_window(cursor.unwrap(), win) {
        ClickOutcome::NoPointer
    } else {
        ClickOutcome::Picked(world_of(cameras[0], cursor.unwrap(), win))
    }
}

impl SelectionSet {
    /// Handles one tick of pointer input. On a press edge, with the pointer on
    /// the window and exactly one camera, the pointer is mapped to the world
    /// and every agent hit there is selected; otherwise nothing changes.
    pub fn handle_click(
        &mut self,
        just_pressed: bool,
        cursor: Option<PixelPoint>,
        win: WindowSize,
        cameras: &Vec<NdcToWorld>,
        agents: &Vec<(u64, WorldPoint)>,
    ) -> (r: ClickOutcome)
        requires
            old(self).wf(),
        ensures
            final(self).wf(),
            r == click_outcome(just_pressed, cursor, win, cameras@),
            match r {
                ClickOutcome::Picked(w) => final(self)@ == picked(old(self)@, agents@, w),
                _ => final(self)@ == old(self)@,
            },
    {
        if !just_pressed {
            return ClickOutcome::NotPressed;
        }
        let p = match cursor {
            Some(p) => p,
            None => {
                return ClickOutcome::NoPointer;
            },
        };
        let camera = match unique_camera(cameras) {
            Ok(c) => c,
            Err(e) => {
                return ClickOutcome::Camera(e);
            },
        };
        match cursor_to_world(p, win, camera) {
            Some(w) => {
                self.pick(agents, w);
                ClickOutcome::Picked(w)
            },
            None => ClickOutcome::NoPointer,
        }
    }
}

} // verus!
