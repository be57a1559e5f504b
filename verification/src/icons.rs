//! The icons chrome draws, the vocabulary for how a thing is doing, and the clock the working
//! mark turns by.
//!
//! An icon takes its size from the type scale and its colour from the text beside it, so it never
//! outweighs the words it marks.
use vstd::prelude::*;

use crate::agent::{Agent, AgentEvent, AgentStatus, BlockReason};
use crate::sorted::{all_inserted, ascending, insert_all, lemma_all_inserted};
use crate::theme::{Colours, Rgb, Swatch};
use crate::time::{gap, Duration, Instant};

verus! {

/// The icons that are embedded.
#[derive(Clone, Copy, PartialEq, Eq, Hash, Structural, Debug)]
pub enum IconName {
    Activity,
    AppWindow,
    ArrowDown,
    ArrowLeft,
    ArrowRight,
    ArrowUp,
    ArrowUpDown,
    Bell,
    Bot,
    Cable,
    Cast,
    Check,
    ChevronDown,
    ChevronRight,
    ChevronUp,
    Circle,
    CircleAlert,
    CircleCheck,
    CircleDot,
    CirclePause,
    CircleX,
    Clipboard,
    Clock,
    Columns2,
    Command,
    Copy,
    Cpu,
    Download,
    Ellipsis,
    Eraser,
    File,
    FileText,
    Folder,
    FolderOpen,
    GitBranch,
    Globe,
    Hand,
    Inbox,
    Info,
    Keyboard,
    LayoutGrid,
    Link,
    ListFilter,
    LoaderCircle,
    Maximize2,
    MessageSquareWarning,
    Monitor,
    MousePointer2,
    MoveHorizontal,
    MoveVertical,
    PanelLeft,
    Pause,
    Pencil,
    Plus,
    RotateCw,
    Save,
    Search,
    Server,
    ServerOff,
    Settings,
    SquareTerminal,
    StickyNote,
    Terminal,
    Type,
    Undo2,
    Unplug,
    Upload,
    Volume2,
    VolumeX,
    Wifi,
    WifiOff,
    X,
}

/// The asset source every window registers: the chosen icons, then the components' bundle.
#[derive(Clone, Copy, Debug)]
pub struct Assets;

impl Assets {
    /// The bytes at a path: the chosen icon's, else the bundle's.
    pub fn load(&self, chosen: Option<Vec<u8>>, bundle: Option<Vec<u8>>) -> (r: Option<Vec<u8>>)
        ensures
            r == (match chosen {
                Some(bytes) => Some(bytes),
                None => bundle,
            }),
    {
        match chosen {
            Some(bytes) => Some(bytes),
            None => bundle,
        }
    }

    /// The paths of both sources, each once, in order.
    pub fn list(&self, chosen: &Vec<String>, bundle: &Vec<String>) -> (r: Vec<String>)
        ensures
            r.deep_view() == all_inserted(
                all_inserted(Seq::empty(), chosen.deep_view()),
                bundle.deep_view(),
            ),
    {
        let mut out: Vec<String> = Vec::new();
        assert(out.deep_view() =~= Seq::<Seq<char>>::empty());
        insert_all(&mut out, chosen);
        insert_all(&mut out, bundle);
        out
    }
}

/// The paths listed are in order, each once, and are those of both sources.
pub proof fn law_every_asset_is_listed_once(chosen: Seq<Seq<char>>, bundle: Seq<Seq<char>>)
    ensures
        ({
            let all = all_inserted(all_inserted(Seq::empty(), chosen), bundle);
            &&& ascending(all)
            &&& forall|t: Seq<char>| #[trigger]
                all.contains(t) <==> chosen.contains(t) || bundle.contains(t)
        }),
{
    let first = all_inserted(Seq::empty(), chosen);
    lemma_all_inserted(Seq::empty(), chosen);
    lemma_all_inserted(first, bundle);
    assert forall|t: Seq<char>| #[trigger] all_inserted(first, bundle).contains(t) <==>
        chosen.contains(t) || bundle.contains(t) by {
        assert(first.contains(t) <==> chosen.contains(t));
    }
}

/// How large an icon is drawn.
#[derive(Clone, Copy, PartialEq, Eq, Structural, Debug)]
pub enum IconSize {
    /// Beside chrome text.
    Inline,
    /// Standing alone.
    Large,
}

/// The one vocabulary for how a thing is doing, wherever it is shown: a tile's header, a navigator
/// row, the palette, a toast. Each state has one icon and one tone, so a glance reads the same
/// everywhere.
#[derive(Clone, Copy, PartialEq, Eq, Structural, Debug)]
pub enum Status {
    /// Nothing to say: a shell at its prompt, an agent at rest.
    Idle,
    /// Busy on its own: an agent thinking or running a tool, a command running.
    Working,
    /// Waiting on the human: a permission, a question, an elicitation.
    NeedsYou,
    /// Finished and not yet looked at.
    Done,
    /// Failed: a command's non-zero exit, a session that ended in error.
    Failed,
    /// Out of reach: a worker away, a session reconnecting.
    Away,
}

impl Status {
    /// What an agent's report shows as.
    pub open spec fn shown(agent: Agent<Seq<char>>) -> Option<Status> {
        match agent.status {
            AgentStatus::Absent => None,
            AgentStatus::Idle => Some(Status::Idle),
            AgentStatus::Blocked(BlockReason::IdlePrompt) => Some(Status::Idle),
            AgentStatus::Working => Some(Status::Working),
            AgentStatus::Tool { .. } => Some(Status::Working),
            AgentStatus::Blocked(_) => Some(Status::NeedsYou),
            AgentStatus::Done => Some(Status::Done),
        }
    }

    /// What an agent's report shows as; `None` when there is no agent to speak of.
    pub fn of_agent(agent: &AgentEvent) -> (r: Option<Status>)
        ensures
            r == Status::shown(agent.deep_view()),
    {
        match &agent.status {
            AgentStatus::Absent => None,
            AgentStatus::Idle => Some(Status::Idle),
            AgentStatus::Blocked(BlockReason::IdlePrompt) => Some(Status::Idle),
            AgentStatus::Working => Some(Status::Working),
            AgentStatus::Tool { .. } => Some(Status::Working),
            AgentStatus::Blocked(_) => Some(Status::NeedsYou),
            AgentStatus::Done => Some(Status::Done),
        }
    }

    /// The icon that marks it.
    pub open spec fn mark(self) -> IconName {
        match self {
            Status::Idle => IconName::Circle,
            Status::Working => IconName::LoaderCircle,
            Status::NeedsYou => IconName::CircleAlert,
            Status::Done => IconName::CircleCheck,
            Status::Failed => IconName::CircleX,
            Status::Away => IconName::Unplug,
        }
    }

    /// The icon that marks it.
    pub fn icon(self) -> (r: IconName)
        ensures
            r == self.mark(),
    {
        match self {
            Status::Idle => IconName::Circle,
            Status::Working => IconName::LoaderCircle,
            Status::NeedsYou => IconName::CircleAlert,
            Status::Done => IconName::CircleCheck,
            Status::Failed => IconName::CircleX,
            Status::Away => IconName::Unplug,
        }
    }

    /// Its tone, by name.
    pub open spec fn swatch(self) -> Swatch {
        match self {
            Status::Idle => Swatch::TextMuted,
            Status::Working => Swatch::Accent,
            Status::NeedsYou => Swatch::Warn,
            Status::Away => Swatch::Warn,
            Status::Done => Swatch::Success,
            Status::Failed => Swatch::Error,
        }
    }

    /// Its tone.
    pub fn tone(self, theme: &Colours) -> (r: Rgb)
        ensures
            theme.surfaces.named(self.swatch()) == Some(r),
    {
        let s = &theme.surfaces;
        match self {
            Status::Idle => s.text_muted,
            Status::Working => s.accent,
            Status::NeedsYou => s.warn,
            Status::Away => s.warn,
            Status::Done => s.success,
            Status::Failed => s.error,
        }
    }

    /// Its name in words.
    pub open spec fn name(self) -> Seq<char> {
        match self {
            Status::Idle => "Idle"@,
            Status::Working => "Working"@,
            Status::NeedsYou => "Needs you"@,
            Status::Done => "Done"@,
            Status::Failed => "Failed"@,
            Status::Away => "Away"@,
        }
    }

    /// Its name for the accessibility tree and tooltips.
    pub fn label(self) -> (r: &'static str)
        ensures
            r@ == self.name(),
    {
        match self {
            Status::Idle => "Idle",
            Status::Working => "Working",
            Status::NeedsYou => "Needs you",
            Status::Done => "Done",
            Status::Failed => "Failed",
            Status::Away => "Away",
        }
    }
}

/// Each status has an icon of its own and a name of its own.
pub proof fn law_each_status_has_its_own_icon(a: Status, b: Status)
    ensures
        a.mark() == b.mark() ==> a == b,
        a.name() == b.name() ==> a == b,
{
    reveal_strlit("Idle");
    reveal_strlit("Working");
    reveal_strlit("Needs you");
    reveal_strlit("Done");
    reveal_strlit("Failed");
    reveal_strlit("Away");
    if a.name() == b.name() {
        assert(a.name()[0] == b.name()[0]);
        assert(a.name().len() == b.name().len());
    }
}

/// An agent waits on the human exactly where its report shows so.
pub proof fn law_a_waiting_agent_needs_you(agent: Agent<Seq<char>>)
    ensures
        crate::agent::waits(agent) <==> Status::shown(agent) == Some(Status::NeedsYou),
        crate::agent::works(agent) <==> Status::shown(agent) == Some(Status::Working),
{
}

/// A mark in its slot: an image named by its status, and whether it turns.
#[derive(Clone, Copy, PartialEq, Eq, Structural, Debug)]
pub struct Mark {
    pub status: Status,
    pub icon: IconName,
    pub turns: bool,
}

/// The mark of a status. An empty slot is nothing to a screen reader, and takes the same room.
pub open spec fn mark_of(status: Option<Status>) -> Option<Mark> {
    match status {
        Some(status) => Some(
            Mark { status, icon: status.mark(), turns: status == Status::Working },
        ),
        None => None,
    }
}

/// What stands in a status's slot: rows that carry a mark and rows that do not keep their titles
/// on one edge, so the slot is there either way. Only the working mark turns.
pub fn status_mark(status: Option<Status>) -> (r: Option<Mark>)
    ensures
        r == mark_of(status),
{
    match status {
        Some(status) => {
            let turns = match status {
                Status::Working => true,
                _ => false,
            };
            Some(Mark { status, icon: status.icon(), turns })
        },
        None => None,
    }
}

/// The steps in one turn of the working mark, which makes one turn a second.
pub const SPIN_STEPS: u32 = 12;

/// How long the working mark holds each step, in nanoseconds: a twelfth of a second. It steps
/// rather than glides, so a window with an agent at work draws twelve frames a second for it, not
/// one on every display refresh.
pub const SPIN_STEP: u64 = 83_333_333;

/// The step of its turn the working mark shows.
pub open spec fn step_at(since: nat, reduce_motion: bool) -> nat {
    if reduce_motion {
        0
    } else {
        ((since / (SPIN_STEP as nat)) % (SPIN_STEPS as nat)) as nat
    }
}

/// How long the step shown still holds.
pub open spec fn step_left(since: nat) -> nat {
    (SPIN_STEP - since % (SPIN_STEP as nat)) as nat
}

/// The step of its turn the working mark shows `since` the spin clock started: always the first
/// under Reduce Motion, where it stands still.
pub fn spin_step(since: Duration, reduce_motion: bool) -> (r: u32)
    ensures
        r == step_at(since@, reduce_motion),
        r < SPIN_STEPS,
{
    if reduce_motion {
        return 0;
    }
    let steps: u128 = since.as_nanos() / (SPIN_STEP as u128);
    (steps % (SPIN_STEPS as u128)) as u32
}

/// How long after `since` the next step begins.
pub fn until_next_step(since: Duration) -> (r: Duration)
    ensures
        r@ == step_left(since@),
        0 < r@ <= SPIN_STEP,
{
    let into: u128 = since.as_nanos() % (SPIN_STEP as u128);
    Duration::from_nanos(SPIN_STEP - (into as u64))
}

/// The timer lands on the next step, and until then the step shown stays.
pub proof fn law_the_timer_lands_on_the_next_step(since: nat, at: nat)
    requires
        since <= at < since + step_left(since),
    ensures
        step_at(at, false) == step_at(since, false),
        step_at(since + step_left(since), false) == (step_at(since, false) + 1) % (
        SPIN_STEPS as nat),
{
    let n = since / 83_333_333nat;
    assert(since == n * 83_333_333 + since % 83_333_333);
    assert(at / 83_333_333nat == n) by {
        assert(n * 83_333_333 <= at < (n + 1) * 83_333_333);
    }
    let next = since + step_left(since);
    assert(next == (n + 1) * 83_333_333);
    assert(next / 83_333_333nat == n + 1);
}

/// A turn takes twelve steps, which is a second but for a few nanoseconds.
pub proof fn law_a_turn_takes_twelve_steps(since: nat)
    ensures
        step_at((since + SPIN_STEP * SPIN_STEPS) as nat, false) == step_at(since, false),
        999_999_000 < SPIN_STEP * SPIN_STEPS <= 1_000_000_000,
{
    let n = since / 83_333_333nat;
    let next = (since + 999_999_996) as nat;
    assert(since == n * 83_333_333 + since % 83_333_333);
    assert(next / 83_333_333nat == n + 12);
}

/// Under Reduce Motion the mark stands on its first step.
pub proof fn law_reduce_motion_stands_still(since: nat)
    ensures
        step_at(since, true) == 0,
{
}

/// The clock every working mark turns by, one per app, so marks on screen together show the same
/// step.
///
/// A mark that paints names its view here, and the first to do so since the last step sets a timer
/// for the next one. When it fires the named views are notified and draw again, and those still
/// showing a mark name themselves anew. A view that stops painting one, because the work ended or
/// it scrolled away, is not woken again, and nothing turns while nothing shows.
#[derive(Debug)]
pub struct SpinClock {
    /// When the first mark was drawn.
    epoch: Instant,
    /// Reduce Motion, read from the system once, when the clock is made.
    reduce_motion: bool,
    /// The views that painted a turning mark since the last step.
    wake: Vec<u64>,
    /// A timer is out for the next step.
    armed: bool,
}

/// The clock, in the model.
pub struct Spin {
    pub epoch: nat,
    pub reduce_motion: bool,
    pub wake: Seq<u64>,
    pub armed: bool,
}

impl View for SpinClock {
    type V = Spin;

    closed spec fn view(&self) -> Spin {
        Spin {
            epoch: self.epoch@,
            reduce_motion: self.reduce_motion,
            wake: self.wake@,
            armed: self.armed,
        }
    }
}

impl Spin {
    /// The step a mark shows now.
    pub open spec fn step(self, now: nat, reduce: bool) -> nat {
        step_at(gap(self.epoch, now), reduce || self.reduce_motion)
    }

    /// A view painted a turning mark.
    pub open spec fn then_painted(self, view: u64, reduce: bool) -> Spin {
        if reduce || self.reduce_motion {
            self
        } else {
            Spin {
                wake: if self.wake.contains(view) {
                    self.wake
                } else {
                    self.wake.push(view)
                },
                armed: true,
                ..self
            }
        }
    }

    /// How long the timer set by that paint waits; none is set while one is out, nor under Reduce
    /// Motion.
    pub open spec fn wait(self, now: nat, reduce: bool) -> Option<nat> {
        if reduce || self.reduce_motion || self.armed {
            None
        } else {
            Some(step_left(gap(self.epoch, now)))
        }
    }

    /// The timer fired.
    pub open spec fn then_fired(self) -> Spin {
        Spin { wake: Seq::empty(), armed: false, ..self }
    }

    /// A timer is out exactly while a view waits for it, and no view waits twice.
    pub open spec fn sound(self) -> bool {
        &&& self.armed <==> self.wake.len() > 0
        &&& self.wake.no_duplicates()
        &&& self.reduce_motion ==> !self.armed
    }
}

/// How long, in nanoseconds, the duration in `o` is.
pub open spec fn nanos_in(o: Option<Duration>) -> Option<nat> {
    match o {
        Some(d) => Some(d@),
        None => None,
    }
}

impl SpinClock {
    /// The app's clock, made on first use.
    pub fn new(now: Instant, reduce_motion: bool) -> (r: SpinClock)
        ensures
            r@ == (Spin { epoch: now@, reduce_motion, wake: Seq::empty(), armed: false }),
    {
        SpinClock { epoch: now, reduce_motion, wake: Vec::new(), armed: false }
    }

    /// The step a mark shows now; `reduce` says the app asks for less motion.
    pub fn step(&self, now: Instant, reduce: bool) -> (r: u32)
        ensures
            r == self@.step(now@, reduce),
    {
        spin_step(now.saturating_duration_since(self.epoch), reduce || self.reduce_motion)
    }

    /// A mark was painted in `view`: how long to wait before the views named here are to be woken,
    /// where no timer is out yet.
    pub fn painted(&mut self, view: u64, now: Instant, reduce: bool) -> (r: Option<Duration>)
        ensures
            final(self)@ == old(self)@.then_painted(view, reduce),
            nanos_in(r) == old(self)@.wait(now@, reduce),
    {
        if reduce || self.reduce_motion {
            return None;
        }
        let mut i: usize = 0;
        let mut known = false;
        while i < self.wake.len()
            invariant
                i <= self.wake@.len(),
                known == self.wake@.take(i as int).contains(view),
            decreases self.wake.len() - i,
        {
            proof {
                let (a, b) = (self.wake@.take(i as int), self.wake@.take(i + 1));
                assert(b == a.push(self.wake@[i as int]));
                assert(b[i as int] == self.wake@[i as int]);
                if a.contains(view) {
                    let k = choose|k: int| 0 <= k < a.len() && a[k] == view;
                    assert(b[k] == view);
                }
            }
            if self.wake[i] == view {
                known = true;
            }
            i += 1;
        }
        assert(self.wake@.take(i as int) == self.wake@);
        if !known {
            self.wake.push(view);
        }
        if self.armed {
            return None;
        }
        self.armed = true;
        Some(until_next_step(now.saturating_duration_since(self.epoch)))
    }

    /// The timer fired: the views to wake.
    pub fn fired(&mut self) -> (r: Vec<u64>)
        ensures
            final(self)@ == old(self)@.then_fired(),
            r@ == old(self)@.wake,
    {
        self.armed = false;
        let mut woken: Vec<u64> = Vec::new();
        std::mem::swap(&mut woken, &mut self.wake);
        woken
    }
}

/// A new clock is sound, and painting and firing keep it so.
pub proof fn law_the_clock_stays_sound(spin: Spin, view: u64, now: nat, reduce: bool)
    requires
        spin.sound(),
    ensures
        (Spin { epoch: now, reduce_motion: reduce, wake: Seq::empty(), armed: false }).sound(),
        spin.then_painted(view, reduce).sound(),
        spin.then_fired().sound(),
{
    let next = spin.then_painted(view, reduce);
    if !(reduce || spin.reduce_motion) && !spin.wake.contains(view) {
        assert forall|i: int, j: int|
            0 <= i < next.wake.len() && 0 <= j < next.wake.len() && i != j implies next.wake[i]
            != next.wake[j] by {
            if i < spin.wake.len() {
                assert(next.wake[i] == spin.wake[i]);
            }
            if j < spin.wake.len() {
                assert(next.wake[j] == spin.wake[j]);
            }
        }
        assert(next.wake[spin.wake.len() as int] == view);
    } else if !(reduce || spin.reduce_motion) {
        let k = choose|k: int| 0 <= k < spin.wake.len() && spin.wake[k] == view;
        assert(spin.wake.len() > 0);
    }
}

/// A view that painted a mark since the last step is woken at the next, one that did not is not,
/// and under Reduce Motion none is.
pub proof fn law_a_mark_wakes_its_view_while_it_shows(spin: Spin, view: u64, other: u64, now: nat)
    requires
        spin.sound(),
        other != view,
    ensures
        !spin.reduce_motion ==> spin.then_painted(view, false).wake.contains(view),
        spin.then_painted(view, false).wake.contains(other) <==> spin.wake.contains(other),
        !spin.then_fired().wake.contains(view),
        spin.then_painted(view, true) == spin && spin.wait(now, true) is None,
{
    let next = spin.then_painted(view, false);
    if !spin.reduce_motion && !spin.wake.contains(view) {
        assert(next.wake[spin.wake.len() as int] == view);
        if spin.wake.contains(other) {
            let k = choose|k: int| 0 <= k < spin.wake.len() && spin.wake[k] == other;
            assert(next.wake[k] == other);
        }
    }
}

} // verus!
