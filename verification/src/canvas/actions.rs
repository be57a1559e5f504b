//! The canvas's actions, their keys and their lines in the palette.
use vstd::prelude::*;

verus! {

/// What a key or a line of the palette does.
#[derive(Clone, Copy, PartialEq, Eq, Structural, Debug)]
pub enum Action {
    /// Open a new shell on the host.
    NewTerminal,
    /// Open a new coding agent on the host.
    NewAgent,
    /// Put an empty note on the canvas.
    NewNote,
    /// Put a host window or display on the canvas.
    AddWindow,
    /// Close the active item (terminates its session).
    CloseItem,
    /// Put back the card closed last, while the offer stands.
    UndoClose,
    /// Zoom in about the viewport centre.
    ZoomIn,
    /// Zoom out about the viewport centre.
    ZoomOut,
    /// Zoom to 100%.
    ZoomReset,
    /// Fit every item in the viewport.
    FitAll,
    /// Fit the active item in the viewport.
    ZoomToItem,
    /// Tidy the canvas into one block of items per repository.
    ArrangeByRepo,
    /// Reveal the next terminal whose agent is waiting on the human.
    NextAttention,
    /// Silence or resume the active remote window's audio on this client.
    ToggleMute,
    /// Show or hide the stream stats overlay on every remote window.
    ToggleStats,
    /// Move the keyboard focus to the next control.
    FocusNext,
    /// Move the keyboard focus to the previous control.
    FocusPrev,
    /// Open the command palette: every action by name.
    OpenPalette,
    /// Name the active card.
    RenameItem,
    /// Point the other clients at the active card.
    PointOthers,
    /// Find text in every card.
    FindEverywhere,
    /// Activate and reveal the next card in reading order.
    NextCard,
    /// Activate and reveal the previous card in reading order.
    PrevCard,
    /// Activate and reveal the nearest card to the left of the active one.
    CardLeft,
    /// Activate and reveal the nearest card to the right of the active one.
    CardRight,
    /// Activate and reveal the nearest card above the active one.
    CardUp,
    /// Activate and reveal the nearest card below the active one.
    CardDown,
    /// Move the active file card's reading line up one line.
    LineUp,
    /// Move the active file card's reading line down one line.
    LineDown,
    /// Move the active file card's reading line up one page.
    PageUp,
    /// Move the active file card's reading line down one page.
    PageDown,
    /// Move the active file card's reading line to the first line.
    LineFirst,
    /// Move the active file card's reading line to the last line.
    LineLast,
    /// Open the find bar of the terminal or file.
    Find,
    /// Close the find bar.
    CloseFind,
    /// Go to the next hit.
    FindNext,
    /// Go to the previous hit.
    FindPrev,
    /// Go to the previous prompt.
    PrevPrompt,
    /// Go to the next prompt.
    NextPrompt,
    /// Copy what the last command printed.
    CopyLastOutput,
    /// Run the last command again.
    RerunLast,
    /// Keep the last command and its output as a note.
    NoteLastBlock,
    /// Clear the screen and the history.
    ClearScreen,
}

/// Where a key binding holds.
#[derive(Clone, Copy, PartialEq, Eq, Structural, Debug)]
pub enum Place {
    /// The canvas, but for a focused remote window: its editor's chords are not ours to take.
    Canvas,
    /// The canvas and a focused remote window: the keyboard's way back to the canvas.
    Ring,
    /// The canvas while a file card is active. A binding matches before a focused terminal's own
    /// keys, so an arrow bound anywhere else would be taken from the shell.
    FileCard,
    /// A focused field.
    Input,
    /// A file card's find bar.
    FileSearch,
}

impl Place {
    /// The place as a predicate on the focused element's contexts.
    pub open spec fn predicate_of(self) -> Seq<char> {
        match self {
            Place::Canvas => "Canvas && !Screen"@,
            Place::Ring => "Canvas"@,
            Place::FileCard => "Canvas && file_card"@,
            Place::Input => "Input"@,
            Place::FileSearch => "FileSearch"@,
        }
    }

    /// The place as a predicate on the focused element's contexts.
    pub fn predicate(self) -> (r: &'static str)
        ensures
            r@ == self.predicate_of(),
    {
        match self {
            Place::Canvas => "Canvas && !Screen",
            Place::Ring => "Canvas",
            Place::FileCard => "Canvas && file_card",
            Place::Input => "Input",
            Place::FileSearch => "FileSearch",
        }
    }
}

/// A key, what it does, and where.
#[derive(Clone, Copy, Debug, PartialEq, Eq)]
pub struct KeyBinding {
    pub keys: &'static str,
    pub action: Action,
    pub place: Place,
}

/// A line of the palette for an action.
#[derive(Clone, Copy, Debug, PartialEq, Eq)]
pub struct PaletteLine {
    pub label: &'static str,
    pub action: Action,
    /// The terminal's own action, whose keys are in the terminal's table.
    pub terminal: bool,
}

/// The canvas's keys.
pub open spec fn bindings() -> Seq<(Seq<char>, Action, Place)> {
    seq![
        ("cmd-t"@, Action::NewTerminal, Place::Canvas),
        ("cmd-n"@, Action::NewTerminal, Place::Canvas),
        ("cmd-shift-t"@, Action::NewAgent, Place::Canvas),
        ("cmd-shift-n"@, Action::NewNote, Place::Canvas),
        ("cmd-o"@, Action::AddWindow, Place::Canvas),
        ("cmd-w"@, Action::CloseItem, Place::Canvas),
        ("cmd-z"@, Action::UndoClose, Place::Canvas),
        ("cmd-="@, Action::ZoomIn, Place::Canvas),
        ("cmd-shift-="@, Action::ZoomIn, Place::Canvas),
        ("cmd--"@, Action::ZoomOut, Place::Canvas),
        ("cmd-0"@, Action::ZoomReset, Place::Canvas),
        ("cmd-1"@, Action::FitAll, Place::Canvas),
        ("cmd-2"@, Action::ZoomToItem, Place::Canvas),
        ("cmd-shift-r"@, Action::ArrangeByRepo, Place::Canvas),
        ("cmd-shift-a"@, Action::NextAttention, Place::Canvas),
        ("cmd-shift-m"@, Action::ToggleMute, Place::Canvas),
        ("cmd-shift-i"@, Action::ToggleStats, Place::Canvas),
        ("cmd-f"@, Action::Find, Place::Canvas),
        ("ctrl-tab"@, Action::FocusNext, Place::Ring),
        ("ctrl-shift-tab"@, Action::FocusPrev, Place::Ring),
        ("cmd-shift-p"@, Action::OpenPalette, Place::Canvas),
        ("cmd-e"@, Action::RenameItem, Place::Canvas),
        ("cmd-shift-o"@, Action::PointOthers, Place::Canvas),
        ("cmd-shift-f"@, Action::FindEverywhere, Place::Canvas),
        ("cmd-shift-f"@, Action::FindEverywhere, Place::Input),
        ("cmd-]"@, Action::NextCard, Place::Canvas),
        ("cmd-["@, Action::PrevCard, Place::Canvas),
        ("cmd-alt-left"@, Action::CardLeft, Place::Canvas),
        ("cmd-alt-right"@, Action::CardRight, Place::Canvas),
        ("cmd-alt-up"@, Action::CardUp, Place::Canvas),
        ("cmd-alt-down"@, Action::CardDown, Place::Canvas),
        ("up"@, Action::LineUp, Place::FileCard),
        ("down"@, Action::LineDown, Place::FileCard),
        ("pageup"@, Action::PageUp, Place::FileCard),
        ("pagedown"@, Action::PageDown, Place::FileCard),
        ("home"@, Action::LineFirst, Place::FileCard),
        ("end"@, Action::LineLast, Place::FileCard),
        ("cmd-up"@, Action::LineFirst, Place::FileCard),
        ("cmd-down"@, Action::LineLast, Place::FileCard),
        ("escape"@, Action::CloseFind, Place::FileSearch),
        ("cmd-g"@, Action::FindNext, Place::FileSearch),
        ("cmd-shift-g"@, Action::FindPrev, Place::FileSearch),
    ]
}

/// The bindings, in the model.
pub open spec fn bound(v: Seq<KeyBinding>) -> Seq<(Seq<char>, Action, Place)> {
    v.map_values(|b: KeyBinding| (b.keys@, b.action, b.place))
}

/// Adds a binding.
fn bind(out: &mut Vec<KeyBinding>, keys: &'static str, action: Action, place: Place)
    ensures
        bound(final(out)@) == bound(old(out)@).push((keys@, action, place)),
{
    out.push(KeyBinding { keys, action, place });
    assert(bound(out@) =~= bound(old(out)@).push((keys@, action, place)));
}

/// Key bindings for the canvas.
pub fn key_bindings() -> (r: Vec<KeyBinding>)
    ensures
        bound(r@) == bindings(),
{
    let mut out: Vec<KeyBinding> = Vec::new();
    assert(bound(out@) =~= Seq::<(Seq<char>, Action, Place)>::empty());
    bind(&mut out, "cmd-t", Action::NewTerminal, Place::Canvas);
    bind(&mut out, "cmd-n", Action::NewTerminal, Place::Canvas);
    bind(&mut out, "cmd-shift-t", Action::NewAgent, Place::Canvas);
    bind(&mut out, "cmd-shift-n", Action::NewNote, Place::Canvas);
    bind(&mut out, "cmd-o", Action::AddWindow, Place::Canvas);
    bind(&mut out, "cmd-w", Action::CloseItem, Place::Canvas);
    bind(&mut out, "cmd-z", Action::UndoClose, Place::Canvas);
    bind(&mut out, "cmd-=", Action::ZoomIn, Place::Canvas);
    bind(&mut out, "cmd-shift-=", Action::ZoomIn, Place::Canvas);
    bind(&mut out, "cmd--", Action::ZoomOut, Place::Canvas);
    bind(&mut out, "cmd-0", Action::ZoomReset, Place::Canvas);
    bind(&mut out, "cmd-1", Action::FitAll, Place::Canvas);
    bind(&mut out, "cmd-2", Action::ZoomToItem, Place::Canvas);
    bind(&mut out, "cmd-shift-r", Action::ArrangeByRepo, Place::Canvas);
    bind(&mut out, "cmd-shift-a", Action::NextAttention, Place::Canvas);
    bind(&mut out, "cmd-shift-m", Action::ToggleMute, Place::Canvas);
    bind(&mut out, "cmd-shift-i", Action::ToggleStats, Place::Canvas);
    bind(&mut out, "cmd-f", Action::Find, Place::Canvas);
    bind(&mut out, "ctrl-tab", Action::FocusNext, Place::Ring);
    bind(&mut out, "ctrl-shift-tab", Action::FocusPrev, Place::Ring);
    bind(&mut out, "cmd-shift-p", Action::OpenPalette, Place::Canvas);
    bind(&mut out, "cmd-e", Action::RenameItem, Place::Canvas);
    bind(&mut out, "cmd-shift-o", Action::PointOthers, Place::Canvas);
    bind(&mut out, "cmd-shift-f", Action::FindEverywhere, Place::Canvas);
    bind(&mut out, "cmd-shift-f", Action::FindEverywhere, Place::Input);
    bind(&mut out, "cmd-]", Action::NextCard, Place::Canvas);
    bind(&mut out, "cmd-[", Action::PrevCard, Place::Canvas);
    bind(&mut out, "cmd-alt-left", Action::CardLeft, Place::Canvas);
    bind(&mut out, "cmd-alt-right", Action::CardRight, Place::Canvas);
    bind(&mut out, "cmd-alt-up", Action::CardUp, Place::Canvas);
    bind(&mut out, "cmd-alt-down", Action::CardDown, Place::Canvas);
    bind(&mut out, "up", Action::LineUp, Place::FileCard);
    bind(&mut out, "down", Action::LineDown, Place::FileCard);
    bind(&mut out, "pageup", Action::PageUp, Place::FileCard);
    bind(&mut out, "pagedown", Action::PageDown, Place::FileCard);
    bind(&mut out, "home", Action::LineFirst, Place::FileCard);
    bind(&mut out, "end", Action::LineLast, Place::FileCard);
    bind(&mut out, "cmd-up", Action::LineFirst, Place::FileCard);
    bind(&mut out, "cmd-down", Action::LineLast, Place::FileCard);
    bind(&mut out, "escape", Action::CloseFind, Place::FileSearch);
    bind(&mut out, "cmd-g", Action::FindNext, Place::FileSearch);
    bind(&mut out, "cmd-shift-g", Action::FindPrev, Place::FileSearch);
    assert(bound(out@) =~= bindings());
    out
}

/// The palette's lines.
pub open spec fn lines_of() -> Seq<(Seq<char>, Action, bool)> {
    seq![
        ("New terminal"@, Action::NewTerminal, false),
        ("New agent"@, Action::NewAgent, false),
        ("New note"@, Action::NewNote, false),
        ("Add a window or display"@, Action::AddWindow, false),
        ("Close item"@, Action::CloseItem, false),
        ("Undo close"@, Action::UndoClose, false),
        ("Zoom in"@, Action::ZoomIn, false),
        ("Zoom out"@, Action::ZoomOut, false),
        ("Zoom to 100%"@, Action::ZoomReset, false),
        ("Fit all"@, Action::FitAll, false),
        ("Zoom to item"@, Action::ZoomToItem, false),
        ("Arrange by repository"@, Action::ArrangeByRepo, false),
        ("Next attention"@, Action::NextAttention, false),
        ("Mute or unmute window"@, Action::ToggleMute, false),
        ("Stream stats"@, Action::ToggleStats, false),
        ("Name this card"@, Action::RenameItem, false),
        ("Point the others at this card"@, Action::PointOthers, false),
        ("Find in every card"@, Action::FindEverywhere, false),
        ("Next card"@, Action::NextCard, false),
        ("Previous card"@, Action::PrevCard, false),
        ("Card to the left"@, Action::CardLeft, false),
        ("Card to the right"@, Action::CardRight, false),
        ("Card above"@, Action::CardUp, false),
        ("Card below"@, Action::CardDown, false),
        ("Find in terminal or file"@, Action::Find, true),
        ("Previous prompt"@, Action::PrevPrompt, true),
        ("Next prompt"@, Action::NextPrompt, true),
        ("Copy last output"@, Action::CopyLastOutput, true),
        ("Rerun last command"@, Action::RerunLast, true),
        ("Keep last block as a card"@, Action::NoteLastBlock, true),
        ("Clear the screen and history"@, Action::ClearScreen, true),
    ]
}

/// The lines, in the model.
pub open spec fn listed(v: Seq<PaletteLine>) -> Seq<(Seq<char>, Action, bool)> {
    v.map_values(|l: PaletteLine| (l.label@, l.action, l.terminal))
}

/// Adds a line.
fn line(out: &mut Vec<PaletteLine>, label: &'static str, action: Action, terminal: bool)
    ensures
        listed(final(out)@) == listed(old(out)@).push((label@, action, terminal)),
{
    out.push(PaletteLine { label, action, terminal });
    assert(listed(out@) =~= listed(old(out)@).push((label@, action, terminal)));
}

/// The palette's lines for the canvas's and the terminal's actions.
#[verifier::rlimit(30)]
pub fn palette_items() -> (r: Vec<PaletteLine>)
    ensures
        listed(r@) == lines_of(),
{
    let mut out: Vec<PaletteLine> = Vec::new();
    assert(listed(out@) =~= Seq::<(Seq<char>, Action, bool)>::empty());
    line(&mut out, "New terminal", Action::NewTerminal, false);
    line(&mut out, "New agent", Action::NewAgent, false);
    line(&mut out, "New note", Action::NewNote, false);
    line(&mut out, "Add a window or display", Action::AddWindow, false);
    line(&mut out, "Close item", Action::CloseItem, false);
    line(&mut out, "Undo close", Action::UndoClose, false);
    line(&mut out, "Zoom in", Action::ZoomIn, false);
    line(&mut out, "Zoom out", Action::ZoomOut, false);
    line(&mut out, "Zoom to 100%", Action::ZoomReset, false);
    line(&mut out, "Fit all", Action::FitAll, false);
    line(&mut out, "Zoom to item", Action::ZoomToItem, false);
    line(&mut out, "Arrange by repository", Action::ArrangeByRepo, false);
    line(&mut out, "Next attention", Action::NextAttention, false);
    line(&mut out, "Mute or unmute window", Action::ToggleMute, false);
    line(&mut out, "Stream stats", Action::ToggleStats, false);
    line(&mut out, "Name this card", Action::RenameItem, false);
    line(&mut out, "Point the others at this card", Action::PointOthers, false);
    line(&mut out, "Find in every card", Action::FindEverywhere, false);
    line(&mut out, "Next card", Action::NextCard, false);
    line(&mut out, "Previous card", Action::PrevCard, false);
    line(&mut out, "Card to the left", Action::CardLeft, false);
    line(&mut out, "Card to the right", Action::CardRight, false);
    line(&mut out, "Card above", Action::CardUp, false);
    line(&mut out, "Card below", Action::CardDown, false);
    line(&mut out, "Find in terminal or file", Action::Find, true);
    line(&mut out, "Previous prompt", Action::PrevPrompt, true);
    line(&mut out, "Next prompt", Action::NextPrompt, true);
    line(&mut out, "Copy last output", Action::CopyLastOutput, true);
    line(&mut out, "Rerun last command", Action::RerunLast, true);
    line(&mut out, "Keep last block as a card", Action::NoteLastBlock, true);
    line(&mut out, "Clear the screen and history", Action::ClearScreen, true);
    assert(listed(out@) =~= lines_of());
    out
}

/// A key of the canvas does the action.
pub open spec fn has_key(action: Action) -> bool {
    exists|i: int| 0 <= i < bindings().len() && (#[trigger] bindings()[i]).1 == action
}

/// Every canvas action the palette lists has a key, which its line shows.
pub proof fn law_every_canvas_line_has_a_key(i: int)
    requires
        0 <= i < lines_of().len(),
        !lines_of()[i].2,
    ensures
        has_key(lines_of()[i].1),
{
    assert(bindings()[0].1 == Action::NewTerminal);
    assert(bindings()[2].1 == Action::NewAgent);
    assert(bindings()[3].1 == Action::NewNote);
    assert(bindings()[4].1 == Action::AddWindow);
    assert(bindings()[5].1 == Action::CloseItem);
    assert(bindings()[6].1 == Action::UndoClose);
    assert(bindings()[7].1 == Action::ZoomIn);
    assert(bindings()[9].1 == Action::ZoomOut);
    assert(bindings()[10].1 == Action::ZoomReset);
    assert(bindings()[11].1 == Action::FitAll);
    assert(bindings()[12].1 == Action::ZoomToItem);
    assert(bindings()[13].1 == Action::ArrangeByRepo);
    assert(bindings()[14].1 == Action::NextAttention);
    assert(bindings()[15].1 == Action::ToggleMute);
    assert(bindings()[16].1 == Action::ToggleStats);
    assert(bindings()[21].1 == Action::RenameItem);
    assert(bindings()[22].1 == Action::PointOthers);
    assert(bindings()[23].1 == Action::FindEverywhere);
    assert(bindings()[25].1 == Action::NextCard);
    assert(bindings()[26].1 == Action::PrevCard);
    assert(bindings()[27].1 == Action::CardLeft);
    assert(bindings()[28].1 == Action::CardRight);
    assert(bindings()[29].1 == Action::CardUp);
    assert(bindings()[30].1 == Action::CardDown);
}

/// A focused remote window takes every chord but the ring's, and only a file card's reading line
/// takes bare keys on the canvas.
pub proof fn law_only_the_ring_holds_in_a_remote_window(i: int)
    requires
        0 <= i < bindings().len(),
    ensures
        bindings()[i].2 == Place::Ring <==> (bindings()[i].1 == Action::FocusNext
            || bindings()[i].1 == Action::FocusPrev),
        bindings()[i].2 == Place::FileCard <==> (bindings()[i].1 == Action::LineUp
            || bindings()[i].1 == Action::LineDown || bindings()[i].1 == Action::PageUp
            || bindings()[i].1 == Action::PageDown || bindings()[i].1 == Action::LineFirst
            || bindings()[i].1 == Action::LineLast),
{
}

} // verus!
