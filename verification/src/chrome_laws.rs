//! What the marks, the keys and the labels of the chrome promise.
use vstd::prelude::*;

use crate::agent::{Agent, AgentStatus, BlockReason};
use crate::chrome_text::{cut_at, Labels};
use crate::icons::{mark_of, IconName, Spin, Status};
use crate::keys::{code_of, consumed_of, lower, mods_of, text_of, KeyCode, Modifiers};
use crate::kit::{kit_theme, ButtonKind};
use crate::sorted::text_before;
use crate::theme::{Alpha, Surfaces, Swatch, Variant};

verus! {

/// What an agent's report shows as: nothing of one that is not there, rest at its prompt, work while
/// it thinks or runs a tool, need where it asks, and done once it is.
pub proof fn law_a_status_tells_how_the_agent_stands(agent: Agent<Seq<char>>)
    ensures
        Status::shown(agent) is None <==> agent.status is Absent,
        Status::shown(agent) == Some(Status::Idle) <==> (agent.status is Idle || agent.status
            matches AgentStatus::Blocked(BlockReason::IdlePrompt)),
        Status::shown(agent) == Some(Status::Working) <==> (agent.status is Working || agent.status
            is Tool),
        Status::shown(agent) == Some(Status::Done) <==> agent.status is Done,
        Status::shown(agent) == Some(Status::NeedsYou) <==> (agent.status matches
            AgentStatus::Blocked(why) && !(why is IdlePrompt)),
        Status::shown(agent) != Some(Status::Failed) && Status::shown(agent) != Some(Status::Away),
{
}

/// A status's mark is its own icon, and turns exactly while something works; its tone warns where
/// the human is needed or something is out of reach.
pub proof fn law_a_mark_shows_its_status(status: Status)
    ensures
        mark_of(None) is None,
        mark_of(Some(status)) matches Some(mark) && mark.status == status && mark.icon
            == status.mark() && (mark.turns <==> status == Status::Working),
        status.mark() == IconName::Circle <==> status == Status::Idle,
        status.mark() == IconName::LoaderCircle <==> status == Status::Working,
        status.mark() == IconName::CircleAlert <==> status == Status::NeedsYou,
        status.mark() == IconName::CircleCheck <==> status == Status::Done,
        status.mark() == IconName::CircleX <==> status == Status::Failed,
        status.mark() == IconName::Unplug <==> status == Status::Away,
        status.swatch() == Swatch::Warn <==> (status == Status::NeedsYou || status == Status::Away),
        status.swatch() == Swatch::Error <==> status == Status::Failed,
        status.swatch() == Swatch::Success <==> status == Status::Done,
        status.swatch() == Swatch::Accent <==> status == Status::Working,
        status.swatch() == Swatch::TextMuted <==> status == Status::Idle,
{
}

/// The first paint of a turning mark sets a timer for the rest of the step that is shown; while one
/// is out no other is, and it is gone once it fired.
pub proof fn law_one_timer_turns_the_marks(spin: Spin, view: u64, now: nat)
    requires
        !spin.reduce_motion,
        spin.epoch <= now,
    ensures
        spin.wait(now, false) is Some <==> !spin.armed,
        spin.wait(now, false) matches Some(wait) ==> {
            &&& 0 < wait <= 83_333_333
            &&& (now - spin.epoch + wait) % 83_333_333 == 0
        },
        spin.then_painted(view, false).armed,
        !spin.then_painted(view, false).then_fired().armed,
{
    let since = (now - spin.epoch) as nat;
    let n = since / 83_333_333nat;
    assert(since == n * 83_333_333 + since % 83_333_333);
    assert((n + 1) * 83_333_333 % 83_333_333 == 0);
}

/// The modifiers of an event are those held, each in its own place.
pub proof fn law_each_modifier_keeps_its_place(m: Modifiers, has_text: bool, as_alt: bool)
    ensures
        mods_of(m).shift == m.shift,
        mods_of(m).alt == m.alt,
        mods_of(m).ctrl == m.control,
        mods_of(m).logo == m.platform,
        has_text ==> consumed_of(m, has_text, as_alt).shift == m.shift,
        has_text && !as_alt ==> consumed_of(m, has_text, as_alt).alt == m.alt,
{
}

/// With Option as Alt a letter types itself, its capital with Shift, and any other key types
/// nothing; else what is typed is what the layout made of the key, and nothing where it made nothing.
pub proof fn law_what_a_key_types(key: Seq<char>, made: Option<Seq<char>>, shift: bool)
    ensures
        text_of(key, made, shift, false) == (if made is Some && made->0.len() > 0 {
            made
        } else {
            None
        }),
        key.len() != 1 ==> text_of(key, made, shift, true) is None,
        key.len() == 1 && 'a' <= key[0] <= 'z' ==> {
            &&& text_of(key, made, false, true) == Some(key)
            &&& text_of(key, made, true, true) matches Some(typed) && typed.len() == 1
                && typed[0] as u32 + 32 == key[0] as u32
        },
        key.len() == 1 && 'A' <= key[0] <= 'Z' ==> text_of(key, made, shift, true) == Some(key),
        key.len() == 1 && !('a' <= key[0] <= 'z') && !('A' <= key[0] <= 'Z') ==> text_of(
            key,
            made,
            shift,
            true,
        ) is None,
{
    if key.len() == 1 {
        assert(key =~= seq![key[0]]);
    }
}

/// A letter's key is the same with and without Shift.
pub proof fn law_a_letter_is_one_key(key: Seq<char>, big: Seq<char>)
    requires
        key.len() == 1,
        'a' <= key[0] <= 'z',
        big.len() == 1,
        big[0] as u32 + 32 == key[0] as u32,
    ensures
        code_of(big) == code_of(key),
        code_of(key) != KeyCode::Unidentified,
        key[0] == 'a' ==> code_of(key) == KeyCode::A,
        key[0] == 'c' ==> code_of(key) == KeyCode::C,
        key[0] == 'v' ==> code_of(key) == KeyCode::V,
        key[0] == 'z' ==> code_of(key) == KeyCode::Z,
{
    assert(lower(big[0]) == key[0]);
}

/// Texts go by their first difference, by the number of its character; one that another starts with
/// goes before it.
pub proof fn law_texts_go_by_their_first_difference(
    common: Seq<char>,
    a: char,
    b: char,
    x: Seq<char>,
    y: Seq<char>,
)
    ensures
        (a as u32) < (b as u32) ==> text_before(common + seq![a] + x, common + seq![b] + y),
        (a as u32) < (b as u32) ==> !text_before(common + seq![b] + y, common + seq![a] + x),
        text_before(common, common + seq![a] + x),
        !text_before(common + seq![a] + x, common),
        !text_before(common, common),
    decreases common.len(),
{
    let (p, q) = (common + seq![a] + x, common + seq![b] + y);
    if common.len() == 0 {
        assert(p[0] == a);
        assert(q[0] == b);
    } else {
        let rest = common.drop_first();
        assert(p.drop_first() =~= rest + seq![a] + x);
        assert(q.drop_first() =~= rest + seq![b] + y);
        assert(p[0] == common[0] && q[0] == common[0]);
        law_texts_go_by_their_first_difference(rest, a, b, x, y);
    }
}

/// A label that fits is not cut; one that does not is cut somewhere.
pub proof fn law_only_what_does_not_fit_is_cut(fits: Seq<bool>)
    ensures
        cut_at(true, fits) is None,
        fits.len() > 0 ==> cut_at(false, fits) is Some,
        fits.len() == 0 ==> cut_at(false, fits) is None,
{
}

/// Within a frame nothing is swept: every label stays until the frame changes. A use keeps the label
/// and the frame it was in.
pub proof fn law_nothing_is_swept_within_a_frame(labels: Labels, key: u128, other: u128, frame: u64)
    requires
        labels.frame == Some(frame),
    ensures
        labels.then_sweep(Some(frame)) == labels,
        labels.then_use(key, Some(frame)).touched.contains_key(key),
        labels.touched.contains_key(other) ==> labels.then_use(
            key,
            Some(frame),
        ).touched.contains_key(other),
        labels.then_use(key, Some(frame)).frame == Some(frame),
{
}

/// Each surface token is the theme's colour of that name; a colour of the terminal's palette is none
/// of them.
pub proof fn law_a_surface_is_found_by_its_name(s: Surfaces, n: u8)
    ensures
        s.named(Swatch::Canvas) == Some(s.canvas),
        s.named(Swatch::Panel) == Some(s.panel),
        s.named(Swatch::Raised) == Some(s.raised),
        s.named(Swatch::Overlay) == Some(s.overlay),
        s.named(Swatch::Border) == Some(s.border),
        s.named(Swatch::Text) == Some(s.text),
        s.named(Swatch::TextMuted) == Some(s.text_muted),
        s.named(Swatch::TextSecondary) == Some(s.text_secondary),
        s.named(Swatch::Accent) == Some(s.accent),
        s.named(Swatch::AccentFg) == Some(s.accent_fg),
        s.named(Swatch::Success) == Some(s.success),
        s.named(Swatch::Warn) == Some(s.warn),
        s.named(Swatch::Error) == Some(s.error),
        s.named(Swatch::Ansi(n)) is None,
{
}

/// Only the primary button is filled with the accent, and only a link is unpadded and underlined; a
/// button without a fill has no frame either. The widgets' theme is dark exactly where the
/// interface's is.
pub proof fn law_a_button_looks_its_part(kind: ButtonKind, variant: Variant)
    ensures
        kind.wears().fill == Some(Swatch::Accent) <==> kind is Primary,
        kind.wears().padded <==> !(kind is Link),
        kind.wears().hover_underline <==> kind is Link,
        kind.wears().fill is None <==> kind.wears().border.alpha == Alpha::Clear,
        kind is Primary ==> kind.wears().text == Swatch::AccentFg,
        kind is Secondary ==> kind.wears().text == Swatch::Text && kind.wears().fill == Some(
            Swatch::Panel,
        ),
        kind is Quiet ==> kind.wears().text == Swatch::TextSecondary,
        kind is Link ==> kind.wears().text == Swatch::Accent,
        kit_theme(variant).dark <==> variant is Dark,
        !kit_theme(variant).focus_ring,
{
}

} // verus!
