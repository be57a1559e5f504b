//! Accessibility: the keyboard ring, the names of the key bar's keys, and the reading order of
//! the tree.
//!
//! Every button-like element is one stop of the keyboard ring in reading order: Tab and Shift-Tab
//! move along it, Enter and Space click, and a mouse press leaves the keyboard where it is.
use vstd::prelude::*;

use crate::keys::Keystroke;
use crate::text::{copy_of, held, same_text};

verus! {

/// A step along the keyboard ring.
#[derive(Clone, Copy, PartialEq, Eq, Structural, Debug)]
pub enum Step {
    Next,
    Prev,
}

/// The step a key asks for: Tab forward, Shift-Tab back; with Ctrl or Cmd it is another's.
pub open spec fn step_of(stroke: Keystroke) -> Option<Step> {
    if stroke.key@ != "tab"@ || stroke.modifiers.control || stroke.modifiers.platform {
        None
    } else if stroke.modifiers.shift {
        Some(Step::Prev)
    } else {
        Some(Step::Next)
    }
}

/// Tab and Shift-Tab move the focus along the ring; `None` when the key was neither.
pub fn cycle(stroke: &Keystroke) -> (r: Option<Step>)
    ensures
        r == step_of(*stroke),
{
    if !same_text(stroke.key.as_str(), "tab") || stroke.modifiers.control
        || stroke.modifiers.platform {
        return None;
    }
    if stroke.modifiers.shift {
        Some(Step::Prev)
    } else {
        Some(Step::Next)
    }
}

/// A key-bar key's name for a screen reader.
pub open spec fn name_of(label: Seq<char>) -> Seq<char> {
    if label == "esc"@ {
        "Escape"@
    } else if label == "tab"@ {
        "Tab"@
    } else if label == "⌃"@ {
        "Control"@
    } else if label == "⌘"@ {
        "Command"@
    } else if label == "←"@ {
        "Left arrow"@
    } else if label == "↑"@ {
        "Up arrow"@
    } else if label == "↓"@ {
        "Down arrow"@
    } else if label == "→"@ {
        "Right arrow"@
    } else if label == "-"@ {
        "Minus"@
    } else if label == "/"@ {
        "Slash"@
    } else if label == "|"@ {
        "Pipe"@
    } else if label == "~"@ {
        "Tilde"@
    } else if label == "copy"@ {
        "Copy"@
    } else if label == "paste"@ {
        "Paste"@
    } else if label == "select"@ {
        "Select"@
    } else {
        "Key"@
    }
}

/// A key-bar key's name for a screen reader.
pub fn key_name(label: &str) -> (r: &'static str)
    ensures
        r@ == name_of(label@),
{
    if same_text(label, "esc") {
        "Escape"
    } else if same_text(label, "tab") {
        "Tab"
    } else if same_text(label, "⌃") {
        "Control"
    } else if same_text(label, "⌘") {
        "Command"
    } else if same_text(label, "←") {
        "Left arrow"
    } else if same_text(label, "↑") {
        "Up arrow"
    } else if same_text(label, "↓") {
        "Down arrow"
    } else if same_text(label, "→") {
        "Right arrow"
    } else if same_text(label, "-") {
        "Minus"
    } else if same_text(label, "/") {
        "Slash"
    } else if same_text(label, "|") {
        "Pipe"
    } else if same_text(label, "~") {
        "Tilde"
    } else if same_text(label, "copy") {
        "Copy"
    } else if same_text(label, "paste") {
        "Paste"
    } else if same_text(label, "select") {
        "Select"
    } else {
        "Key"
    }
}

/// Tab asks for a step along the ring, and Shift turns it round; with Ctrl or Cmd it asks for none,
/// and no other key ever does.
pub proof fn law_shift_turns_the_step_round(stroke: Keystroke)
    ensures
        step_of(stroke) is Some <==> (stroke.key@ == seq!['t', 'a', 'b']
            && !stroke.modifiers.control && !stroke.modifiers.platform),
        step_of(stroke) matches Some(step) ==> (step == Step::Prev <==> stroke.modifiers.shift),
{
    reveal_strlit("tab");
    assert("tab"@ =~= seq!['t', 'a', 'b']);
}

/// One node of the tree, trimmed to what a screen reader reads.
#[derive(PartialEq, Debug)]
pub struct Node {
    /// The role (`Button`, `Terminal`, …).
    pub role: String,
    /// The label, if any.
    pub label: Option<String>,
    /// The value, if any (a terminal's cursor row, a text field's text).
    pub value: Option<String>,
    /// The node holds the keyboard focus.
    pub focused: bool,
    /// Window rect in points: x, y, w, h, each as the bits of a single-precision number.
    pub bounds: [u32; 4],
}

/// One node as the window built it.
#[derive(Debug)]
pub struct Built {
    pub id: u64,
    pub role: String,
    pub label: Option<String>,
    pub value: Option<String>,
    pub bounds: [u32; 4],
    /// The nodes inside it, in reading order.
    pub children: Vec<u64>,
}

/// What a screen reader reads of a node, in the model.
pub struct Read {
    pub role: Seq<char>,
    pub label: Option<Seq<char>>,
    pub value: Option<Seq<char>>,
    pub focused: bool,
    pub bounds: Seq<u32>,
}

impl View for Node {
    type V = Read;

    open spec fn view(&self) -> Read {
        Read {
            role: self.role@,
            label: held(self.label),
            value: held(self.value),
            focused: self.focused,
            bounds: self.bounds@,
        }
    }
}

impl Built {
    /// What a screen reader reads of it while `focus` holds the keyboard.
    pub open spec fn read(self, focus: u64) -> Read {
        Read {
            role: self.role@,
            label: held(self.label),
            value: held(self.value),
            focused: self.id == focus,
            bounds: self.bounds@,
        }
    }
}

/// The node with this identity, the last where there are more.
pub open spec fn node_of(nodes: Seq<Built>, id: u64) -> Option<Built>
    decreases nodes.len(),
{
    if nodes.len() == 0 {
        None
    } else if nodes.last().id == id {
        Some(nodes.last())
    } else {
        node_of(nodes.drop_last(), id)
    }
}

/// The trees under `ids` are at most `depth` deep.
pub open spec fn within(nodes: Seq<Built>, ids: Seq<u64>, depth: nat) -> bool
    decreases depth, ids.len(),
{
    if ids.len() == 0 {
        true
    } else if depth == 0 {
        false
    } else {
        &&& within(nodes, ids.drop_first(), depth)
        &&& match node_of(nodes, ids[0]) {
            Some(node) => within(nodes, node.children@, (depth - 1) as nat),
            None => true,
        }
    }
}

/// The trees under `ids`, depth first in reading order, down to `depth`.
pub open spec fn reading(nodes: Seq<Built>, ids: Seq<u64>, focus: u64, depth: nat) -> Seq<Read>
    decreases depth, ids.len(),
{
    if ids.len() == 0 || depth == 0 {
        Seq::empty()
    } else {
        let rest = reading(nodes, ids.drop_first(), focus, depth);
        match node_of(nodes, ids[0]) {
            Some(node) => seq![node.read(focus)] + reading(
                nodes,
                node.children@,
                focus,
                (depth - 1) as nat,
            ) + rest,
            None => rest,
        }
    }
}

proof fn lemma_deeper(nodes: Seq<Built>, ids: Seq<u64>, focus: u64, depth: nat)
    requires
        within(nodes, ids, depth),
    ensures
        within(nodes, ids, depth + 1),
        reading(nodes, ids, focus, depth + 1) == reading(nodes, ids, focus, depth),
    decreases depth, ids.len(),
{
    if ids.len() > 0 {
        lemma_deeper(nodes, ids.drop_first(), focus, depth);
        if let Some(node) = node_of(nodes, ids[0]) {
            lemma_deeper(nodes, node.children@, focus, (depth - 1) as nat);
            assert((depth - 1) as nat + 1 == depth);
        }
    }
}

proof fn lemma_depths_agree(nodes: Seq<Built>, ids: Seq<u64>, focus: u64, a: nat, b: nat)
    requires
        within(nodes, ids, a),
        a <= b,
    ensures
        within(nodes, ids, b),
        reading(nodes, ids, focus, b) == reading(nodes, ids, focus, a),
    decreases b - a,
{
    if a < b {
        lemma_deeper(nodes, ids, focus, a);
        lemma_depths_agree(nodes, ids, focus, a + 1, b);
    }
}

proof fn lemma_reading_append(
    nodes: Seq<Built>,
    a: Seq<u64>,
    b: Seq<u64>,
    focus: u64,
    depth: nat,
)
    requires
        within(nodes, a, depth),
        within(nodes, b, depth),
    ensures
        within(nodes, a + b, depth),
        reading(nodes, a + b, focus, depth) == reading(nodes, a, focus, depth) + reading(
            nodes,
            b,
            focus,
            depth,
        ),
    decreases a.len(),
{
    if a.len() == 0 {
        assert(a + b == b);
        assert(reading(nodes, a, focus, depth) == Seq::<Read>::empty());
    } else {
        lemma_reading_append(nodes, a.drop_first(), b, focus, depth);
        assert((a + b).drop_first() == a.drop_first() + b);
        assert((a + b)[0] == a[0]);
    }
}

/// The one that stands first is read, then what stands in it, then what stands behind it.
proof fn lemma_opened(
    nodes: Seq<Built>,
    node: Built,
    left: Seq<u64>,
    rest: Seq<u64>,
    focus: u64,
    depth: nat,
)
    requires
        left.len() > 0,
        left.drop_first() == rest,
        node_of(nodes, left[0]) == Some(node),
        within(nodes, left, depth),
    ensures
        within(nodes, node.children@ + rest, depth),
        reading(nodes, left, focus, depth) == seq![node.read(focus)] + reading(
            nodes,
            node.children@ + rest,
            focus,
            depth,
        ),
{
    let kids = node.children@;
    lemma_depths_agree(nodes, kids, focus, (depth - 1) as nat, depth);
    lemma_reading_append(nodes, kids, rest, focus, depth);
    let (a, b) = (reading(nodes, kids, focus, depth), reading(nodes, rest, focus, depth));
    assert(seq![node.read(focus)] + a + b =~= seq![node.read(focus)] + (a + b));
}

/// The node with this identity.
fn find_node<'a>(nodes: &'a Vec<Built>, id: u64) -> (r: Option<&'a Built>)
    ensures
        match r {
            Some(node) => node_of(nodes@, id) == Some(*node),
            None => node_of(nodes@, id) is None,
        },
{
    let mut n: usize = nodes.len();
    assert(nodes@.take(n as int) == nodes@);
    while n > 0
        invariant
            n <= nodes@.len(),
            node_of(nodes@, id) == node_of(nodes@.take(n as int), id),
        decreases n,
    {
        proof {
            assert(nodes@.take(n as int).last() == nodes@[n - 1]);
            assert(nodes@.take(n as int).drop_last() == nodes@.take(n - 1));
        }
        if nodes[n - 1].id == id {
            return Some(&nodes[n - 1]);
        }
        n -= 1;
    }
    None
}

/// The tree the window built for the last frame, depth first in reading order, trimmed to what a
/// screen reader reads. No node may stand inside itself.
pub fn tree(nodes: &Vec<Built>, root: u64, focus: u64) -> (r: Vec<Node>)
    requires
        exists|depth: nat| within(nodes@, seq![root], depth),
    ensures
        forall|depth: nat|
            within(nodes@, seq![root], depth) ==> r@.map_values(|n: Node| n@) == #[trigger] reading(
                nodes@,
                seq![root],
                focus,
                depth,
            ),
{
    let ghost depth: nat = choose|depth: nat| within(nodes@, seq![root], depth);
    let ghost whole = reading(nodes@, seq![root], focus, depth);
    let mut out: Vec<Node> = Vec::new();
    let mut stack: Vec<u64> = Vec::new();
    stack.push(root);
    let ghost mut left: Seq<u64> = seq![root];
    proof {
        assert(out@.map_values(|n: Node| n@) == Seq::<Read>::empty());
        assert(stack@.reverse() == left);
    }
    while stack.len() > 0
        invariant
            left == stack@.reverse(),
            within(nodes@, left, depth),
            whole == out@.map_values(|n: Node| n@) + reading(nodes@, left, focus, depth),
        decreases reading(nodes@, left, focus, depth).len(), stack@.len(),
    {
        let ghost before = stack@;
        let id: u64 = stack[stack.len() - 1];
        stack.pop();
        let ghost rest = stack@.reverse();
        proof {
            assert(left[0] == id);
            assert(left.drop_first() == rest);
        }
        match find_node(nodes, id) {
            None => {
                proof {
                    left = rest;
                }
            },
            Some(node) => {
                let ghost was = out@;
                let one = Node {
                    role: node.role.clone(),
                    label: copy_of(&node.label),
                    value: copy_of(&node.value),
                    focused: node.id == focus,
                    bounds: node.bounds,
                };
                assert(one@ == node.read(focus));
                out.push(one);
                let ghost kids = node.children@;
                let mut i: usize = node.children.len();
                let ghost below = stack@;
                assert(kids.skip(i as int).reverse() == Seq::<u64>::empty());
                while i > 0
                    invariant
                        i <= node.children@.len(),
                        kids == node.children@,
                        stack@ == below + kids.skip(i as int).reverse(),
                    decreases i,
                {
                    i -= 1;
                    stack.push(node.children[i]);
                    assert(kids.skip(i as int) == seq![kids[i as int]] + kids.skip(i + 1));
                    assert(kids.skip(i as int).reverse() == kids.skip(i + 1).reverse().push(
                        kids[i as int],
                    ));
                }
                proof {
                    assert(kids.skip(0) == kids);
                    assert(stack@.reverse() == kids + rest);
                    lemma_opened(nodes@, *node, left, rest, focus, depth);
                    assert(out@.map_values(|n: Node| n@) == was.map_values(|n: Node| n@).push(
                        one@,
                    ));
                    let tail = reading(nodes@, kids + rest, focus, depth);
                    assert(was.map_values(|n: Node| n@) + (seq![one@] + tail) == was.map_values(
                        |n: Node| n@,
                    ).push(one@) + tail);
                    left = kids + rest;
                }
            },
        }
    }
    proof {
        assert(left == Seq::<u64>::empty());
        assert(whole == out@.map_values(|n: Node| n@));
        assert forall|other: nat| within(nodes@, seq![root], other) implies out@.map_values(
            |n: Node| n@,
        ) == #[trigger] reading(nodes@, seq![root], focus, other) by {
            if other <= depth {
                lemma_depths_agree(nodes@, seq![root], focus, other, depth);
            } else {
                lemma_depths_agree(nodes@, seq![root], focus, depth, other);
            }
        }
    }
    out
}

/// What a screen reader reads, one after the other: of several trees, each in its turn; of one, the
/// node itself and then what stands in it. A name that no node has is passed over.
pub proof fn law_a_node_is_read_before_what_stands_in_it(
    nodes: Seq<Built>,
    at: int,
    gone: u64,
    a: Seq<u64>,
    b: Seq<u64>,
    focus: u64,
    depth: nat,
)
    requires
        0 <= at < nodes.len(),
        forall|j: int| at < j < nodes.len() ==> (#[trigger] nodes[j]).id != nodes[at].id,
        forall|j: int| 0 <= j < nodes.len() ==> (#[trigger] nodes[j]).id != gone,
        within(nodes, seq![nodes[at].id], depth),
        within(nodes, a, depth),
        within(nodes, b, depth),
        depth > 0,
    ensures
        reading(nodes, seq![nodes[at].id], focus, depth) == seq![nodes[at].read(focus)] + reading(
            nodes,
            nodes[at].children@,
            focus,
            depth,
        ),
        reading(nodes, a + b, focus, depth) == reading(nodes, a, focus, depth) + reading(
            nodes,
            b,
            focus,
            depth,
        ),
        reading(nodes, seq![gone], focus, depth).len() == 0,
        nodes[at].read(focus).focused <==> nodes[at].id == focus,
        nodes[at].read(focus).role == nodes[at].role@,
        nodes[at].read(focus).label == held(nodes[at].label),
        nodes[at].read(focus).value == held(nodes[at].value),
        nodes[at].read(focus).bounds == nodes[at].bounds@,
{
    lemma_node_is(nodes, at);
    lemma_node_gone(nodes, gone);
    lemma_reading_append(nodes, a, b, focus, depth);
    let (left, rest) = (seq![nodes[at].id], Seq::<u64>::empty());
    assert(left.drop_first() =~= rest);
    lemma_opened(nodes, nodes[at], left, rest, focus, depth);
    assert(nodes[at].children@ + rest =~= nodes[at].children@);
    assert(seq![gone].drop_first() =~= rest);
    assert(reading(nodes, rest, focus, depth).len() == 0);
}

proof fn lemma_node_is(nodes: Seq<Built>, at: int)
    requires
        0 <= at < nodes.len(),
        forall|j: int| at < j < nodes.len() ==> (#[trigger] nodes[j]).id != nodes[at].id,
    ensures
        node_of(nodes, nodes[at].id) == Some(nodes[at]),
    decreases nodes.len(),
{
    if at < nodes.len() - 1 {
        assert(nodes[nodes.len() - 1].id != nodes[at].id);
        let init = nodes.drop_last();
        assert forall|j: int| at < j < init.len() implies (#[trigger] init[j]).id
            != init[at].id by {
            assert(nodes[j].id != nodes[at].id);
        }
        lemma_node_is(init, at);
    }
}

proof fn lemma_node_gone(nodes: Seq<Built>, gone: u64)
    requires
        forall|j: int| 0 <= j < nodes.len() ==> (#[trigger] nodes[j]).id != gone,
    ensures
        node_of(nodes, gone) is None,
    decreases nodes.len(),
{
    if nodes.len() > 0 {
        assert(nodes[nodes.len() - 1].id != gone);
        let init = nodes.drop_last();
        assert forall|j: int| 0 <= j < init.len() implies (#[trigger] init[j]).id != gone by {
            assert(nodes[j].id != gone);
        }
        lemma_node_gone(init, gone);
    }
}

impl Node {
    /// `true` when the node has `role` and, if given, `label`.
    pub fn is_a(&self, role: &str, label: Option<&str>) -> (r: bool)
        ensures
            r == (self.role@ == role@ && (label matches Some(l) ==> held(self.label) == Some(l@))),
    {
        if !same_text(self.role.as_str(), role) {
            return false;
        }
        match label {
            None => true,
            Some(want) => match &self.label {
                Some(have) => same_text(have.as_str(), want),
                None => false,
            },
        }
    }
}

} // verus!
