//! Accessibility (AT-SPI2) trees: walking the accessible objects of an
//! application within limits, and collecting the trees per process.
//!
//! The objects live behind an asynchronous bus. [`Walk`] decides what to ask
//! next and takes the answers; the caller does the asking.

use std::collections::HashMap;

use vstd::prelude::*;
use vstd::string::*;

use crate::comp::Rect;
use crate::text::same;

verus! {

broadcast use vstd::std_specs::hash::group_hash_axioms;

/// At most this many objects are reported per window.
pub const MAX_NODES: usize = 250;

/// Objects deeper than this are not looked at; the window has depth 0.
pub const MAX_DEPTH: usize = 10;

/// What an accessible object says about itself.
pub struct NodeFacts {
    pub role: String,
    pub name: String,
    /// None if the object did not answer.
    pub description: Option<String>,
    /// Window-relative pixel extents, if the object has any.
    pub extents: Option<Rect>,
    pub states: Vec<String>,
}

/// A reported object.
pub struct A11yNode {
    pub role: String,
    pub name: Option<String>,
    pub description: Option<String>,
    pub bounds: Option<Rect>,
    pub states: Vec<String>,
    pub children: Vec<A11yChild>,
}

pub enum A11yChild {
    Node(A11yNode),
    /// Stands for the objects left out because there are too many.
    Truncated,
}

/// The mathematical content of an [`A11yNode`].
pub struct NodeView {
    pub role: Seq<char>,
    pub name: Option<Seq<char>>,
    pub description: Option<Seq<char>>,
    pub bounds: Option<Rect>,
    pub states: Seq<Seq<char>>,
    pub children: Seq<ChildView>,
}

pub enum ChildView {
    Node(NodeView),
    Truncated,
}

/// The view of an optional string.
pub open spec fn text_view(s: Option<String>) -> Option<Seq<char>> {
    match s {
        Some(s) => Some(s@),
        None => None,
    }
}

impl A11yNode {
    pub open spec fn tree(self) -> NodeView
        decreases self,
    {
        NodeView {
            role: self.role@,
            name: text_view(self.name),
            description: text_view(self.description),
            bounds: self.bounds,
            states: crate::text::texts(self.states@),
            children: Seq::new(
                self.children@.len(),
                |i: int|
                    if 0 <= i < self.children@.len() {
                        self.children@[i].tree()
                    } else {
                        ChildView::Truncated
                    },
            ),
        }
    }
}

impl A11yChild {
    pub open spec fn tree(self) -> ChildView
        decreases self,
    {
        match self {
            A11yChild::Node(n) => ChildView::Node(n.tree()),
            A11yChild::Truncated => ChildView::Truncated,
        }
    }
}

impl NodeView {
    pub open spec fn with_child(self, child: ChildView) -> NodeView {
        NodeView { children: self.children.push(child), ..self }
    }

    pub open spec fn with_children(self, children: Seq<ChildView>) -> NodeView {
        NodeView { children: self.children + children, ..self }
    }
}

/// A text that is worth reporting.
pub open spec fn unless_empty(s: Seq<char>) -> Option<Seq<char>> {
    if s.len() == 0 {
        None
    } else {
        Some(s)
    }
}

/// The states that are reported.
pub open spec fn is_interesting(state: Seq<char>) -> bool {
    ||| state == "Focused"@
    ||| state == "Checked"@
    ||| state == "Selected"@
    ||| state == "Expanded"@
    ||| state == "Editable"@
    ||| state == "Sensitive"@
    ||| state == "Showing"@
}

/// The reported ones among these states, in their order.
pub open spec fn interesting(states: Seq<Seq<char>>) -> Seq<Seq<char>>
    decreases states.len(),
{
    if states.len() == 0 {
        Seq::empty()
    } else {
        let before = interesting(states.drop_last());
        if is_interesting(states.last()) {
            before.push(states.last())
        } else {
            before
        }
    }
}

/// What is reported of an object, without its children: empty texts and
/// bounds without an area are left out.
pub open spec fn described(facts: NodeFacts) -> NodeView {
    NodeView {
        role: facts.role@,
        name: unless_empty(facts.name@),
        description: match facts.description {
            Some(d) => unless_empty(d@),
            None => None,
        },
        bounds: match facts.extents {
            Some(r) => if r.width > 0 && r.height > 0 {
                Some(r)
            } else {
                None
            },
            None => None,
        },
        states: interesting(crate::text::texts(facts.states@)),
        children: Seq::empty(),
    }
}

fn keep_text(s: String) -> (r: Option<String>)
    ensures
        text_view(r) == unless_empty(s@),
{
    if s.as_str().is_empty() {
        None
    } else {
        Some(s)
    }
}

fn keep_states(states: &Vec<String>) -> (r: Vec<String>)
    ensures
        crate::text::texts(r@) == interesting(crate::text::texts(states@)),
{
    let ghost all = crate::text::texts(states@);
    let mut out: Vec<String> = Vec::new();
    assert(crate::text::texts(out@) =~= interesting(all.take(0)));
    for i in 0..states.len()
        invariant
            all == crate::text::texts(states@),
            crate::text::texts(out@) == interesting(all.take(i as int)),
    {
        let s = &states[i];
        assert(all.take(i + 1).drop_last() == all.take(i as int));
        if same(s, "Focused") || same(s, "Checked") || same(s, "Selected") || same(s, "Expanded")
            || same(s, "Editable") || same(s, "Sensitive") || same(s, "Showing") {
            let ghost before = out@;
            out.push(s.clone());
            assert(crate::text::texts(out@) =~= crate::text::texts(before).push(s@));
        }
    }
    assert(all.take(all.len() as int) == all);
    out
}

fn describe(facts: NodeFacts) -> (r: A11yNode)
    ensures
        r.tree() == described(facts),
{
    let node = A11yNode {
        role: facts.role,
        name: keep_text(facts.name),
        description: match facts.description {
            Some(d) => keep_text(d),
            None => None,
        },
        bounds: match facts.extents {
            Some(r) => if r.width > 0 && r.height > 0 {
                Some(r)
            } else {
                None
            },
            None => None,
        },
        states: keep_states(&facts.states),
        children: Vec::new(),
    };
    assert(node.tree().children =~= Seq::<ChildView>::empty());
    node
}

/// What the walk needs next.
#[derive(Debug, Clone, Copy, PartialEq, Eq, Structural)]
pub enum WalkRequest {
    /// The facts of the object opened last; the window itself at first.
    Describe,
    /// How many children that object has.
    ListChildren,
    /// Access to a child of the innermost open object.
    OpenChild { index: usize },
    /// Nothing; the tree is complete.
    Finished,
}

/// An object whose children are being visited.
pub struct OpenNode {
    pub node: A11yNode,
    /// The child to visit next.
    pub next: usize,
    pub count: usize,
}

/// The mathematical content of an [`OpenNode`].
pub struct OpenView {
    pub node: NodeView,
    pub next: usize,
    pub count: usize,
}

impl View for OpenNode {
    type V = OpenView;

    open spec fn view(&self) -> OpenView {
        OpenView { node: self.node.tree(), next: self.next, count: self.count }
    }
}

/// The contents of the open objects.
pub open spec fn open_views(open: Seq<OpenNode>) -> Seq<OpenView> {
    open.map_values(|o: OpenNode| o@)
}

/// The walk over the accessible objects of one window.
pub struct Walk {
    /// The objects on the path from the window to the current object.
    pub open: Vec<OpenNode>,
    /// How many more objects may be reported.
    pub budget: usize,
    pub request: WalkRequest,
    pub result: Option<A11yNode>,
}

/// The mathematical content of a [`Walk`].
pub struct WalkView {
    pub open: Seq<OpenView>,
    pub budget: usize,
    pub request: WalkRequest,
    pub result: Option<NodeView>,
}

impl View for Walk {
    type V = WalkView;

    open spec fn view(&self) -> WalkView {
        WalkView {
            open: open_views(self.open@),
            budget: self.budget,
            request: self.request,
            result: match self.result {
                Some(n) => Some(n.tree()),
                None => None,
            },
        }
    }
}

/// The innermost open object gets a child.
pub open spec fn adopt(open: Seq<OpenView>, child: ChildView) -> Seq<OpenView> {
    let top = open.last();
    open.drop_last().push(OpenView { node: top.node.with_child(child), ..top })
}

/// Goes on with the innermost open object: its next child if it has one and
/// the budget allows, else the object is complete and its parent goes on.
pub open spec fn settle(open: Seq<OpenView>, budget: usize) -> WalkView
    decreases open.len(), 0int,
{
    if open.len() == 0 {
        WalkView { open, budget, request: WalkRequest::Finished, result: None }
    } else {
        let top = open.last();
        if top.next < top.count && budget > 0 {
            WalkView {
                open,
                budget,
                request: WalkRequest::OpenChild { index: top.next },
                result: None,
            }
        } else {
            let node = if top.next < top.count {
                top.node.with_child(ChildView::Truncated)
            } else {
                top.node
            };
            complete(open.drop_last(), node, budget)
        }
    }
}

/// Hands a complete object to its parent; the window is the result.
pub open spec fn complete(open: Seq<OpenView>, node: NodeView, budget: usize) -> WalkView
    decreases open.len(), 1int,
{
    if open.len() == 0 {
        WalkView { open, budget, request: WalkRequest::Finished, result: Some(node) }
    } else {
        settle(adopt(open, ChildView::Node(node)), budget)
    }
}

impl WalkView {
    pub open spec fn wf(self) -> bool {
        match self.request {
            WalkRequest::Describe => self.budget > 0,
            WalkRequest::ListChildren => self.open.len() > 0,
            WalkRequest::OpenChild { index } => {
                &&& self.open.len() > 0
                &&& self.open.last().next == index
                &&& index < self.open.last().count
                &&& self.budget > 0
            },
            WalkRequest::Finished => self.result is Some,
        }
    }

    /// The walk as it starts.
    pub open spec fn start() -> WalkView {
        WalkView {
            open: Seq::empty(),
            budget: MAX_NODES,
            request: WalkRequest::Describe,
            result: None,
        }
    }

    /// After an object was described.
    pub open spec fn after_described(self, facts: NodeFacts) -> WalkView {
        let open = self.open.push(OpenView { node: described(facts), next: 0, count: 0 });
        let budget = (self.budget - 1) as usize;
        if self.open.len() < MAX_DEPTH && budget > 0 {
            WalkView { open, budget, request: WalkRequest::ListChildren, result: None }
        } else {
            settle(open, budget)
        }
    }

    /// After the children were counted; None if that failed.
    pub open spec fn after_listed(self, count: Option<usize>) -> WalkView {
        let top = self.open.last();
        let count = match count {
            Some(n) => n,
            None => 0,
        };
        settle(self.open.drop_last().push(OpenView { next: 0, count, ..top }), self.budget)
    }

    /// After a child was opened, or not.
    pub open spec fn after_opened(self, ok: bool) -> WalkView {
        let top = self.open.last();
        let open = self.open.drop_last().push(OpenView { next: (top.next + 1) as usize, ..top });
        if ok {
            WalkView { open, budget: self.budget, request: WalkRequest::Describe, result: None }
        } else {
            settle(open, self.budget)
        }
    }
}

proof fn lemma_settle_wf(open: Seq<OpenView>, budget: usize)
    requires
        open.len() > 0,
    ensures
        settle(open, budget).wf(),
    decreases open.len(),
{
    let top = open.last();
    if !(top.next < top.count && budget > 0) {
        let node = if top.next < top.count {
            top.node.with_child(ChildView::Truncated)
        } else {
            top.node
        };
        if open.len() > 1 {
            lemma_settle_wf(adopt(open.drop_last(), ChildView::Node(node)), budget);
        }
    }
}

/// Appends a child to a node.
fn push_child(node: &mut A11yNode, child: A11yChild)
    ensures
        final(node).tree() == old(node).tree().with_child(child.tree()),
{
    node.children.push(child);
    assert(node.tree().children =~= old(node).tree().children.push(child.tree()));
}

impl Walk {
    /// A walk that starts at a window.
    pub fn new() -> (r: Self)
        ensures
            r@ == WalkView::start(),
            r@.wf(),
    {
        let r = Walk {
            open: Vec::new(),
            budget: MAX_NODES,
            request: WalkRequest::Describe,
            result: None,
        };
        assert(r@.open =~= Seq::<OpenView>::empty());
        r
    }

    /// Goes on with the innermost open object.
    fn advance(&mut self)
        requires
            old(self).open@.len() > 0,
        ensures
            final(self)@ == settle(open_views(old(self).open@), old(self).budget),
            final(self)@.wf(),
    {
        proof {
            lemma_settle_wf(open_views(self.open@), self.budget);
        }
        let ghost goal = settle(open_views(self.open@), self.budget);
        self.result = None;
        loop
            invariant_except_break
                self.open@.len() > 0,
                self.result is None,
                settle(open_views(self.open@), self.budget) == goal,
            invariant
                goal.wf(),
            ensures
                self@ == goal,
            decreases self.open@.len(),
        {
            let ghost views = open_views(self.open@);
            let mut top = self.open.pop().unwrap();
            assert(open_views(self.open@) =~= views.drop_last());
            assert(top@ == views.last());
            if top.next < top.count {
                if self.budget > 0 {
                    self.request = WalkRequest::OpenChild { index: top.next };
                    self.open.push(top);
                    assert(open_views(self.open@) =~= views);
                    break;
                }
                push_child(&mut top.node, A11yChild::Truncated);
            }
            let ghost node = top.node.tree();
            if self.open.len() == 0 {
                self.result = Some(top.node);
                self.request = WalkRequest::Finished;
                assert(self@ == complete(views.drop_last(), node, self.budget));
                break;
            }
            let ghost rest = open_views(self.open@);
            let mut parent = self.open.pop().unwrap();
            assert(open_views(self.open@) =~= rest.drop_last());
            assert(parent@ == rest.last());
            let ghost before = parent@;
            push_child(&mut parent.node, A11yChild::Node(top.node));
            assert(parent@ == OpenView { node: before.node.with_child(ChildView::Node(node)), ..before });
            self.open.push(parent);
            assert(open_views(self.open@) =~= adopt(rest, ChildView::Node(node)));
        }
    }

    /// Answers [`WalkRequest::Describe`].
    pub fn described(&mut self, facts: NodeFacts)
        requires
            old(self)@.wf(),
            old(self).request is Describe,
        ensures
            final(self)@ == old(self)@.after_described(facts),
            final(self)@.wf(),
    {
        let depth = self.open.len();
        let ghost views = open_views(self.open@);
        let node = OpenNode { node: describe(facts), next: 0, count: 0 };
        self.open.push(node);
        assert(open_views(self.open@) =~= views.push(node@));
        self.budget = self.budget - 1;
        if depth < MAX_DEPTH && self.budget > 0 {
            self.request = WalkRequest::ListChildren;
            self.result = None;
        } else {
            self.advance();
        }
    }

    /// Answers [`WalkRequest::ListChildren`]; None if that failed.
    pub fn listed(&mut self, count: Option<usize>)
        requires
            old(self)@.wf(),
            old(self).request is ListChildren,
        ensures
            final(self)@ == old(self)@.after_listed(count),
            final(self)@.wf(),
    {
        let ghost views = open_views(self.open@);
        let mut top = self.open.pop().unwrap();
        assert(open_views(self.open@) =~= views.drop_last());
        assert(top@ == views.last());
        top.next = 0;
        top.count = match count {
            Some(n) => n,
            None => 0,
        };
        self.open.push(top);
        assert(open_views(self.open@) =~= views.drop_last().push(top@));
        self.advance();
    }

    /// Answers [`WalkRequest::OpenChild`]: whether the child could be opened.
    pub fn opened(&mut self, ok: bool)
        requires
            old(self)@.wf(),
            old(self).request is OpenChild,
        ensures
            final(self)@ == old(self)@.after_opened(ok),
            final(self)@.wf(),
    {
        let ghost views = open_views(self.open@);
        let mut top = self.open.pop().unwrap();
        assert(open_views(self.open@) =~= views.drop_last());
        assert(top@ == views.last());
        top.next = top.next + 1;
        self.open.push(top);
        assert(open_views(self.open@) =~= views.drop_last().push(top@));
        if ok {
            self.request = WalkRequest::Describe;
            self.result = None;
        } else {
            self.advance();
        }
    }

    /// The finished tree.
    pub fn into_tree(self) -> (r: A11yNode)
        requires
            self@.wf(),
            self.request is Finished,
        ensures
            Some(r.tree()) == self@.result,
    {
        self.result.unwrap()
    }
}

/// The key under which the trees of a process are collected: its id, 0 if that
/// is unknown.
pub fn process_key(pid: Option<u32>) -> (r: i32)
    ensures
        r == match pid {
            Some(p) => p as i32,
            None => 0i32,
        },
{
    match pid {
        Some(p) => p as i32,
        None => 0,
    }
}

/// Adds a tree to those of its process.
pub fn add_tree(trees: &mut HashMap<i32, Vec<A11yNode>>, pid: i32, tree: A11yNode)
    ensures
        final(trees)@.dom() == old(trees)@.dom().insert(pid),
        final(trees)@[pid]@ == (if old(trees)@.contains_key(pid) {
            old(trees)@[pid]@
        } else {
            Seq::empty()
        }).push(tree),
        forall|k: i32|
            k != pid && old(trees)@.contains_key(k) ==> #[trigger] final(trees)@[k] == old(
                trees,
            )@[k],
{
    let mut list = match trees.remove(&pid) {
        Some(list) => list,
        None => Vec::new(),
    };
    list.push(tree);
    trees.insert(pid, list);
    assert(trees@.dom() =~= old(trees)@.dom().insert(pid));
}

/// The accessible objects below an object, as they answer when asked:
/// `children` is None if listing them fails, and a child is None if it cannot
/// be opened.
pub struct AccessibleTree {
    pub facts: NodeFacts,
    pub children: Option<Seq<Option<AccessibleTree>>>,
}

/// Whether the number of children of every object can be counted.
pub open spec fn countable(t: AccessibleTree) -> bool
    decreases t, 0int,
{
    match t.children {
        Some(kids) => kids.len() <= usize::MAX && all_countable(kids),
        None => true,
    }
}

pub open spec fn all_countable(kids: Seq<Option<AccessibleTree>>) -> bool
    decreases kids, kids.len(),
{
    forall|i: int|
        0 <= i < kids.len() ==> (#[trigger] kids[i] matches Some(t) ==> countable(t))
}

/// The report on a tree, and what is left of the budget: depth first, in the
/// order of the children, until the budget is used up.
pub open spec fn report(t: AccessibleTree, depth: nat, budget: nat) -> (NodeView, nat)
    decreases t, 0int,
{
    let node = described(t.facts);
    let left = (budget - 1) as nat;
    if depth < MAX_DEPTH && left > 0 {
        match t.children {
            Some(kids) => {
                let (reported, rest) = report_children(kids, depth, left);
                (node.with_children(reported), rest)
            },
            None => (node, left),
        }
    } else {
        (node, left)
    }
}

/// The reports on the children of an object at this depth.
pub open spec fn report_children(
    kids: Seq<Option<AccessibleTree>>,
    depth: nat,
    budget: nat,
) -> (Seq<ChildView>, nat)
    decreases kids, kids.len(),
{
    if kids.len() == 0 {
        (Seq::empty(), budget)
    } else if budget == 0 {
        (seq![ChildView::Truncated], 0)
    } else {
        match kids[0] {
            Some(t) => {
                let (node, left) = report(t, depth + 1, budget);
                let (others, rest) = report_children(kids.drop_first(), depth, left);
                (seq![ChildView::Node(node)] + others, rest)
            },
            None => report_children(kids.drop_first(), depth, budget),
        }
    }
}

/// A walk together with the objects that answer it: `kids` are the children of
/// the open objects, `current` is the object opened last.
pub struct Dialogue {
    pub walk: WalkView,
    pub kids: Seq<Seq<Option<AccessibleTree>>>,
    pub current: AccessibleTree,
}

impl Dialogue {
    /// The dialogue about a window as it starts.
    pub open spec fn start(t: AccessibleTree) -> Dialogue {
        Dialogue { walk: WalkView::start(), kids: Seq::empty(), current: t }
    }

    /// One request is answered.
    pub open spec fn step(self) -> Dialogue {
        let depth = self.walk.open.len() - 1;
        match self.walk.request {
            WalkRequest::Describe => Dialogue {
                walk: self.walk.after_described(self.current.facts),
                ..self
            },
            WalkRequest::ListChildren => match self.current.children {
                Some(kids) => Dialogue {
                    walk: self.walk.after_listed(Some(kids.len() as usize)),
                    kids: self.kids.take(depth).push(kids),
                    ..self
                },
                None => Dialogue { walk: self.walk.after_listed(None), ..self },
            },
            WalkRequest::OpenChild { index } => match self.kids[depth][index as int] {
                Some(t) => Dialogue {
                    walk: self.walk.after_opened(true),
                    current: t,
                    ..self
                },
                None => Dialogue { walk: self.walk.after_opened(false), ..self },
            },
            WalkRequest::Finished => self,
        }
    }

    /// The dialogue after this many answers.
    pub open spec fn run(self, steps: nat) -> Dialogue
        decreases steps,
    {
        if steps == 0 {
            self
        } else {
            self.step().run((steps - 1) as nat)
        }
    }
}

proof fn lemma_run_sum(d: Dialogue, a: nat, b: nat)
    ensures
        d.run(a + b) == d.run(a).run(b),
    decreases a,
{
    if a > 0 {
        lemma_run_sum(d.step(), (a - 1) as nat, b);
    }
}

proof fn lemma_report_budget(t: AccessibleTree, depth: nat, budget: nat)
    requires
        budget > 0,
    ensures
        report(t, depth, budget).1 < budget,
    decreases t, 0int,
{
    if let Some(kids) = t.children {
        lemma_children_budget(kids, depth, (budget - 1) as nat);
    }
}

proof fn lemma_children_budget(kids: Seq<Option<AccessibleTree>>, depth: nat, budget: nat)
    ensures
        report_children(kids, depth, budget).1 <= budget,
    decreases kids, kids.len(),
{
    if kids.len() > 0 && budget > 0 {
        if let Some(t) = kids[0] {
            lemma_report_budget(t, depth + 1, budget);
            lemma_children_budget(kids.drop_first(), depth, report(t, depth + 1, budget).1);
        } else {
            lemma_children_budget(kids.drop_first(), depth, budget);
        }
    }
}

/// Visiting one object: the walk comes back to its parent with the report.
proof fn lemma_visit(d: Dialogue, t: AccessibleTree) -> (steps: nat)
    requires
        d.walk.request is Describe,
        d.walk.budget > 0,
        d.current == t,
        d.kids.len() >= d.walk.open.len(),
        countable(t),
    ensures
        ({
            let (node, left) = report(t, d.walk.open.len(), d.walk.budget as nat);
            &&& left < d.walk.budget
            &&& d.run(steps).walk == complete(d.walk.open, node, left as usize)
            &&& d.run(steps).kids.len() >= d.walk.open.len()
            &&& d.run(steps).kids.take(d.walk.open.len() as int) == d.kids.take(
                d.walk.open.len() as int,
            )
        }),
    decreases t, 0int,
{
    let open = d.walk.open;
    let depth = open.len();
    let budget = d.walk.budget;
    let left = (budget - 1) as usize;
    let node = described(t.facts);
    let pushed = open.push(OpenView { node, next: 0, count: 0 });
    assert(pushed.drop_last() =~= open);
    lemma_report_budget(t, depth, budget as nat);
    let d1 = d.step();
    assert(d.run(1) == d1) by {
        reveal_with_fuel(Dialogue::run, 2);
    }
    if depth < MAX_DEPTH && left > 0 {
        assert(d1.walk == WalkView {
            open: pushed,
            budget: left,
            request: WalkRequest::ListChildren,
            result: None,
        });
        let d2 = d1.step();
        assert(d.run(2) == d2) by {
            reveal_with_fuel(Dialogue::run, 3);
        }
        match t.children {
            None => {
                assert(pushed.drop_last().push(OpenView { next: 0, count: 0, ..pushed.last() })
                    =~= pushed);
                2
            },
            Some(kids) => {
                let listed = open.push(OpenView { node, next: 0, count: kids.len() as usize });
                assert(pushed.drop_last().push(
                    OpenView { next: 0, count: kids.len() as usize, ..pushed.last() },
                ) =~= listed);
                assert(d2.walk == settle(listed, left));
                assert(d2.kids == d.kids.take(depth as int).push(kids));
                assert(kids.skip(0) == kids);
                let n = lemma_visit_children(d2, open, node, kids, 0, left);
                lemma_run_sum(d, 2, n);
                assert(d2.kids.take(depth as int) =~= d.kids.take(depth as int));
                2 + n
            },
        }
    } else {
        1
    }
}

/// Visiting the children of an object from the i-th on.
proof fn lemma_visit_children(
    d: Dialogue,
    open: Seq<OpenView>,
    node: NodeView,
    kids: Seq<Option<AccessibleTree>>,
    i: int,
    budget: usize,
) -> (steps: nat)
    requires
        0 <= i <= kids.len() <= usize::MAX,
        all_countable(kids),
        d.walk == settle(
            open.push(OpenView { node, next: i as usize, count: kids.len() as usize }),
            budget,
        ),
        d.kids.len() > open.len(),
        d.kids[open.len() as int] == kids,
    ensures
        ({
            let (reported, left) = report_children(kids.skip(i), open.len(), budget as nat);
            &&& left <= budget
            &&& d.run(steps).walk == complete(open, node.with_children(reported), left as usize)
            &&& d.run(steps).kids.len() >= open.len()
            &&& d.run(steps).kids.take(open.len() as int) == d.kids.take(open.len() as int)
        }),
    decreases kids, kids.len() - i,
{
    let depth = open.len();
    let top = OpenView { node, next: i as usize, count: kids.len() as usize };
    let all = open.push(top);
    assert(all.drop_last() =~= open);
    let rest = kids.skip(i);
    lemma_children_budget(rest, depth, budget as nat);
    if i == kids.len() {
        assert(node.with_children(Seq::empty()).children =~= node.children);
        assert(d.run(0) == d);
        0
    } else if budget == 0 {
        assert(node.with_children(seq![ChildView::Truncated]).children =~= node.with_child(
            ChildView::Truncated,
        ).children);
        assert(d.run(0) == d);
        0
    } else {
        assert(rest[0] == kids[i]);
        assert(rest.drop_first() =~= kids.skip(i + 1));
        let d1 = d.step();
        assert(d.run(1) == d1) by {
            reveal_with_fuel(Dialogue::run, 2);
        }
        let moved = open.push(OpenView { next: (i + 1) as usize, ..top });
        assert(all.drop_last().push(OpenView { next: (top.next + 1) as usize, ..top }) =~= moved);
        match kids[i] {
            None => {
                assert(d1.walk == settle(moved, budget));
                let n = lemma_visit_children(d1, open, node, kids, i + 1, budget);
                lemma_run_sum(d, 1, n);
                1 + n
            },
            Some(t) => {
                assert(countable(t));
                assert(d1.walk == WalkView {
                    open: moved,
                    budget,
                    request: WalkRequest::Describe,
                    result: None,
                });
                let m = lemma_visit(d1, t);
                let (child, left) = report(t, depth + 1, budget as nat);
                let d2 = d1.run(m);
                let fed = node.with_child(ChildView::Node(child));
                let after = open.push(
                    OpenView { node: fed, next: (i + 1) as usize, count: top.count },
                );
                assert(moved.len() == depth + 1);
                assert(adopt(moved, ChildView::Node(child)) =~= after);
                assert(d2.walk == settle(after, left as usize));
                let inner = (depth + 1) as int;
                assert(d2.kids.take(inner)[depth as int] == d1.kids.take(inner)[depth as int]);
                assert(d2.kids[depth as int] == kids);
                let n = lemma_visit_children(d2, open, fed, kids, i + 1, left as usize);
                let (others, _) = report_children(kids.skip(i + 1), depth, left);
                assert(fed.with_children(others).children =~= node.with_children(
                    seq![ChildView::Node(child)] + others,
                ).children);
                lemma_run_sum(d1, m, n);
                lemma_run_sum(d, 1, m + n);
                assert(d2.kids.take(depth as int) =~= d2.kids.take((depth + 1) as int).take(depth as int));
                assert(d1.kids.take(depth as int) =~= d1.kids.take((depth + 1) as int).take(depth as int));
                1 + m + n
            },
        }
    }
}

/// Law: asked to the end, the walk reports the accessible tree of the window
/// depth first, in the order of the children, within the limits on depth and
/// number.
pub proof fn law_walk_reports_the_tree(t: AccessibleTree) -> (steps: nat)
    requires
        countable(t),
    ensures
        Dialogue::start(t).run(steps).walk.request is Finished,
        Dialogue::start(t).run(steps).walk.result == Some(
            report(t, 0, MAX_NODES as nat).0,
        ),
{
    lemma_visit(Dialogue::start(t), t)
}

/// How many objects a report holds.
pub open spec fn node_count(n: NodeView) -> nat
    decreases n, 0int,
{
    1 + child_count(n.children)
}

pub open spec fn child_count(children: Seq<ChildView>) -> nat
    decreases children, children.len(),
{
    if children.len() == 0 {
        0
    } else {
        (match children[0] {
            ChildView::Node(n) => node_count(n),
            ChildView::Truncated => 0,
        }) + child_count(children.drop_first())
    }
}

/// How many levels a report has below its root.
pub open spec fn height(n: NodeView) -> nat
    decreases n, 0int,
{
    children_height(n.children)
}

pub open spec fn children_height(children: Seq<ChildView>) -> nat
    decreases children, children.len(),
{
    if children.len() == 0 {
        0
    } else {
        let first = match children[0] {
            ChildView::Node(n) => 1 + height(n),
            ChildView::Truncated => 0,
        };
        let rest = children_height(children.drop_first());
        if first > rest {
            first
        } else {
            rest
        }
    }
}

proof fn lemma_report_size(t: AccessibleTree, depth: nat, budget: nat)
    requires
        budget > 0,
        depth <= MAX_DEPTH,
    ensures
        node_count(report(t, depth, budget).0) + report(t, depth, budget).1 == budget,
        depth + height(report(t, depth, budget).0) <= MAX_DEPTH,
    decreases t, 0int,
{
    let node = described(t.facts);
    let left = (budget - 1) as nat;
    if depth < MAX_DEPTH && left > 0 {
        if let Some(kids) = t.children {
            lemma_children_size(kids, depth, left);
            assert(node.with_children(report_children(kids, depth, left).0).children
                =~= report_children(kids, depth, left).0);
        }
    }
}

proof fn lemma_children_size(kids: Seq<Option<AccessibleTree>>, depth: nat, budget: nat)
    requires
        depth < MAX_DEPTH,
    ensures
        child_count(report_children(kids, depth, budget).0) + report_children(
            kids,
            depth,
            budget,
        ).1 == budget,
        depth + children_height(report_children(kids, depth, budget).0) <= MAX_DEPTH,
    decreases kids, kids.len(),
{
    if kids.len() == 0 {
    } else if budget == 0 {
        let one = seq![ChildView::Truncated];
        assert(one.drop_first() =~= Seq::<ChildView>::empty());
        assert(child_count(one.drop_first()) == 0);
        assert(children_height(one.drop_first()) == 0);
        assert(child_count(one) == 0);
        assert(children_height(one) == 0);
    } else {
        match kids[0] {
            Some(t) => {
                lemma_report_size(t, depth + 1, budget);
                let (node, left) = report(t, depth + 1, budget);
                lemma_children_size(kids.drop_first(), depth, left);
                let (others, _) = report_children(kids.drop_first(), depth, left);
                let all = seq![ChildView::Node(node)] + others;
                assert(all.drop_first() =~= others);
                assert(all[0] == ChildView::Node(node));
            },
            None => lemma_children_size(kids.drop_first(), depth, budget),
        }
    }
}

/// Law: a report holds at most 250 objects, at most 10 levels below the
/// window.
pub proof fn law_report_is_limited(t: AccessibleTree)
    ensures
        node_count(report(t, 0, MAX_NODES as nat).0) <= MAX_NODES,
        height(report(t, 0, MAX_NODES as nat).0) <= MAX_DEPTH,
{
    lemma_report_size(t, 0, MAX_NODES as nat);
}

/// Law: an object is described by what it says of itself: its role, its name and
/// its description unless they are empty, and its extents unless they are
/// empty.
pub proof fn law_objects_are_described_by_their_facts(facts: NodeFacts)
    ensures
        ({
            let node = described(facts);
            &&& node.role == facts.role@
            &&& facts.name@.len() == 0 ==> node.name is None
            &&& facts.name@.len() > 0 ==> node.name == Some(facts.name@)
            &&& facts.description is None ==> node.description is None
            &&& facts.description matches Some(d) ==> {
                &&& d@.len() == 0 ==> node.description is None
                &&& d@.len() > 0 ==> node.description == Some(d@)
            }
            &&& facts.extents is None ==> node.bounds is None
            &&& facts.extents matches Some(r) ==> {
                &&& r.width > 0 && r.height > 0 ==> node.bounds == Some(r)
                &&& r.width <= 0 || r.height <= 0 ==> node.bounds is None
            }
            &&& node.states == interesting(crate::text::texts(facts.states@))
            &&& node.children.len() == 0
        }),
{
}

/// Law: of its states those are reported, in their order, that tell what a user
/// can do with an object.
pub proof fn law_reported_states_are_these(a: Seq<Seq<char>>, b: Seq<Seq<char>>, state: Seq<char>)
    ensures
        interesting(a + b) == interesting(a) + interesting(b),
        state == "Focused"@ || state == "Checked"@ || state == "Selected"@ || state == "Expanded"@
            || state == "Editable"@ || state == "Sensitive"@ || state == "Showing"@ ==> interesting(
            seq![state],
        ) == seq![state],
        state != "Focused"@ && state != "Checked"@ && state != "Selected"@ && state != "Expanded"@
            && state != "Editable"@ && state != "Sensitive"@ && state != "Showing"@ ==> interesting(
            seq![state],
        ).len() == 0,
    decreases b.len(),
{
    let one = seq![state];
    assert(one.drop_last() =~= Seq::<Seq<char>>::empty());
    assert(interesting(one.drop_last()) =~= Seq::<Seq<char>>::empty());
    if is_interesting(state) {
        assert(interesting(one) =~= one);
    }
    if b.len() == 0 {
        assert(a + b =~= a);
        assert(interesting(a) + interesting(b) =~= interesting(a));
    } else {
        law_reported_states_are_these(a, b.drop_last(), state);
        assert((a + b).drop_last() =~= a + b.drop_last());
        assert((a + b).last() == b.last());
        assert(interesting(a + b) =~= interesting(a) + interesting(b));
    }
}

/// Law: a report starts with the object itself and goes on below it, up to ten
/// levels below the window and while something is left of the 250 objects:
/// child by child in their order, each with everything below it, leaving out
/// those that cannot be opened. Where the limit is reached a mark stands for
/// the children that are left out.
pub proof fn law_reports_go_depth_first(
    t: AccessibleTree,
    kids: Seq<Option<AccessibleTree>>,
    depth: nat,
    budget: nat,
)
    requires
        budget > 0,
    ensures
        MAX_NODES == 250,
        MAX_DEPTH == 10,
        WalkView::start().budget == 250,
        WalkView::start().open.len() == 0,
        WalkView::start().request is Describe,
        ({
            let (node, left) = report(t, depth, budget);
            let bare = described(t.facts);
            &&& node.role == bare.role
            &&& node.name == bare.name
            &&& node.description == bare.description
            &&& node.bounds == bare.bounds
            &&& node.states == bare.states
            &&& depth >= 10 || budget == 1 || t.children is None ==> {
                &&& node.children.len() == 0
                &&& left == budget - 1
            }
            &&& depth < 10 && budget > 1 && t.children is Some ==> {
                let (below, rest) = report_children(
                    t.children->Some_0,
                    depth,
                    (budget - 1) as nat,
                );
                &&& node.children == below
                &&& left == rest
            }
        }),
        report_children(Seq::empty(), depth, budget).0.len() == 0,
        report_children(Seq::empty(), depth, budget).1 == budget,
        kids.len() > 0 ==> report_children(kids, depth, 0) == (seq![ChildView::Truncated], 0nat),
        kids.len() > 0 && kids[0] is None ==> report_children(kids, depth, budget)
            == report_children(kids.drop_first(), depth, budget),
        kids.len() > 0 && kids[0] is Some ==> {
            let (first, left) = report(kids[0]->Some_0, depth + 1, budget);
            let (others, rest) = report_children(kids.drop_first(), depth, left);
            &&& report_children(kids, depth, budget).0 == seq![ChildView::Node(first)] + others
            &&& report_children(kids, depth, budget).1 == rest
        },
{
    if depth < 10 && budget > 1 && t.children is Some {
        let (below, _) = report_children(t.children->Some_0, depth, (budget - 1) as nat);
        assert(described(t.facts).with_children(below).children =~= below);
    }
}

/// Law: the views of objects and of walks leave nothing out.
pub proof fn law_trees_are_shown_whole(node: A11yNode, child: A11yChild, walk: Walk, k: int)
    ensures
        node.tree().role == node.role@,
        node.tree().name is Some <==> node.name is Some,
        node.name matches Some(name) ==> node.tree().name == Some(name@),
        node.tree().description is Some <==> node.description is Some,
        node.description matches Some(d) ==> node.tree().description == Some(d@),
        node.tree().bounds == node.bounds,
        node.tree().states.len() == node.states@.len(),
        0 <= k < node.states@.len() ==> node.tree().states[k] == node.states@[k]@,
        node.tree().children.len() == node.children@.len(),
        0 <= k < node.children@.len() ==> node.tree().children[k] == node.children@[k].tree(),
        child matches A11yChild::Node(n) ==> child.tree() == ChildView::Node(n.tree()),
        child is Truncated ==> child.tree() is Truncated,
        walk@.request == walk.request,
        walk@.budget == walk.budget,
        walk@.open.len() == walk.open@.len(),
        0 <= k < walk.open@.len() ==> {
            &&& walk@.open[k].node == walk.open@[k].node.tree()
            &&& walk@.open[k].next == walk.open@[k].next
            &&& walk@.open[k].count == walk.open@[k].count
        },
        walk@.result is Some <==> walk.result is Some,
        walk.result matches Some(n) ==> walk@.result == Some(n.tree()),
{
}

} // verus!
