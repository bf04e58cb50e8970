use vstd::prelude::*;
use vstd::string::StringExecFns;
use std::collections::HashMap;
use crate::mcts::key::{key_of, lemma_key_ext, state_key};
use crate::mcts::node::{signed, Node};
use crate::mcts::pick::{first_max, lemma_first_max};
use crate::othello::action::Action;
use crate::othello::color::Color;
use crate::othello::playout::{playout_result, simulate_game};
use crate::othello::state::State;
use crate::random::random_index;

verus! {

/// The moves that a new node offers to the search: the legal moves of its
/// state, and none once the game is over.
pub open spec fn offered(state: State) -> Seq<Action> {
    if state.is_over() {
        Seq::empty()
    } else {
        state.legal_moves()
    }
}

/// What a node must satisfy by itself. `has_children` says whether the
/// tree holds a child of it.
pub open spec fn node_ok(node: Node, has_children: bool) -> bool {
    &&& node.state.wf()
    &&& forall|k: int|
        0 <= k < node.untried_actions@.len() ==> node.state.is_legal(
            #[trigger] node.untried_actions@[k],
        )
    &&& node.untried_actions@.len() > 0 ==> !node.state.is_over()
    &&& !has_children ==> node.untried_actions@ == offered(node.state)
    &&& -node.visits <= node.score <= node.visits
}

/// What ties a child to its parent: the child's state follows from the
/// parent's by the child's move, which is legal there, or by a pass, which
/// is made only where the parent offers no move.
pub open spec fn edge_ok(parent: State, action: Option<Action>, child: State) -> bool {
    &&& parent.applies(action, child)
    &&& action matches Some(a) ==> parent.is_legal(a) && !parent.is_over()
    &&& action is None ==> offered(parent).len() == 0
}

/// The index filed under `key` in a table of states, if any.
pub open spec fn filed(table: Map<u128, HashMap<u16, usize>>, key: (u128, u16)) -> Option<usize> {
    if table.contains_key(key.0) && table[key.0]@.contains_key(key.1) {
        Some(table[key.0]@[key.1])
    } else {
        None
    }
}

/// The index filed under `key`, if any.
fn file_get(table: &HashMap<u128, HashMap<u16, usize>>, key: (u128, u16)) -> (r: Option<usize>)
    ensures
        r == filed(table@, key),
{
    match table.get(&key.0) {
        Some(inner) => match inner.get(&key.1) {
            Some(index) => Some(*index),
            None => None,
        },
        None => None,
    }
}

/// Files `index` under `key`, in place of what was filed there.
fn file_put(table: &mut HashMap<u128, HashMap<u16, usize>>, key: (u128, u16), index: usize)
    ensures
        forall|k: (u128, u16)|
            #[trigger] filed(final(table)@, k) == if k == key {
                Some(index)
            } else {
                filed(old(table)@, k)
            },
{
    let mut inner = match table.remove(&key.0) {
        Some(found) => found,
        None => HashMap::new(),
    };
    inner.insert(key.1, index);
    table.insert(key.0, inner);
}

/// The rating `ucb` accepts every child: whatever its score, its visits and
/// the visits of its parent are.
pub open spec fn accepts_all<U: Fn(isize, usize, usize) -> i64>(ucb: U) -> bool {
    forall|score: isize, visits: usize, parent_visits: usize|
        call_requires(ucb, (score, visits, parent_visits))
}

/// The rating `ucb` gives one child one number: it is a function of its
/// arguments.
pub open spec fn gives_one<U: Fn(isize, usize, usize) -> i64>(ucb: U) -> bool {
    forall|score: isize, visits: usize, parent_visits: usize, j: i64, k: i64|
        #![trigger call_ensures(ucb, (score, visits, parent_visits), j), call_ensures(ucb, (score, visits, parent_visits), k)]
        call_ensures(ucb, (score, visits, parent_visits), j) && call_ensures(
            ucb,
            (score, visits, parent_visits),
            k,
        ) ==> j == k
}

/// A search tree that grows over the calls of `search`. `U` rates a child
/// for the descent through the tree: it takes the child's score, the
/// child's visits and the parent's visits, and returns a number by which
/// the children of a node are ordered, larger being better.
///
/// The nodes live in one list and name each other by index; no node is
/// ever taken out. Each node has one parent: two ways of play that lead to
/// the same state get a node each, and their statistics are kept apart. The
/// table of states files a state under the last node made for it, and a
/// search for a state goes on from that node.
pub struct MCTS<U> {
    pub size: usize,
    color: Color,
    ucb: U,
    nodes: Vec<Node>,
    tree: Vec<Vec<usize>>,
    parents: Vec<Option<usize>>,
    state_map: HashMap<u128, HashMap<u16, usize>>,
}

impl<U: Fn(isize, usize, usize) -> i64> MCTS<U> {
    /// The nodes of the tree, in the order in which they were made.
    pub closed spec fn nodes(&self) -> Seq<Node> {
        self.nodes@
    }

    /// For each node the indices of its children, in the order in which
    /// they were made.
    pub closed spec fn kids(&self) -> Seq<Seq<usize>> {
        Seq::new(self.tree@.len(), |i: int| self.tree@[i]@)
    }

    /// For each node the index of its parent; `None` for a root.
    pub closed spec fn parents(&self) -> Seq<Option<usize>> {
        self.parents@
    }

    /// The index filed under `key` in the table of states, if any.
    pub closed spec fn entry(&self, key: (u128, u16)) -> Option<usize> {
        filed(self.state_map@, key)
    }

    /// The colour that the engine plays.
    pub closed spec fn color(&self) -> Color {
        self.color
    }

    /// The count of nodes that the tree keeps in its field `size`.
    pub closed spec fn counted(&self) -> int {
        self.size as int
    }

    /// The rating of children that the tree was made with.
    pub closed spec fn rating(&self) -> U {
        self.ucb
    }

    /// The rating accepts every child.
    pub open spec fn rates_all(&self) -> bool {
        accepts_all(self.rating())
    }

    /// `k` is a number that the rating may give to a child.
    pub open spec fn rated(&self, score: isize, visits: usize, parent_visits: usize, k: i64) -> bool {
        call_ensures(self.rating(), (score, visits, parent_visits), k)
    }

    /// The rating gives one child one number.
    pub open spec fn rates_one(&self) -> bool {
        gives_one(self.rating())
    }

    /// The number that the rating gives to a child.
    pub open spec fn rate(&self, score: isize, visits: usize, parent_visits: usize) -> i64 {
        choose|k: i64| self.rated(score, visits, parent_visits, k)
    }

    /// The number of nodes.
    pub open spec fn len(&self) -> int {
        self.nodes().len() as int
    }

    /// The lists have one place for each node; a parent stands before its
    /// children, and the children's lists and the parents agree.
    pub open spec fn shaped(&self) -> bool {
        &&& self.counted() == self.len()
        &&& self.kids().len() == self.len()
        &&& self.parents().len() == self.len()
        &&& forall|c: int|
            0 <= c < self.len() ==> ((#[trigger] self.parents()[c]) matches Some(p) ==> p < c)
        &&& forall|p: int, j: int|
            0 <= p < self.len() && 0 <= j < self.kids()[p].len() ==> p < (
            #[trigger] self.kids()[p][j]) < self.len() && self.parents()[self.kids()[p][j] as int]
                == Some(p as usize)
    }

    /// Every node is sound by itself, and has no more visits than nodes
    /// were made after it, itself counted.
    pub open spec fn sound(&self) -> bool {
        forall|i: int|
            0 <= i < self.len() ==> node_ok(#[trigger] self.nodes()[i], self.kids()[i].len() > 0)
                && self.nodes()[i].visits + i <= self.len()
    }

    /// Every node but a root follows from its parent; a root has no move.
    pub open spec fn linked(&self) -> bool {
        forall|c: int|
            0 <= c < self.len() ==> match #[trigger] self.parents()[c] {
                Some(p) => edge_ok(
                    self.nodes()[p as int].state,
                    self.nodes()[c].action,
                    self.nodes()[c].state,
                ),
                None => self.nodes()[c].action is None,
            }
    }

    /// The table of states files every state of the tree under its key,
    /// with the index of the last node that holds it, and nothing else.
    pub open spec fn indexed(&self) -> bool {
        &&& forall|key: (u128, u16)|
            (#[trigger] self.entry(key)) matches Some(i) ==> i < self.len() && key_of(
                self.nodes()[i as int].state,
            ) == key
        &&& forall|i: int|
            0 <= i < self.len() ==> ((#[trigger] self.entry(key_of(self.nodes()[i].state)))
                matches Some(j) && i <= j)
    }

    /// The tree is well formed.
    pub open spec fn wf(&self) -> bool {
        &&& self.shaped()
        &&& self.sound()
        &&& self.linked()
        &&& self.indexed()
        &&& self.rates_all()
        &&& self.rates_one()
    }

    /// Every node has fewer visits than nodes were made after it, itself
    /// counted: one more visit of each is in order.
    pub open spec fn roomy(&self) -> bool {
        forall|i: int| 0 <= i < self.len() ==> (#[trigger] self.nodes()[i]).visits + i < self.len()
    }

    /// The tree holds a node with the state `state`.
    pub open spec fn knows(&self, state: State) -> bool {
        exists|i: int| 0 <= i < self.len() && (#[trigger] self.nodes()[i]).state == state
    }

    /// `i` is the last node with the state `state`.
    pub open spec fn is_root_for(&self, state: State, i: int) -> bool {
        &&& 0 <= i < self.len()
        &&& self.nodes()[i].state == state
        &&& forall|j: int| i < j < self.len() ==> (#[trigger] self.nodes()[j]).state != state
    }

    /// The node from which a search for `state` starts: the last node with
    /// that state, or the place of the next node where the tree holds none.
    pub open spec fn root_for(&self, state: State) -> int {
        if self.knows(state) {
            choose|i: int| self.is_root_for(state, i)
        } else {
            self.len()
        }
    }

    /// `new` is this tree with one more node, made of `state`, `action` and
    /// the moves that `state` offers, as a child of `parent` or as a root;
    /// what the tree held stays as it was.
    pub open spec fn adds(
        &self,
        new: &MCTS<U>,
        state: State,
        action: Option<Action>,
        parent: Option<usize>,
    ) -> bool {
        let n = self.len();
        &&& new.len() == n + 1
        &&& new.nodes()[n].state == state
        &&& new.nodes()[n].action == action
        &&& new.nodes()[n].untried_actions@ == offered(state)
        &&& new.nodes()[n].visits == 0
        &&& new.nodes()[n].score == 0
        &&& forall|i: int| 0 <= i < n ==> #[trigger] new.nodes()[i] == self.nodes()[i]
        &&& new.parents() == self.parents().push(parent)
        &&& new.kids().len() == n + 1
        &&& new.kids()[n].len() == 0
        &&& forall|i: int|
            0 <= i < n ==> #[trigger] new.kids()[i] == if parent == Some(i as usize) {
                self.kids()[i].push(n as usize)
            } else {
                self.kids()[i]
            }
        &&& forall|k: (u128, u16)|
            #[trigger] new.entry(k) == if k == key_of(state) {
                Some(n as usize)
            } else {
                self.entry(k)
            }
        &&& new.color() == self.color()
        &&& new.rating() == self.rating()
    }

    /// A tree without nodes for an engine that plays black where `col` is
    /// "false" and white else, and that rates children by `ucb`. The rating
    /// must accept every child and give it one number.
    pub fn new(col: &str, ucb: U) -> (tree: Self)
        requires
            accepts_all(ucb),
            gives_one(ucb),
        ensures
            tree.wf(),
            tree.len() == 0,
            tree.color() == if col@ == "false"@ {
                Color::BLACK
            } else {
                Color::WHITE
            },
            tree.rating() == ucb,
    {
        let ai_color = if String::from_str(col) == String::from_str("false") {
            Color::BLACK
        } else {
            Color::WHITE
        };
        Self {
            tree: Vec::new(),
            color: ai_color,
            ucb,
            parents: Vec::new(),
            state_map: HashMap::new(),
            size: 0,
            nodes: Vec::new(),
        }
    }

    /// The last node with the state `state`, if the tree holds one.
    fn find(&self, state: &State) -> (r: Option<usize>)
        requires
            self.wf(),
        ensures
            r is Some == self.knows(*state),
            r matches Some(i) ==> self.is_root_for(*state, i as int) && i == self.root_for(*state),
    {
        let found = file_get(&self.state_map, state_key(state));
        proof {
            assert(self.entry(key_of(*state)) == found);
            match found {
                Some(i) => {
                    lemma_key_ext(self.nodes()[i as int].state, *state);
                    assert(self.is_root_for(*state, i as int));
                },
                None => {
                    assert(forall|j: int|
                        0 <= j < self.len() ==> (#[trigger] self.nodes()[j]).state != *state);
                },
            }
        }
        found
    }

    /// Adds a node for `state`, reached by `action`, as a child of `parent`
    /// or as a root, and files it under its state.
    fn add_node(&mut self, state: State, action: Option<Action>, parent: Option<usize>)
        requires
            old(self).wf(),
            state.wf(),
            match parent {
                Some(p) => p < old(self).len() && edge_ok(
                    old(self).nodes()[p as int].state,
                    action,
                    state,
                ),
                None => action is None,
            },
        ensures
            final(self).wf(),
            final(self).roomy(),
            old(self).adds(final(self), state, action, parent),
    {
        let untried = if state.remaining_moves == 0 {
            Vec::new()
        } else {
            state.get_actions()
        };
        let new_node = Node::new(state, action, untried);
        let index = self.nodes.len();
        file_put(&mut self.state_map, state_key(&state), index);
        self.tree.push(Vec::new());
        self.parents.push(parent);
        self.nodes.push(new_node);
        match parent {
            Some(p) => {
                self.tree[p].push(index);
            },
            None => {},
        }
        self.size = self.nodes.len();
        proof {
            assert(old(self).adds(self, state, action, parent));
        }
    }

    /// `a` is the node `c` or one of its ancestors.
    pub open spec fn on_path(&self, c: int, a: int) -> bool
        decreases c,
    {
        c == a || (0 <= c < self.len() && match self.parents()[c] {
            Some(p) => p < c && self.on_path(p as int, a),
            None => false,
        })
    }

    /// The node `n` lies under the node `root`: it is `root` or one of its
    /// descendants.
    #[verifier::opaque]
    pub open spec fn lies_under(&self, n: int, root: int) -> bool {
        self.on_path(n, root)
    }

    /// An ancestor stands before its descendants.
    pub proof fn lemma_path_below(&self, c: int, a: int)
        requires
            self.on_path(c, a),
        ensures
            a <= c,
        decreases c,
    {
        if c != a {
            self.lemma_path_below(self.parents()[c]->0 as int, a);
        }
    }

    /// The descent stops at node `i`: it has a move that was not tried, or
    /// it has no child.
    pub open spec fn stops_at(&self, i: int) -> bool {
        self.nodes()[i].untried_actions@.len() > 0 || self.kids()[i].len() == 0
    }

    /// The rank of `child` among the children of `parent`: above all
    /// numbers where it was never visited, else the number that the rating
    /// gives it.
    pub open spec fn rank(&self, parent: int, child: int) -> int {
        let node = self.nodes()[child];
        if node.visits == 0 {
            i64::MAX + 1
        } else {
            self.rate(node.score, node.visits, self.nodes()[parent].visits) as int
        }
    }

    /// The ranks of the children of `parent`, in the order of the children.
    pub open spec fn ranks(&self, parent: int) -> Seq<int> {
        Seq::new(
            self.kids()[parent].len(),
            |j: int| self.rank(parent, self.kids()[parent][j] as int),
        )
    }

    /// The child of `parent` into which the descent goes: the first of the
    /// children with the highest rank.
    pub open spec fn best_child(&self, parent: int) -> int {
        self.kids()[parent][first_max(self.ranks(parent))] as int
    }

    /// The node at which the descent from `from` stops.
    pub open spec fn selected(&self, from: int) -> int
        decreases self.len() - from,
    {
        if from < 0 || from >= self.len() || self.stops_at(from) {
            from
        } else {
            let next = self.best_child(from);
            if from < next < self.len() {
                self.selected(next)
            } else {
                from
            }
        }
    }

    /// The visits of the children of `parent`, in the order of the children.
    pub open spec fn tallies(&self, parent: int) -> Seq<int> {
        Seq::new(
            self.kids()[parent].len(),
            |j: int| self.nodes()[self.kids()[parent][j] as int].visits as int,
        )
    }

    /// The move that the tree recommends at node `from`: the move of the
    /// first of its children with the most visits. There is none where the
    /// node has no child, where that child stands for a pass, and where its
    /// move is not of the colour that moves at `from`.
    pub open spec fn best_choice(&self, from: int) -> Result<Action, ()> {
        if self.kids()[from].len() == 0 {
            Err(())
        } else {
            let best = self.kids()[from][first_max(self.tallies(from))] as int;
            match self.nodes()[best].action {
                None => Err(()),
                Some(a) => if a.color != self.nodes()[from].state.next_turn {
                    Err(())
                } else {
                    Ok(a)
                },
            }
        }
    }

    /// `new` holds what this tree holds: the states, moves and parents of
    /// its nodes, its colour and its rating.
    pub open spec fn kept_by(&self, new: &MCTS<U>) -> bool {
        &&& self.len() <= new.len()
        &&& forall|i: int|
            0 <= i < self.len() ==> (#[trigger] new.nodes()[i]).state == self.nodes()[i].state
                && new.nodes()[i].action == self.nodes()[i].action && new.parents()[i]
                == self.parents()[i]
        &&& new.color() == self.color()
        &&& new.rating() == self.rating()
    }

    /// `new` is this tree after node `parent` was expanded by its untried
    /// move number `choice`, or by a pass where it had none: one node more,
    /// the move taken from the untried ones, and all else as it was.
    pub open spec fn grows(&self, new: &MCTS<U>, parent: int, choice: int) -> bool {
        let n = self.len();
        let untried = self.nodes()[parent].untried_actions@;
        let action = if untried.len() == 0 {
            None
        } else {
            Some(untried[choice])
        };
        &&& new.len() == n + 1
        &&& new.nodes()[n].action == action
        &&& edge_ok(self.nodes()[parent].state, action, new.nodes()[n].state)
        &&& new.nodes()[n].untried_actions@ == offered(new.nodes()[n].state)
        &&& new.nodes()[n].visits == 0
        &&& new.nodes()[n].score == 0
        &&& forall|i: int|
            0 <= i < n ==> (#[trigger] new.nodes()[i]).state == self.nodes()[i].state
                && new.nodes()[i].action == self.nodes()[i].action && new.nodes()[i].visits
                == self.nodes()[i].visits && new.nodes()[i].score == self.nodes()[i].score
                && new.nodes()[i].untried_actions@ == if i == parent && untried.len() > 0 {
                untried.remove(choice)
            } else {
                self.nodes()[i].untried_actions@
            }
        &&& new.parents() == self.parents().push(Some(parent as usize))
        &&& new.kids().len() == n + 1
        &&& new.kids()[n].len() == 0
        &&& forall|i: int|
            0 <= i < n ==> #[trigger] new.kids()[i] == if i == parent {
                self.kids()[i].push(n as usize)
            } else {
                self.kids()[i]
            }
        &&& forall|k: (u128, u16)|
            #[trigger] new.entry(k) == if k == key_of(new.nodes()[n].state) {
                Some(n as usize)
            } else {
                self.entry(k)
            }
        &&& new.color() == self.color()
        &&& new.rating() == self.rating()
    }

    /// `new` is this tree after the playout result `result` was counted at
    /// `child` and at each of its ancestors: one visit more, and the
    /// result, signed for the colour that moves there, added to the score.
    pub open spec fn counts(&self, new: &MCTS<U>, child: int, result: (Color, isize)) -> bool {
        &&& new.len() == self.len()
        &&& forall|i: int|
            0 <= i < self.len() ==> (#[trigger] new.nodes()[i]).state == self.nodes()[i].state
                && new.nodes()[i].action == self.nodes()[i].action
                && new.nodes()[i].untried_actions == self.nodes()[i].untried_actions
                && new.nodes()[i].visits == self.nodes()[i].visits + if self.on_path(child, i) {
                1int
            } else {
                0int
            } && new.nodes()[i].score == self.nodes()[i].score + if self.on_path(child, i) {
                signed(result.0, result.1 as int, self.nodes()[i].state.next_turn)
            } else {
                0int
            }
        &&& new.parents() == self.parents()
        &&& new.kids() == self.kids()
        &&& forall|k: (u128, u16)| #[trigger] new.entry(k) == self.entry(k)
        &&& new.color() == self.color()
        &&& new.rating() == self.rating()
    }

    /// The child of `node_index` into which the descent goes.
    fn pick_child(&self, node_index: usize) -> (child: usize)
        requires
            self.wf(),
            node_index < self.len(),
            self.kids()[node_index as int].len() > 0,
        ensures
            child == self.best_child(node_index as int),
            node_index < child < self.len(),
            self.parents()[child as int] == Some(node_index),
    {
        let children = &self.tree[node_index];
        let parent_visits = self.nodes[node_index].visits;
        let ghost ranks = self.ranks(node_index as int);
        let mut best: usize = 0;
        let mut best_unvisited = false;
        let mut best_rate: i64 = 0;
        let mut j: usize = 0;
        while j < children.len()
            invariant
                self.wf(),
                node_index < self.len(),
                children@ == self.kids()[node_index as int],
                parent_visits == self.nodes()[node_index as int].visits,
                ranks == self.ranks(node_index as int),
                j <= children.len(),
                j > 0 ==> best < j && best == first_max(ranks.take(j as int)) && ranks[best as int]
                    == if best_unvisited {
                    i64::MAX + 1
                } else {
                    best_rate as int
                },
            decreases children.len() - j,
        {
            let child_index = children[j];
            let child = &self.nodes[child_index];
            let unvisited = child.visits == 0;
            let rate: i64 = if unvisited {
                0
            } else {
                let k = (self.ucb)(child.score, child.visits, parent_visits);
                assert(self.rated(child.score, child.visits, parent_visits, k));
                k
            };
            proof {
                assert(ranks.take(j + 1).drop_last() =~= ranks.take(j as int));
            }
            if j == 0 || (!best_unvisited && (unvisited || rate > best_rate)) {
                best = j;
                best_unvisited = unvisited;
                best_rate = rate;
            }
            j += 1;
        }
        proof {
            assert(ranks.take(children.len() as int) =~= ranks);
            lemma_first_max(ranks);
        }
        children[best]
    }

    /// Goes down from `root_index`, at each node into the child of the
    /// highest rank, to the first node that has an untried move or no child.
    fn select(&self, root_index: usize) -> (r: usize)
        requires
            self.wf(),
            root_index < self.len(),
        ensures
            r == self.selected(root_index as int),
            r < self.len(),
            self.stops_at(r as int),
            self.on_path(r as int, root_index as int),
    {
        let mut node_index = root_index;
        loop
            invariant
                self.wf(),
                root_index <= node_index < self.len(),
                self.selected(node_index as int) == self.selected(root_index as int),
                self.on_path(node_index as int, root_index as int),
            decreases self.len() - node_index,
        {
            if self.tree[node_index].len() == 0 {
                return node_index;
            }
            if self.nodes[node_index].untried_actions.len() > 0 {
                return node_index;
            }
            node_index = self.pick_child(node_index);
        }
    }

    /// Adds one child to `node_index`: the state after its untried move
    /// number `choice`, which leaves the untried ones, or the state after a
    /// pass where it has no untried move. Returns the index of the child.
    fn expand_at(&mut self, node_index: usize, choice: usize) -> (r: usize)
        requires
            old(self).wf(),
            node_index < old(self).len(),
            old(self).stops_at(node_index as int),
            old(self).nodes()[node_index as int].untried_actions@.len() > 0 ==> choice < old(
                self,
            ).nodes()[node_index as int].untried_actions@.len(),
        ensures
            final(self).wf(),
            final(self).roomy(),
            r == old(self).len(),
            old(self).grows(final(self), node_index as int, choice as int),
    {
        if self.nodes[node_index].untried_actions.len() == 0 {
            // No move to try: the child stands for a pass.
            proof {
                assert(node_ok(
                    self.nodes()[node_index as int],
                    self.kids()[node_index as int].len() > 0,
                ));
            }
            let new_state = self.nodes[node_index].state.do_action(None);
            self.add_node(new_state, None, Some(node_index));
        } else {
            let action = self.nodes[node_index].untried_actions[choice];
            let new_state = self.nodes[node_index].state.do_action(Some(action));
            self.add_node(new_state, Some(action), Some(node_index));
            let ghost mid = *self;
            // The move is tried now.
            self.nodes[node_index].untried_actions.remove(choice);
            proof {
                let n = old(self).len();
                mid.lemma_taken_wf(self, node_index as int, choice as int);
                assert(forall|i: int|
                    0 <= i < n ==> #[trigger] self.kids()[i] == if i == node_index {
                        old(self).kids()[i].push(n as usize)
                    } else {
                        old(self).kids()[i]
                    });
                assert forall|k: (u128, u16)| #[trigger]
                    self.entry(k) == if k == key_of(self.nodes()[n].state) {
                        Some(n as usize)
                    } else {
                        old(self).entry(k)
                    } by {
                    assert(self.entry(k) == mid.entry(k));
                }
            }
        }
        self.size - 1
    }

    /// Adds one child to `node_index`, for one of its untried moves drawn at
    /// random, or for a pass where it has none. Returns the index of the child.
    fn expand(&mut self, node_index: usize) -> (r: usize)
        requires
            old(self).wf(),
            node_index < old(self).len(),
            old(self).stops_at(node_index as int),
        ensures
            final(self).wf(),
            final(self).roomy(),
            r == old(self).len(),
            exists|choice: int| #[trigger] old(self).grows(final(self), node_index as int, choice),
    {
        let count = self.nodes[node_index].untried_actions.len();
        let choice = if count == 0 {
            0
        } else {
            random_index(count)
        };
        self.expand_at(node_index, choice)
    }

    /// Plays the game out at random from the state of `node_index`. Returns
    /// the colour that moves there and what the playout is worth to it.
    fn simulate(&self, node_index: usize) -> (r: (Color, isize))
        requires
            self.wf(),
            node_index < self.len(),
        ensures
            r.0 == self.nodes()[node_index as int].state.next_turn,
            playout_result(self.nodes()[node_index as int].state, r.1 as int),
            -1 <= r.1 <= 1,
    {
        let node_state = self.nodes[node_index].state;
        let score = simulate_game(&node_state);
        (node_state.next_turn, score)
    }

    /// Counts the playout result at `child_index` and at each of its
    /// ancestors, up to the root.
    fn backpropagate(&mut self, child_index: usize, result: (Color, isize))
        requires
            old(self).wf(),
            old(self).roomy(),
            old(self).len() <= isize::MAX,
            child_index < old(self).len(),
            -1 <= result.1 <= 1,
        ensures
            final(self).wf(),
            old(self).counts(final(self), child_index as int, result),
    {
        let mut current: Option<usize> = Some(child_index);
        while current.is_some()
            invariant
                old(self).wf(),
                old(self).roomy(),
                old(self).len() <= isize::MAX,
                -1 <= result.1 <= 1,
                self.size == old(self).counted(),
                self.tree == old(self).tree,
                self.parents == old(self).parents,
                self.state_map == old(self).state_map,
                self.color == old(self).color,
                self.ucb == old(self).ucb,
                self.nodes@.len() == old(self).len(),
                current matches Some(i) ==> i < old(self).len() && old(self).on_path(
                    child_index as int,
                    i as int,
                ),
                forall|a: int|
                    0 <= a < old(self).len() ==> {
                        let passed = old(self).on_path(child_index as int, a) && !(
                        current matches Some(i) && old(self).on_path(i as int, a));
                        &&& (#[trigger] self.nodes@[a]).state == old(self).nodes()[a].state
                        &&& self.nodes@[a].action == old(self).nodes()[a].action
                        &&& self.nodes@[a].untried_actions == old(self).nodes()[a].untried_actions
                        &&& self.nodes@[a].visits == old(self).nodes()[a].visits + if passed {
                            1int
                        } else {
                            0int
                        }
                        &&& self.nodes@[a].score == old(self).nodes()[a].score + if passed {
                            signed(result.0, result.1 as int, old(self).nodes()[a].state.next_turn)
                        } else {
                            0int
                        }
                    },
            decreases
                    match current {
                        Some(i) => i + 1,
                        None => 0,
                    },
        {
            let i = current.unwrap();
            self.nodes[i].update_node(result);
            let next = self.parents[i];
            proof {
                assert forall|a: int| 0 <= a < old(self).len() implies {
                    let passed = old(self).on_path(child_index as int, a) && !(next matches Some(
                        p,
                    ) && old(self).on_path(p as int, a));
                    &&& (#[trigger] self.nodes@[a]).state == old(self).nodes()[a].state
                    &&& self.nodes@[a].action == old(self).nodes()[a].action
                    &&& self.nodes@[a].untried_actions == old(self).nodes()[a].untried_actions
                    &&& self.nodes@[a].visits == old(self).nodes()[a].visits + if passed {
                        1int
                    } else {
                        0int
                    }
                    &&& self.nodes@[a].score == old(self).nodes()[a].score + if passed {
                        signed(result.0, result.1 as int, old(self).nodes()[a].state.next_turn)
                    } else {
                        0int
                    }
                } by {
                    if next is Some && old(self).on_path(next->0 as int, a) {
                        old(self).lemma_path_below(next->0 as int, a);
                    }
                }
                if next is Some {
                    old(self).lemma_path_step(child_index as int, i as int);
                }
            }
            current = next;
        }
        proof {
            assert(old(self).counts(self, child_index as int, result));
        }
    }

    /// Where `a` is on the path of `c`, the parent of `a` is on it too.
    proof fn lemma_path_step(&self, c: int, a: int)
        requires
            self.shaped(),
            self.on_path(c, a),
            0 <= a < self.len(),
            self.parents()[a] is Some,
        ensures
            self.on_path(c, self.parents()[a]->0 as int),
        decreases c,
    {
        let p = self.parents()[a]->0 as int;
        if c != a {
            self.lemma_path_step(self.parents()[c]->0 as int, a);
        } else {
            assert(self.on_path(p, p));
        }
    }

    /// Taking an untried move from a node that has a child keeps the tree
    /// well formed.
    proof fn lemma_taken_wf(&self, new: &MCTS<U>, node: int, choice: int)
        requires
            self.wf(),
            self.roomy(),
            0 <= node < self.len(),
            self.kids()[node].len() > 0,
            0 <= choice < self.nodes()[node].untried_actions@.len(),
            new.counted() == self.counted(),
            new.len() == self.len(),
            forall|i: int|
                0 <= i < self.len() ==> (#[trigger] new.nodes()[i]).state == self.nodes()[i].state
                    && new.nodes()[i].action == self.nodes()[i].action && new.nodes()[i].visits
                    == self.nodes()[i].visits && new.nodes()[i].score == self.nodes()[i].score
                    && new.nodes()[i].untried_actions@ == if i == node {
                    self.nodes()[i].untried_actions@.remove(choice)
                } else {
                    self.nodes()[i].untried_actions@
                },
            new.parents() == self.parents(),
            new.kids() == self.kids(),
            forall|k: (u128, u16)| #[trigger] new.entry(k) == self.entry(k),
            new.rating() == self.rating(),
        ensures
            new.wf(),
            new.roomy(),
    {
        assert(new.shaped());
    }

    /// The move that the tree recommends at `from_index`: the move of the
    /// first of its children with the most visits, if there is one.
    fn get_best_choice(&self, from_index: usize) -> (r: Result<Action, ()>)
        requires
            self.wf(),
            from_index < self.len(),
        ensures
            r == self.best_choice(from_index as int),
    {
        let children = &self.tree[from_index];
        if children.len() == 0 {
            return Err(());
        }
        let ghost tallies = self.tallies(from_index as int);
        let mut best: usize = 0;
        let mut max_visits: usize = 0;
        let mut j: usize = 0;
        while j < children.len()
            invariant
                self.wf(),
                from_index < self.len(),
                children@ == self.kids()[from_index as int],
                tallies == self.tallies(from_index as int),
                j <= children.len(),
                j > 0 ==> best < j && best == first_max(tallies.take(j as int))
                    && tallies[best as int] == max_visits,
            decreases children.len() - j,
        {
            let index = children[j];
            let node = &self.nodes[index];
            proof {
                assert(tallies.take(j + 1).drop_last() =~= tallies.take(j as int));
                assert(tallies.take(j + 1).last() == tallies[j as int]);
                if j > 0 {
                    assert(tallies.take(j as int)[best as int] == tallies[best as int]);
                }
            }
            if j == 0 || node.visits > max_visits {
                best = j;
                max_visits = node.visits;
            }
            j += 1;
        }
        proof {
            assert(tallies.take(children.len() as int) =~= tallies);
            lemma_first_max(tallies);
        }
        let best_index = children[best];
        match self.nodes[best_index].action {
            None => Err(()),
            Some(best_action) => {
                if self.nodes[from_index].state.next_turn != best_action.color {
                    Err(())
                } else {
                    Ok(best_action)
                }
            },
        }
    }

    /// The paths of a tree stay what they are when nodes are added to it.
    proof fn lemma_path_kept(&self, new: &MCTS<U>, c: int, a: int)
        requires
            self.shaped(),
            0 <= c < self.len(),
            self.len() <= new.len(),
            forall|i: int| 0 <= i < self.len() ==> #[trigger] new.parents()[i] == self.parents()[i],
        ensures
            new.on_path(c, a) == self.on_path(c, a),
        decreases c,
    {
        if c != a {
            match self.parents()[c] {
                Some(p) => {
                    self.lemma_path_kept(new, p as int, a);
                },
                None => {},
            }
        }
    }

    /// Where a node has a child and its state offers a move, the tree
    /// recommends a move there, and one that is legal in its state.
    pub proof fn lemma_choice_is_legal(&self, root: int)
        requires
            self.wf(),
            0 <= root < self.len(),
            self.kids()[root].len() > 0,
            offered(self.nodes()[root].state).len() > 0,
        ensures
            self.best_choice(root) matches Ok(a) && self.nodes()[root].state.is_legal(a),
    {
        lemma_first_max(self.tallies(root));
    }

    /// Where the state of a node offers no move, the tree recommends no
    /// move there.
    pub proof fn lemma_no_move_no_choice(&self, root: int)
        requires
            self.wf(),
            0 <= root < self.len(),
            offered(self.nodes()[root].state).len() == 0,
        ensures
            self.best_choice(root) is Err,
    {
        if self.kids()[root].len() > 0 {
            let tallies = self.tallies(root);
            lemma_first_max(tallies);
            let best = self.kids()[root][first_max(tallies)] as int;
            if self.nodes()[best].action is Some {
                let state = self.nodes()[root].state;
                state.lemma_legal_moves();
                assert(state.is_legal(self.nodes()[best].action->0));
            }
        }
    }

    /// Where a node has no child, the tree recommends no move there.
    pub proof fn lemma_no_child_no_choice(&self, root: int)
        requires
            self.kids()[root].len() == 0,
        ensures
            self.best_choice(root) is Err,
    {
    }

    /// Searches from the state `from`: from the last node that holds it,
    /// or from a new root where the tree holds none. Runs `iterations`
    /// rounds; each goes down the tree from that node, adds one child where
    /// the descent stops, plays the game out at random from the child, and
    /// counts the result at the child and at all its ancestors. Every
    /// thousandth round begins with a call of `send_status` with the rounds
    /// done, `iterations`, and the colour of the engine. Returns the move
    /// that the tree then recommends at the node of `from`, or `Err` where
    /// it recommends none.
    pub fn search<P: Fn(usize, usize, &Color)>(
        &mut self,
        from: State,
        iterations: usize,
        send_status: P,
    ) -> (r: Result<Action, ()>)
        requires
            old(self).wf(),
            from.wf(),
            old(self).len() + iterations + 1 < isize::MAX,
            forall|done: usize, total: usize, color: &Color|
                call_requires(send_status, (done, total, color)),
        ensures
            final(self).wf(),
            old(self).kept_by(final(self)),
            final(self).len() == old(self).len() + iterations + if old(self).knows(from) {
                0int
            } else {
                1int
            },
            final(self).nodes()[old(self).root_for(from)].state == from,
            final(self).nodes()[old(self).root_for(from)].visits == iterations + if old(
                self,
            ).knows(from) {
                old(self).nodes()[old(self).root_for(from)].visits as int
            } else {
                0int
            },
            forall|n: int|
                old(self).len() <= n < final(self).len() ==> #[trigger] final(self).lies_under(
                    n,
                    old(self).root_for(from),
                ),
            r == final(self).best_choice(old(self).root_for(from)),
            r is Ok <==> offered(from).len() > 0 && (iterations >= 1 || (old(self).knows(from)
                && old(self).kids()[old(self).root_for(from)].len() > 0)),
            r matches Ok(a) ==> from.is_legal(a) && from.legal_moves().contains(a),
    {
        let root = match self.find(&from) {
            Some(root) => root,
            None => {
                self.add_node(from, None, None);
                self.size - 1
            },
        };
        let ghost base = *self;
        proof {
            reveal(MCTS::lies_under);
        }
        let mut i: usize = 0;
        while i < iterations
            invariant
                self.wf(),
                i <= iterations,
                base.shaped(),
                base.kept_by(self),
                self.len() == base.len() + i,
                base.len() + iterations < isize::MAX,
                root < base.len(),
                self.nodes()[root as int].visits == base.nodes()[root as int].visits + i,
                i >= 1 ==> self.kids()[root as int].len() > 0,
                i == 0 ==> self.kids()[root as int] == base.kids()[root as int],
                forall|n: int|
                    old(self).len() <= n < self.len() ==> #[trigger] self.lies_under(
                        n,
                        root as int,
                    ),
                forall|done: usize, total: usize, color: &Color|
                    call_requires(send_status, (done, total, color)),
            decreases iterations - i,
        {
            if i % 1000 == 0 {
                send_status(i, iterations, &self.color);
            }
            let ghost before = *self;
            let selected_node = self.select(root);
            let expanded_node = self.expand(selected_node);
            let ghost grown = *self;
            let result = self.simulate(expanded_node);
            self.backpropagate(expanded_node, result);
            proof {
                before.lemma_path_kept(&grown, selected_node as int, root as int);
                assert(grown.parents()[expanded_node as int] == Some(selected_node));
                assert forall|n: int| old(self).len() <= n < self.len() implies #[trigger]
                    self.lies_under(n, root as int) by {
                    reveal(MCTS::lies_under);
                    if n < before.len() {
                        assert(before.lies_under(n, root as int));
                        before.lemma_path_kept(&grown, n, root as int);
                    }
                    grown.lemma_path_kept(self, n, root as int);
                }
            }
            i += 1;
        }
        proof {
            from.lemma_legal_moves();
            if offered(from).len() == 0 {
                self.lemma_no_move_no_choice(root as int);
            } else if self.kids()[root as int].len() > 0 {
                self.lemma_choice_is_legal(root as int);
            }
        }
        self.get_best_choice(root)
    }

    /// The node with the index `index`.
    pub fn node(&self, index: usize) -> (node: &Node)
        requires
            index < self.len(),
        ensures
            *node == self.nodes()[index as int],
    {
        &self.nodes[index]
    }

    /// The indices of the children of the node `index`, in the order in
    /// which they were made.
    pub fn children(&self, index: usize) -> (list: &Vec<usize>)
        requires
            index < self.kids().len(),
        ensures
            list@ == self.kids()[index as int],
    {
        &self.tree[index]
    }

    /// The index of the parent of the node `index`; `None` for a root.
    pub fn parent(&self, index: usize) -> (p: Option<usize>)
        requires
            index < self.parents().len(),
        ensures
            p == self.parents()[index as int],
    {
        self.parents[index]
    }
}

} // verus!
