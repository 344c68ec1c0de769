//! The graph of a flake lock file: what its inputs resolve to, and which nodes a targeted relock
//! may change.

use crate::flake::{all_assigned, unsupported, Assigned, DirectInputAssignment};
use crate::migration::MigrationError;
use crate::order::text_le;
use crate::table::{law_names_in_order, TextMap};
use crate::text::{
    concat2, concat3, concat4, concat5, copy_option, decimal, join, joined, render_u64, same,
    text_of, texts,
};
use vstd::prelude::*;

verus! {

/// What an input refers to: a node, or the path of inputs from the root that it follows. The text
/// of a reference that is neither stands for it.
#[derive(Debug, PartialEq, Eq)]
pub enum InputReference {
    Node(String),
    Follows(Vec<String>),
    MixedPath(String),
    Other(String),
}

/// A source as a lock file describes it: its text, and the members of that text that are read.
#[derive(Debug, PartialEq, Eq)]
pub struct LockedSource {
    pub text: String,
    pub kind: Option<String>,
    pub owner: Option<String>,
    pub repo: Option<String>,
}

#[derive(Debug)]
pub struct FlakeLockNode {
    pub inputs: TextMap<InputReference>,
    pub locked: Option<LockedSource>,
    pub original: Option<LockedSource>,
    pub parent: Option<Vec<String>>,
}

#[derive(Debug)]
pub struct FlakeLock {
    pub nodes: TextMap<FlakeLockNode>,
    pub root: String,
    pub version: u64,
}

/// A shorthand that a node other than the root's direct inputs still uses.
#[derive(Debug, Clone, PartialEq, Eq)]
pub struct TransitiveShorthandNode {
    pub node_id: String,
    pub shorthand_type: String,
    pub owner: Option<String>,
    pub repo: Option<String>,
}

/// What an input refers to.
pub enum Reference {
    Node(Seq<char>),
    Follows(Seq<Seq<char>>),
    MixedPath(Seq<char>),
    Other(Seq<char>),
}

impl View for InputReference {
    type V = Reference;

    open spec fn view(&self) -> Reference {
        match *self {
            InputReference::Node(id) => Reference::Node(id@),
            InputReference::Follows(path) => Reference::Follows(texts(path@)),
            InputReference::MixedPath(text) => Reference::MixedPath(text@),
            InputReference::Other(text) => Reference::Other(text@),
        }
    }
}

impl FlakeLock {
    pub open spec fn has(self, id: Seq<char>) -> bool {
        self.nodes@.contains_key(id)
    }

    pub open spec fn inputs(self, id: Seq<char>) -> Map<Seq<char>, InputReference> {
        self.nodes@[id].inputs@
    }

    pub open spec fn input_names(self, id: Seq<char>) -> Seq<Seq<char>> {
        self.nodes@[id].inputs.keys()
    }
}

// ---------------------------------------------------------------------------
// References

/// What a reference comes to: a node, something that is wrong with it, or a path that leads back
/// to itself and never ends.
pub enum Resolution {
    Node(Seq<char>),
    Flaw(Seq<char>),
    Endless,
}

pub open spec fn missing_target(id: Seq<char>) -> Resolution {
    Resolution::Flaw("target node "@ + id + " is missing"@)
}

/// What a reference comes to where no more than `fuel` paths are followed one inside the other.
pub open spec fn resolution(
    lock: FlakeLock,
    start: Seq<char>,
    reference: Reference,
    fuel: nat,
) -> Resolution
    decreases fuel, 1int, 0int,
{
    match reference {
        Reference::Node(id) => if lock.has(id) {
            Resolution::Node(id)
        } else {
            missing_target(id)
        },
        Reference::Other(_) => Resolution::Flaw(
            "input reference must be a node id string or follows path"@,
        ),
        Reference::MixedPath(_) => Resolution::Flaw("follows path segments must be strings"@),
        Reference::Follows(path) => if path.len() == 0 {
            Resolution::Flaw("follows path must not be empty"@)
        } else {
            walk(lock, start, path, 0, lock.root@, fuel)
        },
    }
}

/// Where the path from the `i`-th of its inputs on leads from the node `current`.
pub open spec fn walk(
    lock: FlakeLock,
    start: Seq<char>,
    path: Seq<Seq<char>>,
    i: int,
    current: Seq<char>,
    fuel: nat,
) -> Resolution
    decreases fuel, 0int, path.len() - i,
{
    if i < 0 || i >= path.len() {
        Resolution::Node(current)
    } else if !lock.has(current) {
        Resolution::Flaw("node "@ + current + " is missing"@)
    } else if !lock.inputs(current).contains_key(path[i]) {
        Resolution::Flaw(
            "follows segment "@ + path[i] + " is missing on node "@ + current
                + " while resolving from "@ + start,
        )
    } else {
        match lock.inputs(current)[path[i]]@ {
            Reference::Node(id) => if lock.has(id) {
                walk(lock, start, path, i + 1, id, fuel)
            } else {
                missing_target(id)
            },
            other => if fuel == 0 {
                Resolution::Endless
            } else {
                match resolution(lock, start, other, (fuel - 1) as nat) {
                    Resolution::Node(id) => walk(lock, start, path, i + 1, id, fuel),
                    stopped => stopped,
                }
            },
        }
    }
}

/// How many inputs the first `n` nodes have.
pub open spec fn input_count(lock: FlakeLock, n: int) -> nat
    decreases n,
{
    if n <= 0 {
        0
    } else {
        input_count(lock, n - 1) + lock.input_names(lock.nodes.keys()[n - 1]).len()
    }
}

/// How many inputs the nodes of a lock file have: no path that ends follows more than as many
/// others, one inside the other.
pub open spec fn depth_limit(lock: FlakeLock) -> nat {
    input_count(lock, lock.nodes.keys().len() as int)
}

/// What a reference comes to.
pub open spec fn resolved(lock: FlakeLock, start: Seq<char>, reference: Reference) -> Resolution {
    resolution(lock, start, reference, depth_limit(lock))
}

/// What a reference comes to.
#[derive(Debug, PartialEq, Eq)]
pub enum Resolved {
    Node(String),
    Flaw(String),
    Endless,
}

impl View for Resolved {
    type V = Resolution;

    open spec fn view(&self) -> Resolution {
        match *self {
            Resolved::Node(id) => Resolution::Node(id@),
            Resolved::Flaw(detail) => Resolution::Flaw(detail@),
            Resolved::Endless => Resolution::Endless,
        }
    }
}

fn resolve_node(lock: &FlakeLock, id: &String) -> (r: Resolved)
    ensures
        r@ == (if lock.has(id@) {
            Resolution::Node(id@)
        } else {
            missing_target(id@)
        }),
{
    if lock.nodes.has(id) {
        Resolved::Node(id.clone())
    } else {
        Resolved::Flaw(concat3("target node ", id, " is missing"))
    }
}

fn resolve_within(lock: &FlakeLock, start: &str, reference: &InputReference, fuel: u128) -> (r:
    Resolved)
    ensures
        r@ == resolution(*lock, start@, reference@, fuel as nat),
    decreases fuel,
{
    match reference {
        InputReference::Node(id) => resolve_node(lock, id),
        InputReference::Other(_) => Resolved::Flaw(
            "input reference must be a node id string or follows path".to_owned(),
        ),
        InputReference::MixedPath(_) => Resolved::Flaw(
            "follows path segments must be strings".to_owned(),
        ),
        InputReference::Follows(path) => {
            if path.len() == 0 {
                return Resolved::Flaw("follows path must not be empty".to_owned());
            }
            let ghost names = texts(path@);
            let mut current = lock.root.clone();
            let mut i: usize = 0;
            while i < path.len()
                invariant
                    i <= path@.len(),
                    names == texts(path@),
                    names.len() > 0,
                    reference@ == Reference::Follows(names),
                    resolution(*lock, start@, reference@, fuel as nat) == walk(
                        *lock,
                        start@,
                        names,
                        i as int,
                        current@,
                        fuel as nat,
                    ),
                decreases path@.len() - i,
            {
                assert(names[i as int] == path@[i as int]@);
                let node = match lock.nodes.get(&current) {
                    Some(node) => node,
                    None => {
                        return Resolved::Flaw(concat3("node ", &current, " is missing"));
                    },
                };
                let next = match node.inputs.get(&path[i]) {
                    Some(next) => next,
                    None => {
                        let head = concat4(
                            "follows segment ",
                            &path[i],
                            " is missing on node ",
                            &current,
                        );
                        return Resolved::Flaw(concat3(&head, " while resolving from ", start));
                    },
                };
                let step = match next {
                    InputReference::Node(id) => resolve_node(lock, id),
                    other => {
                        if fuel == 0 {
                            return Resolved::Endless;
                        }
                        resolve_within(lock, start, other, fuel - 1)
                    },
                };
                match step {
                    Resolved::Node(id) => {
                        current = id;
                    },
                    stopped => {
                        return stopped;
                    },
                }
                i += 1;
            }
            Resolved::Node(current)
        },
    }
}

fn count_inputs(lock: &FlakeLock) -> (r: u128)
    ensures
        r == depth_limit(*lock),
{
    let mut total: u128 = 0;
    let mut i: usize = 0;
    while i < lock.nodes.len()
        invariant
            i <= lock.nodes.keys().len(),
            total == input_count(*lock, i as int),
            total <= i * 0xFFFF_FFFF_FFFF_FFFF,
        decreases lock.nodes.keys().len() - i,
    {
        let node = lock.nodes.value(i);
        let count: usize = node.inputs.len();
        assert(count <= 0xFFFF_FFFF_FFFF_FFFF);
        total += count as u128;
        i += 1;
    }
    total
}

/// What a reference comes to.
pub fn resolve_input_reference(
    lock: &FlakeLock,
    starting_node_id: &str,
    input_ref: &InputReference,
) -> (r: Resolved)
    ensures
        r@ == resolved(*lock, starting_node_id@, input_ref@),
{
    resolve_within(lock, starting_node_id, input_ref, count_inputs(lock))
}

// ---------------------------------------------------------------------------
// The depth of references

/// The inputs of the first `n` nodes, each by its node and its name.
spec fn entries(lock: FlakeLock, n: int) -> Seq<(Seq<char>, Seq<char>)>
    decreases n,
{
    if n <= 0 {
        Seq::empty()
    } else {
        let id = lock.nodes.keys()[n - 1];
        entries(lock, n - 1) + Seq::new(
            lock.input_names(id).len(),
            |j: int| (id, lock.input_names(id)[j]),
        )
    }
}

proof fn lemma_entries_len(lock: FlakeLock, n: int)
    ensures
        entries(lock, n).len() == input_count(lock, n),
    decreases n,
{
    if n > 0 {
        lemma_entries_len(lock, n - 1);
    }
}

proof fn lemma_entries_hold(lock: FlakeLock, n: int, i: int, j: int)
    requires
        0 <= i < n,
        0 <= j < lock.input_names(lock.nodes.keys()[i]).len(),
    ensures
        entries(lock, n).contains(
            (lock.nodes.keys()[i], lock.input_names(lock.nodes.keys()[i])[j]),
        ),
    decreases n,
{
    let id = lock.nodes.keys()[n - 1];
    let last = Seq::new(lock.input_names(id).len(), |k: int| (id, lock.input_names(id)[k]));
    let before = entries(lock, n - 1);
    if i == n - 1 {
        assert((before + last)[before.len() + j] == last[j]);
    } else {
        lemma_entries_hold(lock, n - 1, i, j);
        let e = (lock.nodes.keys()[i], lock.input_names(lock.nodes.keys()[i])[j]);
        let k = choose|k: int| 0 <= k < before.len() && before[k] == e;
        assert((before + last)[k] == e);
    }
}

/// Whether the names of a lock file's nodes and inputs stand in their order. It holds of every
/// lock file.
pub open spec fn lock_ordered(lock: FlakeLock) -> bool {
    &&& lock.nodes.ordered()
    &&& forall|id: Seq<char>| #[trigger]
        lock.has(id) ==> lock.nodes@[id].inputs.ordered()
}

spec fn is_input(lock: FlakeLock, e: (Seq<char>, Seq<char>)) -> bool {
    lock.has(e.0) && lock.inputs(e.0).contains_key(e.1)
}

spec fn input_of(lock: FlakeLock, e: (Seq<char>, Seq<char>)) -> Reference {
    lock.inputs(e.0)[e.1]@
}

proof fn lemma_inputs_listed(lock: FlakeLock, e: (Seq<char>, Seq<char>))
    requires
        lock_ordered(lock),
        is_input(lock, e),
    ensures
        entries(lock, lock.nodes.keys().len() as int).contains(e),
{
    let ids = lock.nodes.keys();
    law_names_in_order(lock.nodes);
    law_names_in_order(lock.nodes@[e.0].inputs);
    assert(lock.has(e.0));
    assert(ids.contains(e.0));
    let i = choose|i: int| 0 <= i < ids.len() && ids[i] == e.0;
    let names = lock.input_names(e.0);
    assert(names.contains(e.1));
    let j = choose|j: int| 0 <= j < names.len() && names[j] == e.1;
    lemma_entries_hold(lock, ids.len() as int, i, j);
}

proof fn lemma_more_fuel(lock: FlakeLock, start: Seq<char>, reference: Reference, f: nat, g: nat)
    requires
        f <= g,
        !(resolution(lock, start, reference, f) is Endless),
    ensures
        resolution(lock, start, reference, g) == resolution(lock, start, reference, f),
    decreases f, 1int, 0int,
{
    match reference {
        Reference::Follows(path) => {
            if path.len() > 0 {
                lemma_walk_more_fuel(lock, start, path, 0, lock.root@, f, g);
            }
        },
        _ => {},
    }
}

proof fn lemma_walk_more_fuel(
    lock: FlakeLock,
    start: Seq<char>,
    path: Seq<Seq<char>>,
    i: int,
    current: Seq<char>,
    f: nat,
    g: nat,
)
    requires
        f <= g,
        !(walk(lock, start, path, i, current, f) is Endless),
    ensures
        walk(lock, start, path, i, current, g) == walk(lock, start, path, i, current, f),
    decreases f, 0int, path.len() - i,
{
    if 0 <= i < path.len() && lock.has(current) && lock.inputs(current).contains_key(path[i]) {
        match lock.inputs(current)[path[i]]@ {
            Reference::Node(id) => {
                if lock.has(id) {
                    lemma_walk_more_fuel(lock, start, path, i + 1, id, f, g);
                }
            },
            other => {
                lemma_more_fuel(lock, start, other, (f - 1) as nat, (g - 1) as nat);
                match resolution(lock, start, other, (f - 1) as nat) {
                    Resolution::Node(id) => {
                        lemma_walk_more_fuel(lock, start, path, i + 1, id, f, g);
                    },
                    _ => {},
                }
            },
        }
    }
}

/// Whether the input `e` comes to an end where `f` paths are followed, and not where fewer are.
spec fn needs(lock: FlakeLock, start: Seq<char>, e: (Seq<char>, Seq<char>), f: nat) -> bool {
    &&& is_input(lock, e)
    &&& !(resolution(lock, start, input_of(lock, e), f) is Endless)
    &&& f > 0 ==> resolution(lock, start, input_of(lock, e), (f - 1) as nat) is Endless
}

/// A path that needs more fuel holds an input that needs all of the fuel that is left.
proof fn lemma_inner_input(
    lock: FlakeLock,
    start: Seq<char>,
    path: Seq<Seq<char>>,
    i: int,
    current: Seq<char>,
    f: nat,
) -> (e: (Seq<char>, Seq<char>))
    requires
        f > 0,
        !(walk(lock, start, path, i, current, f) is Endless),
        walk(lock, start, path, i, current, (f - 1) as nat) is Endless,
    ensures
        needs(lock, start, e, (f - 1) as nat),
    decreases path.len() - i,
{
    let here = (current, path[i]);
    match lock.inputs(current)[path[i]]@ {
        Reference::Node(id) => lemma_inner_input(lock, start, path, i + 1, id, f),
        other => {
            if f == 1 {
                here
            } else {
                match resolution(lock, start, other, (f - 2) as nat) {
                    Resolution::Endless => here,
                    Resolution::Node(id) => {
                        lemma_more_fuel(lock, start, other, (f - 2) as nat, (f - 1) as nat);
                        lemma_inner_input(lock, start, path, i + 1, id, f)
                    },
                    Resolution::Flaw(_) => here,
                }
            }
        },
    }
}

/// Inputs that need as much fuel as their place says.
proof fn lemma_chain(
    lock: FlakeLock,
    start: Seq<char>,
    e: (Seq<char>, Seq<char>),
    f: nat,
) -> (chain: Seq<(Seq<char>, Seq<char>)>)
    requires
        needs(lock, start, e, f),
    ensures
        chain.len() == f + 1,
        forall|m: int| 0 <= m <= f ==> needs(lock, start, #[trigger] chain[m], m as nat),
    decreases f,
{
    if f == 0 {
        seq![e]
    } else {
        let path = input_of(lock, e)->Follows_0;
        let inner = lemma_inner_input(lock, start, path, 0, lock.root@, f);
        let before = lemma_chain(lock, start, inner, (f - 1) as nat);
        before.push(e)
    }
}

proof fn lemma_chain_is_short(
    lock: FlakeLock,
    start: Seq<char>,
    chain: Seq<(Seq<char>, Seq<char>)>,
)
    requires
        lock_ordered(lock),
        forall|m: int|
            0 <= m < chain.len() ==> needs(lock, start, #[trigger] chain[m], m as nat),
    ensures
        chain.len() <= depth_limit(lock),
{
    let all = entries(lock, lock.nodes.keys().len() as int);
    lemma_entries_len(lock, lock.nodes.keys().len() as int);
    assert forall|m: int, n: int| 0 <= m < chain.len() && 0 <= n < chain.len() && m != n implies
        chain[m] != chain[n] by {
        let (lo, hi) = if m < n {
            (m, n)
        } else {
            (n, m)
        };
        assert(needs(lock, start, chain[lo], lo as nat));
        assert(needs(lock, start, chain[hi], hi as nat));
        if chain[lo] == chain[hi] {
            lemma_more_fuel(
                lock,
                start,
                input_of(lock, chain[lo]),
                lo as nat,
                (hi - 1) as nat,
            );
        }
    }
    assert(chain.no_duplicates());
    chain.unique_seq_to_set();
    all.lemma_cardinality_of_set();
    assert(chain.to_set().subset_of(all.to_set())) by {
        assert forall|e: (Seq<char>, Seq<char>)| chain.to_set().contains(e) implies all.to_set().contains(
        e) by {
            let m = choose|m: int| 0 <= m < chain.len() && chain[m] == e;
            assert(needs(lock, start, chain[m], m as nat));
            lemma_inputs_listed(lock, e);
        }
    }
    vstd::seq_lib::seq_to_set_is_finite(all);
    vstd::set_lib::lemma_len_subset(chain.to_set(), all.to_set());
}

proof fn lemma_depth_limit(
    lock: FlakeLock,
    start: Seq<char>,
    reference: Reference,
    fuel: nat,
)
    requires
        lock_ordered(lock),
        !(resolution(lock, start, reference, fuel) is Endless),
    ensures
        resolution(lock, start, reference, depth_limit(lock)) == resolution(
            lock,
            start,
            reference,
            fuel,
        ),
    decreases fuel,
{
    let limit = depth_limit(lock);
    if fuel <= limit {
        lemma_more_fuel(lock, start, reference, fuel, limit);
    } else if !(resolution(lock, start, reference, (fuel - 1) as nat) is Endless) {
        lemma_more_fuel(lock, start, reference, (fuel - 1) as nat, fuel);
        lemma_depth_limit(lock, start, reference, (fuel - 1) as nat);
    } else {
        let path = reference->Follows_0;
        let e = lemma_inner_input(lock, start, path, 0, lock.root@, fuel);
        let chain = lemma_chain(lock, start, e, (fuel - 1) as nat);
        lemma_chain_is_short(lock, start, chain);
    }
}

/// A reference that comes to an end at all is resolved: however many paths would have to be
/// followed one inside the other, no more are than the lock file has inputs. So a reference is
/// endless exactly where following it never ends.
pub proof fn law_endless_references_never_end(
    lock: FlakeLock,
    start: Seq<char>,
    reference: Reference,
)
    requires
        lock_ordered(lock),
    ensures
        forall|fuel: nat|
            !(#[trigger] resolution(lock, start, reference, fuel) is Endless) ==> resolved(
                lock,
                start,
                reference,
            ) == resolution(lock, start, reference, fuel),
        resolved(lock, start, reference) is Endless ==> forall|fuel: nat| #[trigger]
            resolution(lock, start, reference, fuel) is Endless,
{
    assert forall|fuel: nat|
        !(#[trigger] resolution(lock, start, reference, fuel) is Endless) implies resolved(
        lock,
        start,
        reference,
    ) == resolution(lock, start, reference, fuel) by {
        lemma_depth_limit(lock, start, reference, fuel);
    }
}

// ---------------------------------------------------------------------------
// Validation

/// What is the matter with a lock file: nothing, something that is said, or a reference that never
/// comes to an end.
pub enum Matter {
    Sound,
    Flaw(Seq<char>),
    Endless,
}

/// What is the matter with the first `n` inputs of a node, the first of them where it is.
pub open spec fn inputs_matter(lock: FlakeLock, id: Seq<char>, n: int) -> Matter
    decreases n,
{
    if n <= 0 {
        Matter::Sound
    } else {
        let name = lock.input_names(id)[n - 1];
        match inputs_matter(lock, id, n - 1) {
            Matter::Sound => match resolved(lock, id, lock.inputs(id)[name]@) {
                Resolution::Node(_) => Matter::Sound,
                Resolution::Flaw(detail) => Matter::Flaw(
                    "node "@ + id + " input "@ + name + ": "@ + detail,
                ),
                Resolution::Endless => Matter::Endless,
            },
            matter => matter,
        }
    }
}

/// What is the matter with the first `n` nodes.
pub open spec fn nodes_matter(lock: FlakeLock, n: int) -> Matter
    decreases n,
{
    if n <= 0 {
        Matter::Sound
    } else {
        let id = lock.nodes.keys()[n - 1];
        match nodes_matter(lock, n - 1) {
            Matter::Sound => inputs_matter(lock, id, lock.input_names(id).len() as int),
            matter => matter,
        }
    }
}

/// What is the matter with a lock file: its version, its root, or the first of its inputs that
/// does not resolve to a node.
pub open spec fn graph_matter(lock: FlakeLock) -> Matter {
    if lock.version != 7 {
        Matter::Flaw(
            "unsupported lock version "@ + decimal(lock.version as nat) + "; expected 7"@,
        )
    } else if !lock.has(lock.root@) {
        Matter::Flaw("root node "@ + lock.root@ + " is missing"@)
    } else {
        nodes_matter(lock, lock.nodes.keys().len() as int)
    }
}

/// Whether what is the matter with a lock file can be told: following its inputs comes to an end,
/// up to the first that is wrong.
pub open spec fn graph_settles(lock: FlakeLock) -> bool {
    !(graph_matter(lock) is Endless)
}

/// What is the matter with a lock file.
#[derive(Debug, PartialEq, Eq)]
pub enum GraphMatter {
    Sound,
    Flaw(String),
    Endless,
}

impl View for GraphMatter {
    type V = Matter;

    open spec fn view(&self) -> Matter {
        match *self {
            GraphMatter::Sound => Matter::Sound,
            GraphMatter::Flaw(detail) => Matter::Flaw(detail@),
            GraphMatter::Endless => Matter::Endless,
        }
    }
}

proof fn lemma_inputs_matter_stays(lock: FlakeLock, id: Seq<char>, n: int, m: int)
    requires
        0 <= n <= m,
        !(inputs_matter(lock, id, n) is Sound),
    ensures
        inputs_matter(lock, id, m) == inputs_matter(lock, id, n),
    decreases m - n,
{
    if n < m {
        lemma_inputs_matter_stays(lock, id, n, m - 1);
    }
}

proof fn lemma_nodes_matter_stays(lock: FlakeLock, n: int, m: int)
    requires
        0 <= n <= m,
        !(nodes_matter(lock, n) is Sound),
    ensures
        nodes_matter(lock, m) == nodes_matter(lock, n),
    decreases m - n,
{
    if n < m {
        lemma_nodes_matter_stays(lock, n, m - 1);
    }
}

fn check_inputs(lock: &FlakeLock, id: &String, node: &FlakeLockNode) -> (r: GraphMatter)
    requires
        *node == lock.nodes@[id@],
    ensures
        r@ == inputs_matter(*lock, id@, lock.input_names(id@).len() as int),
{
    let mut i: usize = 0;
    while i < node.inputs.len()
        invariant
            i <= node.inputs.keys().len(),
            *node == lock.nodes@[id@],
            inputs_matter(*lock, id@, i as int) is Sound,
        decreases node.inputs.keys().len() - i,
    {
        let matter = match resolve_input_reference(lock, id, node.inputs.value(i)) {
            Resolved::Node(_) => GraphMatter::Sound,
            Resolved::Flaw(detail) => {
                let head = concat5("node ", id, " input ", node.inputs.key(i), ": ");
                GraphMatter::Flaw(concat2(&head, &detail))
            },
            Resolved::Endless => GraphMatter::Endless,
        };
        proof {
            let names = node.inputs.keys();
            assert(matter@ == inputs_matter(*lock, id@, i + 1));
            if !(matter@ is Sound) {
                lemma_inputs_matter_stays(*lock, id@, i + 1, names.len() as int);
            }
        }
        match matter {
            GraphMatter::Sound => {},
            matter => {
                return matter;
            },
        }
        i += 1;
    }
    GraphMatter::Sound
}

/// What is the matter with a lock file.
pub fn check_graph(lock: &FlakeLock) -> (r: GraphMatter)
    ensures
        r@ == graph_matter(*lock),
{
    if lock.version != 7 {
        return GraphMatter::Flaw(
            concat3("unsupported lock version ", &render_u64(lock.version), "; expected 7"),
        );
    }
    if !lock.nodes.has(&lock.root) {
        return GraphMatter::Flaw(concat3("root node ", &lock.root, " is missing"));
    }
    let mut i: usize = 0;
    while i < lock.nodes.len()
        invariant
            i <= lock.nodes.keys().len(),
            lock.version == 7,
            lock.has(lock.root@),
            nodes_matter(*lock, i as int) is Sound,
        decreases lock.nodes.keys().len() - i,
    {
        let matter = check_inputs(lock, lock.nodes.key(i), lock.nodes.value(i));
        proof {
            assert(matter@ == nodes_matter(*lock, i + 1));
            if !(matter@ is Sound) {
                lemma_nodes_matter_stays(*lock, i + 1, lock.nodes.keys().len() as int);
            }
        }
        match matter {
            GraphMatter::Sound => {},
            matter => {
                return matter;
            },
        }
        i += 1;
    }
    GraphMatter::Sound
}

/// Whether following the inputs of a lock file comes to an end.
pub fn settles(lock: &FlakeLock) -> (r: bool)
    ensures
        r == graph_settles(*lock),
{
    match check_graph(lock) {
        GraphMatter::Endless => false,
        _ => true,
    }
}

/// Whether `error` says that the lock file at `path` is outside the contract.
pub open spec fn invalid_graph(error: MigrationError, path: Seq<char>, detail: Seq<char>) -> bool {
    error is InvalidLockGraph && error->InvalidLockGraph_path@ == path
        && error->InvalidLockGraph_detail@ == detail
}

fn invalid_lock(path: &str, detail: String) -> (r: MigrationError)
    ensures
        invalid_graph(r, path@, detail@),
{
    MigrationError::InvalidLockGraph { path: path.to_owned(), detail }
}

/// Whether a lock file is inside the contract: its version is the supported one, and its root and
/// every input resolve to nodes.
pub fn validate_lock_graph(path: &str, lock: &FlakeLock) -> (r: Result<(), MigrationError>)
    requires
        graph_settles(*lock),
    ensures
        match r {
            Ok(_) => graph_matter(*lock) is Sound,
            Err(error) => graph_matter(*lock) is Flaw && invalid_graph(
                error,
                path@,
                graph_matter(*lock)->Flaw_0,
            ),
        },
{
    match check_graph(lock) {
        GraphMatter::Flaw(detail) => Err(invalid_lock(path, detail)),
        _ => Ok(()),
    }
}

/// Whether the root has an input, in a lock file that has its root.
pub fn ensure_root_input_exists(path: &str, lock: &FlakeLock, input_name: &str) -> (r: Result<
    (),
    MigrationError,
>)
    ensures
        match r {
            Ok(_) => lock.has(lock.root@) && lock.inputs(lock.root@).contains_key(input_name@),
            Err(error) => if !lock.has(lock.root@) {
                invalid_graph(error, path@, "root node "@ + lock.root@ + " is missing"@)
            } else {
                &&& !lock.inputs(lock.root@).contains_key(input_name@)
                &&& invalid_graph(error, path@, absent_input(input_name@))
            },
        },
{
    match lock.nodes.get(&lock.root) {
        None => Err(invalid_lock(path, concat3("root node ", &lock.root, " is missing"))),
        Some(root) => {
            if root.inputs.has(input_name) {
                Ok(())
            } else {
                Err(
                    invalid_lock(
                        path,
                        concat3(
                            "selected direct input ",
                            input_name,
                            " is absent from root.inputs",
                        ),
                    ),
                )
            }
        },
    }
}

pub open spec fn absent_input(input_name: Seq<char>) -> Seq<char> {
    "selected direct input "@ + input_name + " is absent from root.inputs"@
}

/// Whether an input of the root may be relocked on its own: the lock file is inside the contract,
/// and the root has the input.
pub fn validate_targeted_relock_scope(lock_path: &str, lock: &FlakeLock, input_name: &str) -> (r:
    Result<(), MigrationError>)
    requires
        graph_settles(*lock),
    ensures
        match r {
            Ok(_) => graph_matter(*lock) is Sound && lock.inputs(lock.root@).contains_key(
                input_name@,
            ),
            Err(error) => if graph_matter(*lock) is Flaw {
                invalid_graph(error, lock_path@, graph_matter(*lock)->Flaw_0)
            } else {
                &&& !lock.inputs(lock.root@).contains_key(input_name@)
                &&& invalid_graph(error, lock_path@, absent_input(input_name@))
            },
        },
{
    match validate_lock_graph(lock_path, lock) {
        Ok(_) => ensure_root_input_exists(lock_path, lock, input_name),
        Err(error) => Err(error),
    }
}

// ---------------------------------------------------------------------------
// Shorthand in lock files

pub open spec fn shorthand_kind(kind: Option<Seq<char>>) -> bool {
    kind == Some("github"@) || kind == Some("gitlab"@) || kind == Some("sourcehut"@)
}

pub open spec fn kind_of(source: Option<LockedSource>) -> Option<Seq<char>> {
    match source {
        Some(source) => text_of(source.kind),
        None => None,
    }
}

/// The shorthand that a node uses: that of its original source, or else that of its locked one.
pub open spec fn shorthand_of(node: FlakeLockNode) -> Option<Seq<char>> {
    if shorthand_kind(kind_of(node.original)) {
        kind_of(node.original)
    } else if shorthand_kind(kind_of(node.locked)) {
        kind_of(node.locked)
    } else {
        None
    }
}

fn source_shorthand(source: &Option<LockedSource>) -> (r: Option<&'static str>)
    ensures
        r is Some <==> shorthand_kind(kind_of(*source)),
        r matches Some(kind) ==> kind_of(*source) == Some(kind@),
{
    match source {
        Some(source) => match &source.kind {
            Some(kind) => {
                if same(kind, "github") {
                    Some("github")
                } else if same(kind, "gitlab") {
                    Some("gitlab")
                } else if same(kind, "sourcehut") {
                    Some("sourcehut")
                } else {
                    None
                }
            },
            None => None,
        },
        None => None,
    }
}

/// The shorthand that a node uses.
pub fn shorthand_type_from_node(node: &FlakeLockNode) -> (r: Option<&'static str>)
    ensures
        r is Some <==> shorthand_of(*node) is Some,
        r matches Some(kind) ==> shorthand_of(*node) == Some(kind@),
{
    match source_shorthand(&node.original) {
        Some(kind) => Some(kind),
        None => source_shorthand(&node.locked),
    }
}

/// Whether the root has a direct input that leads to the node.
pub open spec fn direct_target(lock: FlakeLock, id: Seq<char>) -> bool {
    exists|name: Seq<char>| #[trigger]
        lock.inputs(lock.root@).contains_key(name) && resolved(
            lock,
            lock.root@,
            lock.inputs(lock.root@)[name]@,
        ) == Resolution::Node(id)
}

/// What is said of a node that uses shorthand.
pub open spec fn shorthand_note(lock: FlakeLock, id: Seq<char>, note: TransitiveShorthandNode) -> bool {
    let node = lock.nodes@[id];
    &&& note.node_id@ == id
    &&& shorthand_of(node) == Some(note.shorthand_type@)
    &&& text_of(note.owner) == match node.original {
        Some(source) => text_of(source.owner),
        None => None,
    }
    &&& text_of(note.repo) == match node.original {
        Some(source) => text_of(source.repo),
        None => None,
    }
}

/// The nodes among the first `n` that use shorthand, are not the root, and are none that a direct
/// input of the root leads to.
pub open spec fn transitive_nodes(lock: FlakeLock, n: int) -> Seq<Seq<char>>
    decreases n,
{
    if n <= 0 {
        Seq::empty()
    } else {
        let id = lock.nodes.keys()[n - 1];
        if id != lock.root@ && !direct_target(lock, id) && shorthand_of(lock.nodes@[id]) is Some {
            transitive_nodes(lock, n - 1).push(id)
        } else {
            transitive_nodes(lock, n - 1)
        }
    }
}

/// Whether `notes` tells of the nodes `ids`, in their order.
pub open spec fn notes_on(
    lock: FlakeLock,
    ids: Seq<Seq<char>>,
    notes: Seq<TransitiveShorthandNode>,
) -> bool {
    &&& notes.len() == ids.len()
    &&& forall|i: int| 0 <= i < ids.len() ==> #[trigger] shorthand_note(lock, ids[i], notes[i])
}

proof fn lemma_sound_inputs(lock: FlakeLock, id: Seq<char>, n: int, j: int)
    requires
        inputs_matter(lock, id, n) is Sound,
        0 <= j < n,
    ensures
        resolved(lock, id, lock.inputs(id)[lock.input_names(id)[j]]@) is Node,
    decreases n,
{
    if j < n - 1 {
        lemma_sound_inputs(lock, id, n - 1, j);
    }
}

proof fn lemma_sound_nodes(lock: FlakeLock, n: int, i: int)
    requires
        nodes_matter(lock, n) is Sound,
        0 <= i < n,
    ensures
        inputs_matter(
            lock,
            lock.nodes.keys()[i],
            lock.input_names(lock.nodes.keys()[i]).len() as int,
        ) is Sound,
    decreases n,
{
    if i < n - 1 {
        lemma_sound_nodes(lock, n - 1, i);
    }
}

/// The nodes that the direct inputs of the root lead to.
fn direct_targets(lock: &FlakeLock) -> (r: TextMap<()>)
    requires
        graph_matter(*lock) is Sound,
    ensures
        forall|id: Seq<char>| #[trigger] r@.contains_key(id) <==> direct_target(*lock, id),
{
    let mut targets: TextMap<()> = TextMap::new();
    match lock.nodes.get(&lock.root) {
        Some(root) => {
            proof {
                use_type_invariant(&lock.nodes);
                use_type_invariant(&root.inputs);
                law_names_in_order(lock.nodes);
                law_names_in_order(root.inputs);
                let ids = lock.nodes.keys();
                let i = choose|i: int| 0 <= i < ids.len() && ids[i] == lock.root@;
                assert(ids.contains(lock.root@));
                lemma_sound_nodes(*lock, ids.len() as int, i);
            }
            let ghost names = root.inputs.keys();
            let mut i: usize = 0;
            while i < root.inputs.len()
                invariant
                    i <= names.len(),
                    names == root.inputs.keys(),
                    *root == lock.nodes@[lock.root@],
                    inputs_matter(*lock, lock.root@, names.len() as int) is Sound,
                    forall|id: Seq<char>| #[trigger]
                        targets@.contains_key(id) <==> exists|j: int|
                            0 <= j < i && resolved(
                                *lock,
                                lock.root@,
                                lock.inputs(lock.root@)[#[trigger] names[j]]@,
                            ) == Resolution::Node(id),
                decreases names.len() - i,
            {
                proof {
                    lemma_sound_inputs(*lock, lock.root@, names.len() as int, i as int);
                }
                let ghost before = targets@;
                match resolve_input_reference(lock, &lock.root, root.inputs.value(i)) {
                    Resolved::Node(id) => {
                        targets = targets.with(id, ());
                    },
                    _ => {
                        assert(false);
                    },
                }
                i += 1;
                proof {
                    let here = resolved(
                        *lock,
                        lock.root@,
                        lock.inputs(lock.root@)[names[i - 1]]@,
                    );
                    assert forall|id: Seq<char>| #[trigger]
                        targets@.contains_key(id) <==> exists|j: int|
                            0 <= j < i && resolved(
                                *lock,
                                lock.root@,
                                lock.inputs(lock.root@)[#[trigger] names[j]]@,
                            ) == Resolution::Node(id) by {
                        if before.contains_key(id) {
                            let j = choose|j: int|
                                0 <= j < i - 1 && resolved(
                                    *lock,
                                    lock.root@,
                                    lock.inputs(lock.root@)[#[trigger] names[j]]@,
                                ) == Resolution::Node(id);
                            assert(0 <= j < i);
                        }
                        if here == Resolution::Node(id) {
                            assert(resolved(
                                *lock,
                                lock.root@,
                                lock.inputs(lock.root@)[names[i - 1]]@,
                            ) == Resolution::Node(id));
                        }
                    }
                }
            }
            proof {
                assert forall|id: Seq<char>| #[trigger]
                    targets@.contains_key(id) <==> direct_target(*lock, id) by {
                    if targets@.contains_key(id) {
                        let j = choose|j: int|
                            0 <= j < names.len() && resolved(
                                *lock,
                                lock.root@,
                                lock.inputs(lock.root@)[#[trigger] names[j]]@,
                            ) == Resolution::Node(id);
                        assert(names.contains(names[j]));
                        assert(lock.inputs(lock.root@).contains_key(names[j]));
                    }
                    if direct_target(*lock, id) {
                        let name = choose|name: Seq<char>| #[trigger]
                            lock.inputs(lock.root@).contains_key(name) && resolved(
                                *lock,
                                lock.root@,
                                lock.inputs(lock.root@)[name]@,
                            ) == Resolution::Node(id);
                        assert(names.contains(name));
                        let j = choose|j: int| 0 <= j < names.len() && names[j] == name;
                        assert(resolved(
                            *lock,
                            lock.root@,
                            lock.inputs(lock.root@)[names[j]]@,
                        ) == Resolution::Node(id));
                    }
                }
            }
        },
        None => {
            assert(false);
        },
    }
    targets
}

fn owner_of(source: &Option<LockedSource>) -> (r: Option<String>)
    ensures
        text_of(r) == match *source {
            Some(source) => text_of(source.owner),
            None => None,
        },
{
    match source {
        Some(source) => copy_option(&source.owner),
        None => None,
    }
}

fn repo_of(source: &Option<LockedSource>) -> (r: Option<String>)
    ensures
        text_of(r) == match *source {
            Some(source) => text_of(source.repo),
            None => None,
        },
{
    match source {
        Some(source) => copy_option(&source.repo),
        None => None,
    }
}

/// The nodes that still use shorthand though no direct input of the root leads to them.
pub fn collect_transitive_shorthand(lock_path: &str, lock: &FlakeLock) -> (r: Result<
    Vec<TransitiveShorthandNode>,
    MigrationError,
>)
    requires
        graph_settles(*lock),
    ensures
        match r {
            Ok(notes) => graph_matter(*lock) is Sound && notes_on(
                *lock,
                transitive_nodes(*lock, lock.nodes.keys().len() as int),
                notes@,
            ),
            Err(error) => graph_matter(*lock) is Flaw && invalid_graph(
                error,
                lock_path@,
                graph_matter(*lock)->Flaw_0,
            ),
        },
{
    match validate_lock_graph(lock_path, lock) {
        Ok(_) => {},
        Err(error) => {
            return Err(error);
        },
    }
    let targets = direct_targets(lock);
    let mut notes: Vec<TransitiveShorthandNode> = Vec::new();
    let mut i: usize = 0;
    while i < lock.nodes.len()
        invariant
            i <= lock.nodes.keys().len(),
            forall|id: Seq<char>| #[trigger]
                targets@.contains_key(id) <==> direct_target(*lock, id),
            notes_on(*lock, transitive_nodes(*lock, i as int), notes@),
        decreases lock.nodes.keys().len() - i,
    {
        let id = lock.nodes.key(i);
        let node = lock.nodes.value(i);
        if !same(id, &lock.root) && !targets.has(id) {
            match shorthand_type_from_node(node) {
                Some(kind) => {
                    let ghost before = notes@;
                    let ghost ids = transitive_nodes(*lock, i as int);
                    let note = TransitiveShorthandNode {
                        node_id: id.clone(),
                        shorthand_type: kind.to_owned(),
                        owner: owner_of(&node.original),
                        repo: repo_of(&node.original),
                    };
                    notes.push(note);
                    proof {
                        assert(shorthand_note(*lock, id@, note));
                        assert forall|k: int| 0 <= k < ids.push(id@).len() implies
                            #[trigger] shorthand_note(*lock, ids.push(id@)[k], notes@[k]) by {
                            if k < ids.len() {
                                assert(shorthand_note(*lock, ids[k], before[k]));
                            }
                        }
                    }
                },
                None => {},
            }
        }
        i += 1;
    }
    Ok(notes)
}

// ---------------------------------------------------------------------------
// Coverage

/// Whether a flake assigns the input `name` a literal.
pub open spec fn assigns(found: Seq<Assigned>, name: Seq<char>) -> bool {
    exists|i: int| 0 <= i < found.len() && (#[trigger] found[i]).name == name
}

fn names_input(assignments: &Vec<DirectInputAssignment>, name: &str) -> (r: bool)
    ensures
        r == assigns(all_assigned(assignments@), name@),
{
    let ghost found = all_assigned(assignments@);
    let mut i: usize = 0;
    while i < assignments.len()
        invariant
            i <= assignments@.len(),
            found == all_assigned(assignments@),
            forall|j: int| 0 <= j < i ==> (#[trigger] found[j]).name != name@,
        decreases assignments@.len() - i,
    {
        if same(&assignments[i].input_name, name) {
            assert(found[i as int].name == name@);
            return true;
        }
        i += 1;
    }
    false
}

/// Whether an input of the root leads straight to a node that uses shorthand, and the flake does
/// not assign it a literal.
pub open spec fn is_uncovered(
    lock: FlakeLock,
    found: Seq<Assigned>,
    name: Seq<char>,
) -> bool {
    match lock.inputs(lock.root@)[name]@ {
        Reference::Node(id) => shorthand_of(lock.nodes@[id]) is Some && !assigns(found, name),
        _ => false,
    }
}

/// The first of the first `n` inputs of the root that is not covered.
pub open spec fn first_uncovered(
    lock: FlakeLock,
    found: Seq<Assigned>,
    n: int,
) -> Option<Seq<char>>
    decreases n,
{
    if n <= 0 {
        None
    } else {
        let name = lock.input_names(lock.root@)[n - 1];
        match first_uncovered(lock, found, n - 1) {
            Some(first) => Some(first),
            None => if is_uncovered(lock, found, name) {
                Some(name)
            } else {
                None
            },
        }
    }
}

proof fn lemma_uncovered_stays(
    lock: FlakeLock,
    found: Seq<Assigned>,
    n: int,
    m: int,
)
    requires
        0 <= n <= m,
        first_uncovered(lock, found, n) is Some,
    ensures
        first_uncovered(lock, found, m) == first_uncovered(lock, found, n),
    decreases m - n,
{
    if n < m {
        lemma_uncovered_stays(lock, found, n, m - 1);
    }
}

/// Whether the flake assigns a literal to each direct input that uses shorthand.
pub fn ensure_supported_direct_coverage(
    lock_path: &str,
    lock: &FlakeLock,
    assignments: &Vec<DirectInputAssignment>,
) -> (r: Result<(), MigrationError>)
    requires
        graph_settles(*lock),
    ensures
        ({
            let uncovered = first_uncovered(
                *lock,
                all_assigned(assignments@),
                lock.input_names(lock.root@).len() as int,
            );
            match r {
                Ok(_) => graph_matter(*lock) is Sound && uncovered is None,
                Err(error) => if graph_matter(*lock) is Flaw {
                    invalid_graph(error, lock_path@, graph_matter(*lock)->Flaw_0)
                } else {
                    uncovered is Some && unsupported(
                        error,
                        uncovered->0,
                        "direct shorthand input is outside the supported literal grammar; expected inputs.<name>.url = \"...\""@,
                    )
                },
            }
        }),
{
    match validate_lock_graph(lock_path, lock) {
        Ok(_) => {},
        Err(error) => {
            return Err(error);
        },
    }
    match lock.nodes.get(&lock.root) {
        None => {
            assert(false);
        },
        Some(root) => {
            let mut i: usize = 0;
            while i < root.inputs.len()
                invariant
                    i <= root.inputs.keys().len(),
                    *root == lock.nodes@[lock.root@],
                    graph_matter(*lock) is Sound,
                    first_uncovered(*lock, all_assigned(assignments@), i as int) is None,
                decreases root.inputs.keys().len() - i,
            {
                let name = root.inputs.key(i);
                match root.inputs.value(i) {
                    InputReference::Node(id) => {
                        let node = match lock.nodes.get(id) {
                            Some(node) => node,
                            None => {
                                proof {
                                    use_type_invariant(&lock.nodes);
                                    lemma_root_input_resolves(*lock, i as int);
                                }
                                return Err(
                                    invalid_lock(
                                        lock_path,
                                        concat4(
                                            "root input ",
                                            name,
                                            " points to missing node ",
                                            id,
                                        ),
                                    ),
                                );
                            },
                        };
                        if shorthand_type_from_node(node).is_some() && !names_input(
                            assignments,
                            name,
                        ) {
                            proof {
                                lemma_uncovered_stays(
                                    *lock,
                                    all_assigned(assignments@),
                                    i + 1,
                                    root.inputs.keys().len() as int,
                                );
                            }
                            return Err(
                                MigrationError::UnsupportedExpression {
                                    input_name: name.clone(),
                                    detail: "direct shorthand input is outside the supported literal grammar; expected inputs.<name>.url = \"...\"".to_owned(),
                                },
                            );
                        }
                    },
                    _ => {},
                }
                i += 1;
            }
        },
    }
    Ok(())
}

proof fn lemma_root_input_resolves(lock: FlakeLock, j: int)
    requires
        lock.nodes.ordered(),
        graph_matter(lock) is Sound,
        0 <= j < lock.input_names(lock.root@).len(),
    ensures
        resolved(
            lock,
            lock.root@,
            lock.inputs(lock.root@)[lock.input_names(lock.root@)[j]]@,
        ) is Node,
{
    let ids = lock.nodes.keys();
    law_names_in_order(lock.nodes);
    assert(lock.has(lock.root@));
    assert(ids.contains(lock.root@));
    let i = choose|i: int| 0 <= i < ids.len() && ids[i] == lock.root@;
    lemma_sound_nodes(lock, ids.len() as int, i);
    lemma_sound_inputs(lock, lock.root@, lock.input_names(lock.root@).len() as int, j);
}

// ---------------------------------------------------------------------------
// What a relock changes

/// What a source says.
pub struct SourceContent {
    pub text: Seq<char>,
    pub kind: Option<Seq<char>>,
    pub owner: Option<Seq<char>>,
    pub repo: Option<Seq<char>>,
}

/// What a node holds.
pub struct NodeContent {
    pub inputs: Map<Seq<char>, Reference>,
    pub locked: Option<SourceContent>,
    pub original: Option<SourceContent>,
    pub parent: Option<Seq<Seq<char>>>,
}

pub open spec fn source_content(source: Option<LockedSource>) -> Option<SourceContent> {
    match source {
        Some(source) => Some(
            SourceContent {
                text: source.text@,
                kind: text_of(source.kind),
                owner: text_of(source.owner),
                repo: text_of(source.repo),
            },
        ),
        None => None,
    }
}

pub open spec fn references(inputs: Map<Seq<char>, InputReference>) -> Map<Seq<char>, Reference> {
    inputs.map_values(|reference: InputReference| reference@)
}

pub open spec fn node_content(node: FlakeLockNode) -> NodeContent {
    NodeContent {
        inputs: references(node.inputs@),
        locked: source_content(node.locked),
        original: source_content(node.original),
        parent: match node.parent {
            Some(parent) => Some(texts(parent@)),
            None => None,
        },
    }
}

/// What a lock file holds of a node, where it has it.
pub open spec fn content_of(lock: FlakeLock, id: Seq<char>) -> Option<NodeContent> {
    if lock.has(id) {
        Some(node_content(lock.nodes@[id]))
    } else {
        None
    }
}

fn same_texts(a: &Vec<String>, b: &Vec<String>) -> (r: bool)
    ensures
        r == (texts(a@) == texts(b@)),
{
    if a.len() != b.len() {
        assert(texts(a@).len() != texts(b@).len());
        return false;
    }
    let mut i: usize = 0;
    while i < a.len()
        invariant
            i <= a@.len(),
            a@.len() == b@.len(),
            forall|j: int| 0 <= j < i ==> #[trigger] a@[j]@ == b@[j]@,
        decreases a@.len() - i,
    {
        if !same(&a[i], &b[i]) {
            assert(texts(a@)[i as int] != texts(b@)[i as int]);
            return false;
        }
        i += 1;
    }
    assert(texts(a@) =~= texts(b@));
    true
}

fn same_reference(a: &InputReference, b: &InputReference) -> (r: bool)
    ensures
        r == (a@ == b@),
{
    match (a, b) {
        (InputReference::Node(a), InputReference::Node(b)) => same(a, b),
        (InputReference::Follows(a), InputReference::Follows(b)) => same_texts(a, b),
        (InputReference::MixedPath(a), InputReference::MixedPath(b)) => same(a, b),
        (InputReference::Other(a), InputReference::Other(b)) => same(a, b),
        _ => false,
    }
}

fn same_member(a: &Option<String>, b: &Option<String>) -> (r: bool)
    ensures
        r == (text_of(*a) == text_of(*b)),
{
    match (a, b) {
        (Some(a), Some(b)) => same(a, b),
        (None, None) => true,
        _ => false,
    }
}

fn same_source(a: &Option<LockedSource>, b: &Option<LockedSource>) -> (r: bool)
    ensures
        r == (source_content(*a) == source_content(*b)),
{
    match (a, b) {
        (Some(a), Some(b)) => same(&a.text, &b.text) && same_member(&a.kind, &b.kind)
            && same_member(&a.owner, &b.owner) && same_member(&a.repo, &b.repo),
        (None, None) => true,
        _ => false,
    }
}

/// Whether each input of `a` is one of `b`, and the same.
fn inputs_within(a: &TextMap<InputReference>, b: &TextMap<InputReference>) -> (r: bool)
    ensures
        r == forall|name: Seq<char>| #[trigger]
            a@.contains_key(name) ==> b@.contains_key(name) && a@[name]@ == b@[name]@,
{
    proof {
        use_type_invariant(a);
        law_names_in_order(*a);
    }
    let mut i: usize = 0;
    while i < a.len()
        invariant
            i <= a.keys().len(),
            forall|name: Seq<char>| #[trigger]
                a.keys().contains(name) <==> a@.contains_key(name),
            forall|j: int|
                0 <= j < i ==> b@.contains_key(#[trigger] a.keys()[j]) && a@[a.keys()[j]]@
                    == b@[a.keys()[j]]@,
        decreases a.keys().len() - i,
    {
        let ghost name = a.keys()[i as int];
        assert(a.keys().contains(name));
        match b.get(a.key(i)) {
            Some(other) => {
                if !same_reference(a.value(i), other) {
                    assert(a@.contains_key(name));
                    return false;
                }
            },
            None => {
                assert(a@.contains_key(name));
                return false;
            },
        }
        i += 1;
    }
    proof {
        assert forall|name: Seq<char>| #[trigger] a@.contains_key(name) implies b@.contains_key(
            name,
        ) && a@[name]@ == b@[name]@ by {
            assert(a.keys().contains(name));
            let j = choose|j: int| 0 <= j < a.keys().len() && a.keys()[j] == name;
            assert(b@.contains_key(a.keys()[j]));
        }
    }
    true
}

fn same_inputs(a: &TextMap<InputReference>, b: &TextMap<InputReference>) -> (r: bool)
    ensures
        r == (references(a@) == references(b@)),
{
    let forward = inputs_within(a, b);
    let backward = inputs_within(b, a);
    proof {
        let x = references(a@);
        let y = references(b@);
        if forward && backward {
            assert forall|name: Seq<char>| #[trigger] x.contains_key(name) <==> y.contains_key(
                name,
            ) by {
                assert(x.contains_key(name) == a@.contains_key(name));
                assert(y.contains_key(name) == b@.contains_key(name));
            }
            assert(x =~= y);
        }
        if x == y {
            assert forall|name: Seq<char>| #[trigger] a@.contains_key(name) implies b@.contains_key(
                name,
            ) && a@[name]@ == b@[name]@ by {
                assert(x.contains_key(name));
                assert(y.contains_key(name));
                assert(x[name] == y[name]);
            }
            assert forall|name: Seq<char>| #[trigger] b@.contains_key(name) implies a@.contains_key(
                name,
            ) && b@[name]@ == a@[name]@ by {
                assert(y.contains_key(name));
                assert(x.contains_key(name));
                assert(x[name] == y[name]);
            }
        }
    }
    forward && backward
}

fn same_parent(a: &Option<Vec<String>>, b: &Option<Vec<String>>) -> (r: bool)
    ensures
        r == match (*a, *b) {
            (Some(a), Some(b)) => texts(a@) == texts(b@),
            (None, None) => true,
            _ => false,
        },
{
    match (a, b) {
        (Some(a), Some(b)) => same_texts(a, b),
        (None, None) => true,
        _ => false,
    }
}

fn same_content(a: Option<&FlakeLockNode>, b: Option<&FlakeLockNode>) -> (r: bool)
    ensures
        r == match (a, b) {
            (Some(a), Some(b)) => node_content(*a) == node_content(*b),
            (None, None) => true,
            _ => false,
        },
{
    match (a, b) {
        (Some(a), Some(b)) => same_inputs(&a.inputs, &b.inputs) && same_source(
            &a.locked,
            &b.locked,
        ) && same_source(&a.original, &b.original) && same_parent(&a.parent, &b.parent),
        (None, None) => true,
        _ => false,
    }
}

/// Whether a node is not the same in two lock files. Where their roots are not, the name `root` is
/// taken to be changed.
pub open spec fn is_changed(before: FlakeLock, after: FlakeLock, id: Seq<char>) -> bool {
    content_of(before, id) != content_of(after, id) || (before.root@ != after.root@ && id
        == "root"@)
}

fn add_changed(
    changed: TextMap<()>,
    names: &TextMap<FlakeLockNode>,
    before: &FlakeLock,
    after: &FlakeLock,
) -> (r: TextMap<()>)
    ensures
        forall|id: Seq<char>| #[trigger]
            r@.contains_key(id) <==> changed@.contains_key(id) || (names@.contains_key(id)
                && content_of(*before, id) != content_of(*after, id)),
        r.ordered(),
{
    proof {
        use_type_invariant(names);
        use_type_invariant(&changed);
        law_names_in_order(*names);
    }
    let ghost already = changed@;
    let mut changed = changed;
    let mut i: usize = 0;
    while i < names.len()
        invariant
            i <= names.keys().len(),
            changed.ordered(),
            forall|id: Seq<char>| #[trigger]
                names.keys().contains(id) <==> names@.contains_key(id),
            forall|id: Seq<char>| #[trigger]
                changed@.contains_key(id) <==> already.contains_key(id) || (content_of(
                    *before,
                    id,
                ) != content_of(*after, id) && names.keys().take(i as int).contains(id)),
        decreases names.keys().len() - i,
    {
        let id = names.key(i);
        let ghost seen = names.keys().take(i as int);
        let ghost earlier = changed@;
        if !same_content(before.nodes.get(id), after.nodes.get(id)) {
            changed = changed.with(id.clone(), ());
        }
        i += 1;
        proof {
            let now = names.keys().take(i as int);
            assert(now =~= seen.push(id@));
            assert forall|k: Seq<char>| #[trigger] now.contains(k) <==> seen.contains(k) || k
                == id@ by {
                if seen.contains(k) {
                    let j = choose|j: int| 0 <= j < seen.len() && seen[j] == k;
                    assert(now[j] == k);
                }
                if k == id@ {
                    assert(now[i - 1] == k);
                }
                if now.contains(k) && k != id@ {
                    let j = choose|j: int| 0 <= j < now.len() && now[j] == k;
                    assert(seen[j] == k);
                }
            }
        }
    }
    assert(names.keys().take(i as int) =~= names.keys());
    changed
}

/// The nodes that are not the same in two lock files.
pub fn changed_lock_nodes(before: &FlakeLock, after: &FlakeLock) -> (r: TextMap<()>)
    ensures
        forall|id: Seq<char>| #[trigger]
            r@.contains_key(id) <==> is_changed(*before, *after, id),
        r.ordered(),
{
    let changed = add_changed(TextMap::new(), &before.nodes, before, after);
    let changed = add_changed(changed, &after.nodes, before, after);
    if !same(&before.root, &after.root) {
        changed.with("root".to_owned(), ())
    } else {
        changed
    }
}

// ---------------------------------------------------------------------------
// What a relock may change

/// Whether an input of the node `a` leads straight to `b`.
pub open spec fn edge(lock: FlakeLock, a: Seq<char>, b: Seq<char>) -> bool {
    lock.has(a) && exists|name: Seq<char>| #[trigger]
        lock.inputs(a).contains_key(name) && lock.inputs(a)[name]@ == Reference::Node(b)
}

/// Whether each node of `path` has an input that leads straight to the next one.
pub open spec fn is_path(lock: FlakeLock, path: Seq<Seq<char>>) -> bool {
    &&& path.len() > 0
    &&& forall|i: int| 0 <= i < path.len() - 1 ==> #[trigger] edge(lock, path[i], path[i + 1])
}

/// Whether a path of inputs leads from `a` to `b`.
pub open spec fn reaches(lock: FlakeLock, a: Seq<char>, b: Seq<char>) -> bool {
    exists|path: Seq<Seq<char>>| #[trigger] is_path(lock, path) && path[0] == a && path.last() == b
}

/// The node that an input of the root leads straight to.
pub open spec fn direct_node(lock: FlakeLock, input_name: Seq<char>) -> Option<Seq<char>> {
    match lock.inputs(lock.root@)[input_name]@ {
        Reference::Node(id) => Some(id),
        _ => None,
    }
}

proof fn lemma_reaches_step(lock: FlakeLock, a: Seq<char>, b: Seq<char>, c: Seq<char>)
    requires
        reaches(lock, a, b),
        edge(lock, b, c),
    ensures
        reaches(lock, a, c),
{
    let path = choose|path: Seq<Seq<char>>| #[trigger]
        is_path(lock, path) && path[0] == a && path.last() == b;
    let longer = path.push(c);
    assert forall|i: int| 0 <= i < longer.len() - 1 implies #[trigger] edge(
        lock,
        longer[i],
        longer[i + 1],
    ) by {
        if i < path.len() - 1 {
            assert(edge(lock, path[i], path[i + 1]));
        }
    }
    assert(is_path(lock, longer));
}

/// What is closed under the inputs of its nodes holds what can be reached from any of them.
proof fn lemma_closed_holds(
    lock: FlakeLock,
    set: Set<Seq<char>>,
    path: Seq<Seq<char>>,
    n: int,
)
    requires
        is_path(lock, path),
        0 <= n < path.len(),
        set.contains(path[0]),
        forall|x: Seq<char>, y: Seq<char>|
            set.contains(x) && #[trigger] edge(lock, x, y) ==> set.contains(y),
    ensures
        set.contains(path[n]),
    decreases n,
{
    if n > 0 {
        lemma_closed_holds(lock, set, path, n - 1);
        assert(edge(lock, path[n - 1], path[n - 1 + 1]));
    }
}

spec fn target_of(lock: FlakeLock, e: (Seq<char>, Seq<char>)) -> Seq<char> {
    match input_of(lock, e) {
        Reference::Node(id) => id,
        _ => Seq::empty(),
    }
}

/// The names that inputs lead straight to, and one more.
spec fn names_within(lock: FlakeLock, start: Seq<char>) -> Set<Seq<char>> {
    entries(lock, lock.nodes.keys().len() as int).map_values(
        |e: (Seq<char>, Seq<char>)| target_of(lock, e),
    ).to_set().insert(start)
}

proof fn lemma_names_within_finite(lock: FlakeLock, start: Seq<char>)
    ensures
        names_within(lock, start).finite(),
{
    vstd::seq_lib::seq_to_set_is_finite(
        entries(lock, lock.nodes.keys().len() as int).map_values(
            |e: (Seq<char>, Seq<char>)| target_of(lock, e),
        ),
    );
}

proof fn lemma_target_within(lock: FlakeLock, start: Seq<char>, id: Seq<char>, j: int)
    requires
        lock.nodes.ordered(),
        lock.has(id),
        0 <= j < lock.input_names(id).len(),
        lock.inputs(id)[lock.input_names(id)[j]]@ is Node,
    ensures
        names_within(lock, start).contains(
            lock.inputs(id)[lock.input_names(id)[j]]@->Node_0,
        ),
{
    let ids = lock.nodes.keys();
    law_names_in_order(lock.nodes);
    assert(ids.contains(id));
    let i = choose|i: int| 0 <= i < ids.len() && ids[i] == id;
    lemma_entries_hold(lock, ids.len() as int, i, j);
    let all = entries(lock, ids.len() as int);
    let e = (id, lock.input_names(id)[j]);
    let k = choose|k: int| 0 <= k < all.len() && all[k] == e;
    let targets = all.map_values(|e: (Seq<char>, Seq<char>)| target_of(lock, e));
    assert(targets[k] == lock.inputs(id)[e.1]@->Node_0);
    assert(targets.to_set().contains(targets[k]));
}

/// Whether every name that is listed was either looked at, with all that it leads to listed, or
/// waits on the stack.
spec fn pending(lock: FlakeLock, allowed: Set<Seq<char>>, stack: Seq<Seq<char>>) -> bool {
    forall|x: Seq<char>, y: Seq<char>|
        allowed.contains(x) && !stack.contains(x) && #[trigger] edge(lock, x, y)
            ==> allowed.contains(y)
}

/// The names that can be reached from a node.
fn reached_from(lock: &FlakeLock, target: &str) -> (r: TextMap<()>)
    ensures
        forall|id: Seq<char>| #[trigger] r@.contains_key(id) <==> reaches(*lock, target@, id),
        r.ordered(),
{
    let first = target.to_owned();
    let mut stack: Vec<String> = vec![target.to_owned()];
    let empty: TextMap<()> = TextMap::new();
    let mut allowed: TextMap<()> = empty.with(first, ());
    let ghost universe = names_within(*lock, target@);
    proof {
        lemma_names_within_finite(*lock, target@);
        let path = seq![target@];
        assert(is_path(*lock, path));
        assert(path.last() == target@);
        assert(texts(stack@) =~= seq![target@]);
        assert(seq![target@].contains(target@)) by {
            assert(seq![target@][0] == target@);
        }
        assert(allowed@.dom() =~= set![target@]);
    }
    while stack.len() > 0
        invariant
            universe == names_within(*lock, target@),
            universe.finite(),
            allowed.ordered(),
            allowed@.dom().subset_of(universe),
            allowed@.dom().finite(),
            allowed@.contains_key(target@),
            forall|id: Seq<char>| #[trigger]
                allowed@.contains_key(id) ==> reaches(*lock, target@, id),
            forall|k: int| 0 <= k < stack@.len() ==> allowed@.contains_key(#[trigger] stack@[k]@),
            pending(*lock, allowed@.dom(), texts(stack@)),
        decreases universe.len() - allowed@.dom().len(), stack@.len(),
    {
        proof {
            vstd::set_lib::lemma_len_subset(allowed@.dom(), universe);
        }
        let ghost waiting = texts(stack@);
        let ghost before = allowed@.dom();
        let ghost height = stack@.len();
        let id = match stack.pop() {
            Some(id) => id,
            None => {
                return allowed;
            },
        };
        proof {
            assert(texts(stack@) =~= waiting.drop_last());
            assert(waiting.last() == id@);
            assert(reaches(*lock, target@, id@));
            assert forall|x: Seq<char>, y: Seq<char>|
                allowed@.dom().contains(x) && x != id@ && !texts(stack@).contains(x)
                    && #[trigger] edge(*lock, x, y) implies allowed@.dom().contains(y) by {
                if waiting.contains(x) {
                    let k = choose|k: int| 0 <= k < waiting.len() && waiting[k] == x;
                    assert(texts(stack@)[k] == x);
                }
            }
        }
        match lock.nodes.get(&id) {
            Some(node) => {
                proof {
                    use_type_invariant(&lock.nodes);
                    use_type_invariant(&node.inputs);
                    law_names_in_order(node.inputs);
                }
                let ghost names = node.inputs.keys();
                let mut i: usize = 0;
                while i < node.inputs.len()
                    invariant
                        i <= names.len(),
                        names == node.inputs.keys(),
                        *node == lock.nodes@[id@],
                        lock.has(id@),
                        lock.nodes.ordered(),
                        forall|name: Seq<char>| #[trigger]
                            names.contains(name) <==> node.inputs@.contains_key(name),
                        universe == names_within(*lock, target@),
                        universe.finite(),
                        allowed.ordered(),
                        allowed@.dom().subset_of(universe),
                        allowed@.dom().finite(),
                        allowed@.contains_key(target@),
                        before.subset_of(allowed@.dom()),
                        allowed@.dom().len() - before.len() == stack@.len() - (height - 1),
                        reaches(*lock, target@, id@),
                        forall|x: Seq<char>| #[trigger]
                            allowed@.contains_key(x) ==> reaches(*lock, target@, x),
                        forall|k: int|
                            0 <= k < stack@.len() ==> allowed@.contains_key(#[trigger] stack@[k]@),
                        forall|x: Seq<char>, y: Seq<char>|
                            allowed@.dom().contains(x) && x != id@ && !texts(stack@).contains(x)
                                && #[trigger] edge(*lock, x, y) ==> allowed@.dom().contains(y),
                        forall|j: int|
                            0 <= j < i ==> (node.inputs@[#[trigger] names[j]]@ matches Reference::Node(
                                y,
                            ) ==> allowed@.contains_key(y)),
                    decreases names.len() - i,
                {
                    match node.inputs.value(i) {
                        InputReference::Node(next) => {
                            proof {
                                assert(names.contains(names[i as int]));
                                assert(edge(*lock, id@, next@));
                                lemma_reaches_step(*lock, target@, id@, next@);
                                lemma_target_within(*lock, target@, id@, i as int);
                            }
                            if !allowed.has(next) {
                                let ghost earlier = allowed@;
                                let ghost older = texts(stack@);
                                allowed = allowed.with(next.clone(), ());
                                proof {
                                    assert(allowed@.dom() =~= earlier.dom().insert(next@));
                                    crate::text::lemma_texts_push(stack@, *next);
                                }
                                stack.push(next.clone());
                                proof {
                                    let newer = texts(stack@);
                                    assert(newer =~= older.push(next@));
                                    assert forall|x: Seq<char>, y: Seq<char>|
                                        allowed@.dom().contains(x) && x != id@ && !newer.contains(x)
                                            && #[trigger] edge(
                                            *lock,
                                            x,
                                            y,
                                        ) implies allowed@.dom().contains(y) by {
                                        if older.contains(x) {
                                            let k = choose|k: int|
                                                0 <= k < older.len() && older[k] == x;
                                            assert(newer[k] == x);
                                        }
                                        if x == next@ {
                                            assert(newer[older.len() as int] == x);
                                        }
                                    }
                                }
                            }
                        },
                        _ => {},
                    }
                    i += 1;
                }
                proof {
                    assert forall|y: Seq<char>| #[trigger] edge(*lock, id@, y) implies allowed@.dom().contains(
                    y) by {
                        let name = choose|name: Seq<char>| #[trigger]
                            lock.inputs(id@).contains_key(name) && lock.inputs(id@)[name]@
                                == Reference::Node(y);
                        assert(names.contains(name));
                        let j = choose|j: int| 0 <= j < names.len() && names[j] == name;
                        assert(node.inputs@[names[j]]@ == Reference::Node(y));
                    }
                }
            },
            None => {},
        }
        proof {
            vstd::set_lib::lemma_len_subset(allowed@.dom(), universe);
            vstd::set_lib::lemma_len_subset(before, allowed@.dom());
        }
    }
    proof {
        assert(texts(stack@) =~= Seq::empty());
        assert forall|id: Seq<char>| #[trigger] allowed@.contains_key(id) <==> reaches(
            *lock,
            target@,
            id,
        ) by {
            if reaches(*lock, target@, id) {
                let path = choose|path: Seq<Seq<char>>| #[trigger]
                    is_path(*lock, path) && path[0] == target@ && path.last() == id;
                lemma_closed_holds(*lock, allowed@.dom(), path, path.len() - 1);
            }
        }
    }
    allowed
}

/// The nodes that relocking an input of the root may change: the one that it leads to, and those
/// that can be reached from there.
pub fn allowed_changed_nodes(lock_path: &str, lock: &FlakeLock, input_name: &str) -> (r: Result<
    TextMap<()>,
    MigrationError,
>)
    ensures
        match r {
            Ok(allowed) => {
                &&& lock.has(lock.root@)
                &&& lock.inputs(lock.root@).contains_key(input_name@)
                &&& direct_node(*lock, input_name@) is Some
                &&& allowed.ordered()
                &&& forall|id: Seq<char>| #[trigger]
                    allowed@.contains_key(id) <==> reaches(
                        *lock,
                        direct_node(*lock, input_name@)->0,
                        id,
                    )
            },
            Err(error) => if !lock.has(lock.root@) {
                invalid_graph(error, lock_path@, "root node "@ + lock.root@ + " is missing"@)
            } else if !lock.inputs(lock.root@).contains_key(input_name@) {
                invalid_graph(error, lock_path@, absent_input(input_name@))
            } else {
                direct_node(*lock, input_name@) is None && invalid_graph(
                    error,
                    lock_path@,
                    indirect_input(input_name@),
                )
            },
        },
{
    match ensure_root_input_exists(lock_path, lock, input_name) {
        Ok(_) => {},
        Err(error) => {
            return Err(error);
        },
    }
    let target = match lock.nodes.get(&lock.root) {
        Some(root) => match root.inputs.get(input_name) {
            Some(InputReference::Node(id)) => Some(id),
            _ => None,
        },
        None => None,
    };
    match target {
        Some(id) => Ok(reached_from(lock, id)),
        None => Err(
            invalid_lock(
                lock_path,
                concat3(
                    "selected direct input ",
                    input_name,
                    " does not point directly to a node",
                ),
            ),
        ),
    }
}

pub open spec fn indirect_input(input_name: Seq<char>) -> Seq<char> {
    "selected direct input "@ + input_name + " does not point directly to a node"@
}

/// The names of `names` that are not in `allowed`.
pub open spec fn outside(names: Seq<Seq<char>>, allowed: Map<Seq<char>, ()>) -> Seq<Seq<char>> {
    names.filter(|name: Seq<char>| !allowed.contains_key(name))
}

fn names_outside(changed: &TextMap<()>, allowed: &TextMap<()>) -> (r: Vec<String>)
    ensures
        texts(r@) == outside(changed.keys(), allowed@),
{
    let ghost names = changed.keys();
    let ghost keep = |name: Seq<char>| !allowed@.contains_key(name);
    let mut out: Vec<String> = Vec::new();
    let mut i: usize = 0;
    assert(texts(out@) =~= names.take(0).filter(keep)) by {
        reveal(Seq::filter);
    }
    while i < changed.len()
        invariant
            i <= names.len(),
            names == changed.keys(),
            keep == (|name: Seq<char>| !allowed@.contains_key(name)),
            texts(out@) == names.take(i as int).filter(keep),
        decreases names.len() - i,
    {
        let name = changed.key(i);
        proof {
            reveal(Seq::filter);
            assert(names.take(i + 1).drop_last() =~= names.take(i as int));
            assert(names.take(i + 1).last() == name@);
            crate::text::lemma_texts_push(out@, *name);
        }
        if !allowed.has(name) {
            out.push(name.clone());
        }
        i += 1;
    }
    assert(names.take(i as int) =~= names);
    out
}

fn all_names(map: &TextMap<()>) -> (r: Vec<String>)
    ensures
        texts(r@) == map.keys(),
{
    let mut out: Vec<String> = Vec::new();
    let mut i: usize = 0;
    while i < map.len()
        invariant
            i <= map.keys().len(),
            texts(out@) =~= map.keys().take(i as int),
        decreases map.keys().len() - i,
    {
        let name = map.key(i);
        proof {
            crate::text::lemma_texts_push(out@, *name);
        }
        out.push(name.clone());
        i += 1;
    }
    assert(map.keys().take(i as int) =~= map.keys());
    out
}

/// Whether `names` lists the names that satisfy `p` in their order, each once.
pub open spec fn lists(names: Seq<Seq<char>>, p: spec_fn(Seq<char>) -> bool) -> bool {
    &&& forall|i: int, j: int|
        0 <= i < j < names.len() ==> text_le(#[trigger] names[i], #[trigger] names[j]) && names[i]
            != names[j]
    &&& forall|name: Seq<char>| #[trigger] names.contains(name) <==> p(name)
}

/// The nodes that changed though relocking an input may not change them.
pub open spec fn violations(before: FlakeLock, after: FlakeLock, target: Seq<char>) -> spec_fn(
    Seq<char>,
) -> bool {
    |id: Seq<char>| is_changed(before, after, id) && !reaches(before, target, id)
}

/// The nodes that can be reached from a node.
pub open spec fn reach(lock: FlakeLock, target: Seq<char>) -> spec_fn(Seq<char>) -> bool {
    |id: Seq<char>| reaches(lock, target, id)
}

/// How it is said that a relock changed the nodes `bad` while it might change the nodes `allowed`.
pub open spec fn scope_text(bad: Seq<Seq<char>>, allowed: Seq<Seq<char>>) -> Seq<char> {
    "changed nodes ["@ + joined(bad, ", "@) + "], allowed nodes ["@ + joined(allowed, ", "@) + "]"@
}

/// Whether `error` says that relocking an input changed nodes that it may not change.
pub open spec fn scope_violated(
    error: MigrationError,
    before: FlakeLock,
    after: FlakeLock,
    input_name: Seq<char>,
) -> bool {
    let target = direct_node(before, input_name)->0;
    &&& error is RelockScopeViolation
    &&& error->RelockScopeViolation_input_name@ == input_name
    &&& exists|bad: Seq<Seq<char>>, allowed: Seq<Seq<char>>|
        {
            &&& bad.len() > 0
            &&& #[trigger] lists(bad, violations(before, after, target))
            &&& #[trigger] lists(allowed, reach(before, target))
            &&& error->RelockScopeViolation_detail@ == scope_text(bad, allowed)
        }
}

/// Whether relocking an input from `before` to `after` stayed inside its scope.
pub open spec fn in_scope(before: FlakeLock, after: FlakeLock, input_name: Seq<char>) -> bool {
    forall|id: Seq<char>| #[trigger]
        is_changed(before, after, id) ==> reaches(before, direct_node(before, input_name)->0, id)
}

proof fn lemma_filtered(names: Seq<Seq<char>>, keep: spec_fn(Seq<char>) -> bool)
    requires
        forall|i: int, j: int|
            0 <= i < j < names.len() ==> text_le(#[trigger] names[i], #[trigger] names[j])
                && names[i] != names[j],
    ensures
        forall|i: int, j: int|
            0 <= i < j < names.filter(keep).len() ==> text_le(
                #[trigger] names.filter(keep)[i],
                #[trigger] names.filter(keep)[j],
            ) && names.filter(keep)[i] != names.filter(keep)[j],
        forall|name: Seq<char>| #[trigger]
            names.filter(keep).contains(name) <==> names.contains(name) && keep(name),
    decreases names.len(),
{
    reveal(Seq::filter);
    let kept = names.filter(keep);
    if names.len() == 0 {
        assert forall|name: Seq<char>| #[trigger] kept.contains(name) <==> names.contains(name)
            && keep(name) by {}
    } else {
        let front = names.drop_last();
        let last = names.last();
        let before = front.filter(keep);
        assert forall|i: int, j: int| 0 <= i < j < front.len() implies text_le(
            #[trigger] front[i],
            #[trigger] front[j],
        ) && front[i] != front[j] by {
            assert(front[i] == names[i] && front[j] == names[j]);
        }
        lemma_filtered(front, keep);
        assert forall|name: Seq<char>| #[trigger] names.contains(name) <==> front.contains(name)
            || name == last by {
            if names.contains(name) && name != last {
                let i = choose|i: int| 0 <= i < names.len() && names[i] == name;
                assert(front[i] == name);
            }
            if front.contains(name) {
                let i = choose|i: int| 0 <= i < front.len() && front[i] == name;
                assert(names[i] == name);
            }
            if name == last {
                assert(names[names.len() - 1] == name);
            }
        }
        if keep(last) {
            assert(kept == before.push(last));
            assert forall|i: int, j: int| 0 <= i < j < kept.len() implies text_le(
                #[trigger] kept[i],
                #[trigger] kept[j],
            ) && kept[i] != kept[j] by {
                if j == before.len() {
                    assert(before.contains(before[i]));
                    assert(front.contains(kept[i]));
                    let k = choose|k: int| 0 <= k < front.len() && front[k] == kept[i];
                    assert(names[k] == kept[i]);
                    assert(names[names.len() - 1] == last);
                } else {
                    assert(kept[i] == before[i] && kept[j] == before[j]);
                }
            }
            assert forall|name: Seq<char>| #[trigger] kept.contains(name) <==> names.contains(
                name,
            ) && keep(name) by {
                if kept.contains(name) && name != last {
                    let i = choose|i: int| 0 <= i < kept.len() && kept[i] == name;
                    assert(before[i] == name);
                    assert(before.contains(name));
                }
                if name == last {
                    assert(kept[before.len() as int] == last);
                }
                if names.contains(name) && keep(name) && name != last {
                    assert(before.contains(name));
                    let i = choose|i: int| 0 <= i < before.len() && before[i] == name;
                    assert(kept[i] == name);
                }
            }
        } else {
            assert(kept == before);
        }
    }
}

/// Whether relocking an input changed only what it may change.
pub fn validate_targeted_relock_result(
    lock_path: &str,
    input_name: &str,
    before: &FlakeLock,
    after: &FlakeLock,
) -> (r: Result<(), MigrationError>)
    requires
        graph_settles(*before),
        graph_matter(*before) is Sound ==> graph_settles(*after),
    ensures
        match r {
            Ok(_) => {
                &&& graph_matter(*before) is Sound
                &&& graph_matter(*after) is Sound
                &&& before.inputs(before.root@).contains_key(input_name@)
                &&& direct_node(*before, input_name@) is Some
                &&& in_scope(*before, *after, input_name@)
            },
            Err(error) => if graph_matter(*before) is Flaw {
                invalid_graph(error, lock_path@, graph_matter(*before)->Flaw_0)
            } else if graph_matter(*after) is Flaw {
                invalid_graph(error, lock_path@, graph_matter(*after)->Flaw_0)
            } else if !before.inputs(before.root@).contains_key(input_name@) {
                invalid_graph(error, lock_path@, absent_input(input_name@))
            } else if direct_node(*before, input_name@) is None {
                invalid_graph(error, lock_path@, indirect_input(input_name@))
            } else {
                &&& !in_scope(*before, *after, input_name@)
                &&& scope_violated(error, *before, *after, input_name@)
            },
        },
{
    match validate_lock_graph(lock_path, before) {
        Ok(_) => {},
        Err(error) => {
            return Err(error);
        },
    }
    match validate_lock_graph(lock_path, after) {
        Ok(_) => {},
        Err(error) => {
            return Err(error);
        },
    }
    let allowed = match allowed_changed_nodes(lock_path, before, input_name) {
        Ok(allowed) => allowed,
        Err(error) => {
            return Err(error);
        },
    };
    let changed = changed_lock_nodes(before, after);
    let bad = names_outside(&changed, &allowed);
    let ghost target = direct_node(*before, input_name@)->0;
    let ghost keep = |name: Seq<char>| !allowed@.contains_key(name);
    proof {
        law_names_in_order(changed);
        law_names_in_order(allowed);
        lemma_filtered(changed.keys(), keep);
        assert(lists(texts(bad@), violations(*before, *after, target)));
        assert(lists(allowed.keys(), reach(*before, target)));
    }
    if bad.len() > 0 {
        let allowed_names = all_names(&allowed);
        let head = concat5(
            "changed nodes [",
            &join(&bad, ", "),
            "], allowed nodes [",
            &join(&allowed_names, ", "),
            "]",
        );
        proof {
            let first = texts(bad@)[0];
            assert(texts(bad@).contains(first));
            assert(violations(*before, *after, target)(first));
            assert(is_changed(*before, *after, first));
        }
        return Err(
            MigrationError::RelockScopeViolation {
                input_name: input_name.to_owned(),
                detail: head,
            },
        );
    }
    proof {
        assert forall|id: Seq<char>| #[trigger] is_changed(*before, *after, id) implies reaches(
            *before,
            target,
            id,
        ) by {
            if !reaches(*before, target, id) {
                assert(violations(*before, *after, target)(id));
                assert(texts(bad@).contains(id));
            }
        }
    }
    Ok(())
}

/// A relock that stays inside its scope leaves every node as it was that cannot be reached from
/// the one that the input leads to, and the root of the lock file where no node of that name can.
pub proof fn law_relock_leaves_the_rest(
    before: FlakeLock,
    after: FlakeLock,
    input_name: Seq<char>,
    id: Seq<char>,
)
    requires
        in_scope(before, after, input_name),
        !reaches(before, direct_node(before, input_name)->0, id),
    ensures
        content_of(before, id) == content_of(after, id),
        id == "root"@ ==> before.root@ == after.root@,
{
    if content_of(before, id) != content_of(after, id) || (id == "root"@ && before.root@
        != after.root@) {
        assert(is_changed(before, after, id));
    }
}

// ---------------------------------------------------------------------------
// What references and nodes come to

proof fn lemma_inputs_sound(lock: FlakeLock, id: Seq<char>, n: int)
    requires
        0 <= n <= lock.input_names(id).len(),
    ensures
        inputs_matter(lock, id, n) is Sound <==> forall|j: int|
            0 <= j < n ==> resolved(
                lock,
                id,
                lock.inputs(id)[#[trigger] lock.input_names(id)[j]]@,
            ) is Node,
    decreases n,
{
    if n > 0 {
        lemma_inputs_sound(lock, id, n - 1);
        let name = lock.input_names(id)[n - 1];
        assert(resolved(lock, id, lock.inputs(id)[name]@) is Node || !(inputs_matter(lock, id, n)
            is Sound));
    }
}

/// Whether every input of a node leads to a node.
pub open spec fn inputs_resolve(lock: FlakeLock, id: Seq<char>) -> bool {
    forall|j: int|
        0 <= j < lock.input_names(id).len() ==> resolved(
            lock,
            id,
            lock.inputs(id)[#[trigger] lock.input_names(id)[j]]@,
        ) is Node
}

proof fn lemma_nodes_sound(lock: FlakeLock, n: int)
    requires
        0 <= n <= lock.nodes.keys().len(),
    ensures
        nodes_matter(lock, n) is Sound <==> forall|i: int|
            0 <= i < n ==> inputs_resolve(lock, #[trigger] lock.nodes.keys()[i]),
    decreases n,
{
    if n > 0 {
        lemma_nodes_sound(lock, n - 1);
        let id = lock.nodes.keys()[n - 1];
        lemma_inputs_sound(lock, id, lock.input_names(id).len() as int);
    }
}

/// A lock file is inside the contract exactly where it is of the supported version, has its root,
/// and every input of every node leads to a node.
pub proof fn law_sound_lock_files(lock: FlakeLock)
    ensures
        graph_matter(lock) is Sound <==> lock.version == 7 && lock.nodes@.contains_key(lock.root@)
            && forall|i: int|
            0 <= i < lock.nodes.keys().len() ==> inputs_resolve(
                lock,
                #[trigger] lock.nodes.keys()[i],
            ),
{
    lemma_nodes_sound(lock, lock.nodes.keys().len() as int);
}

/// An input that names a node leads to it, where it is there; one that follows a path leads from
/// the root along the inputs that the path names, one after the other.
pub proof fn law_references_lead_to_nodes(
    lock: FlakeLock,
    start: Seq<char>,
    path: Seq<Seq<char>>,
    ids: Seq<Seq<char>>,
)
    requires
        path.len() > 0,
        ids.len() == path.len() + 1,
        ids[0] == lock.root@,
        lock.has(lock.root@),
        forall|i: int|
            0 <= i < path.len() ==> {
                &&& lock.inputs(#[trigger] ids[i]).contains_key(path[i])
                &&& lock.inputs(ids[i])[path[i]]@ == Reference::Node(ids[i + 1])
                &&& lock.has(ids[i + 1])
            },
    ensures
        resolved(lock, start, Reference::Follows(path)) == Resolution::Node(ids.last()),
        forall|id: Seq<char>|
            #[trigger] resolved(lock, start, Reference::Node(id)) == Resolution::Node(id)
                <==> lock.nodes@.contains_key(id),
        resolved(lock, start, Reference::Follows(Seq::empty())) is Flaw,
{
    lemma_walk_along(lock, start, path, ids, 0, depth_limit(lock));
}

proof fn lemma_walk_along(
    lock: FlakeLock,
    start: Seq<char>,
    path: Seq<Seq<char>>,
    ids: Seq<Seq<char>>,
    i: int,
    fuel: nat,
)
    requires
        ids.len() == path.len() + 1,
        0 <= i <= path.len(),
        lock.has(ids[i]),
        forall|k: int|
            0 <= k < path.len() ==> {
                &&& lock.inputs(#[trigger] ids[k]).contains_key(path[k])
                &&& lock.inputs(ids[k])[path[k]]@ == Reference::Node(ids[k + 1])
                &&& lock.has(ids[k + 1])
            },
    ensures
        walk(lock, start, path, i, ids[i], fuel) == Resolution::Node(ids.last()),
    decreases path.len() - i,
{
    if i < path.len() {
        assert(lock.inputs(ids[i]).contains_key(path[i]));
        lemma_walk_along(lock, start, path, ids, i + 1, fuel);
    }
}

/// A node uses shorthand exactly where its original source is of one of the three kinds, or else
/// its locked one.
pub proof fn law_nodes_that_use_shorthand(node: FlakeLockNode)
    ensures
        ({
            let original = kind_of(node.original);
            let locked = kind_of(node.locked);
            let known = |kind: Option<Seq<char>>|
                kind == Some("github"@) || kind == Some("gitlab"@) || kind == Some("sourcehut"@);
            &&& known(original) ==> shorthand_of(node) == original
            &&& !known(original) && known(locked) ==> shorthand_of(node) == locked
            &&& !known(original) && !known(locked) ==> shorthand_of(node) is None
        }),
{
}

/// The nodes that will still use shorthand are exactly those that do and that neither are the root
/// nor are reached by a direct input.
pub proof fn law_transitive_shorthand(lock: FlakeLock, n: int, id: Seq<char>)
    requires
        0 <= n <= lock.nodes.keys().len(),
    ensures
        transitive_nodes(lock, n).contains(id) <==> lock.nodes.keys().take(n).contains(id) && id
            != lock.root@ && !direct_target(lock, id) && shorthand_of(lock.nodes@[id]) is Some,
    decreases n,
{
    let all = transitive_nodes(lock, n);
    let keys = lock.nodes.keys();
    if n > 0 {
        law_transitive_shorthand(lock, n - 1, id);
        let before = transitive_nodes(lock, n - 1);
        assert(keys.take(n) =~= keys.take(n - 1).push(keys[n - 1]));
        if keys.take(n - 1).contains(id) {
            let k = choose|k: int| 0 <= k < n - 1 && #[trigger] keys.take(n - 1)[k] == id;
            assert(keys.take(n)[k] == id);
        }
        assert(keys.take(n)[n - 1] == keys[n - 1]);
        if before.contains(id) {
            let k = choose|k: int| 0 <= k < before.len() && before[k] == id;
            assert(all[k] == id);
        }
        if keys[n - 1] == id && all.len() > before.len() {
            assert(all[all.len() - 1] == id);
        }
        if all.contains(id) {
            let k = choose|k: int| 0 <= k < all.len() && all[k] == id;
            if k < before.len() {
                assert(before[k] == id);
                assert(before.contains(id));
            }
        }
        if keys.take(n).contains(id) {
            let k = choose|k: int| 0 <= k < n && #[trigger] keys.take(n)[k] == id;
            if k < n - 1 {
                assert(keys.take(n - 1)[k] == id);
                assert(keys.take(n - 1).contains(id));
            }
        }
    } else {
        assert(keys.take(0).len() == 0);
    }
}

/// The direct inputs are covered exactly where each of them that leads straight to a node which uses
/// shorthand is assigned a literal.
pub proof fn law_covered_inputs(lock: FlakeLock, found: Seq<Assigned>, n: int)
    requires
        0 <= n <= lock.input_names(lock.root@).len(),
    ensures
        first_uncovered(lock, found, n) is None <==> forall|i: int|
            0 <= i < n ==> {
                let name = #[trigger] lock.input_names(lock.root@)[i];
                lock.inputs(lock.root@)[name]@ matches Reference::Node(id) ==> shorthand_of(
                    lock.nodes@[id],
                ) is Some ==> exists|k: int| 0 <= k < found.len() && (#[trigger] found[k]).name == name
            },
    decreases n,
{
    if n > 0 {
        law_covered_inputs(lock, found, n - 1);
        let name = lock.input_names(lock.root@)[n - 1];
        assert(is_uncovered(lock, found, name) <==> !(
        lock.inputs(lock.root@)[name]@ matches Reference::Node(id) ==> shorthand_of(lock.nodes@[id])
            is Some ==> exists|k: int| 0 <= k < found.len() && (#[trigger] found[k]).name == name));
    }
}

/// Two lock files of which a node has the same content agree in all that the node says: its
/// inputs, what it is locked to, what was asked for and its parent.
pub proof fn law_same_content(a: FlakeLock, b: FlakeLock, id: Seq<char>)
    requires
        content_of(a, id) == content_of(b, id),
    ensures
        a.has(id) == b.has(id),
        a.has(id) ==> {
            let x = a.nodes@[id];
            let y = b.nodes@[id];
            &&& x.inputs@.dom() == y.inputs@.dom()
            &&& forall|name: Seq<char>| #[trigger]
                x.inputs@.contains_key(name) ==> x.inputs@[name]@ == y.inputs@[name]@
            &&& x.locked is Some == y.locked is Some
            &&& x.locked is Some ==> x.locked->0.text@ == y.locked->0.text@ && text_of(
                x.locked->0.kind,
            ) == text_of(y.locked->0.kind) && text_of(x.locked->0.owner) == text_of(
                y.locked->0.owner,
            ) && text_of(x.locked->0.repo) == text_of(y.locked->0.repo)
            &&& x.original is Some == y.original is Some
            &&& x.original is Some ==> x.original->0.text@ == y.original->0.text@ && text_of(
                x.original->0.kind,
            ) == text_of(y.original->0.kind) && text_of(x.original->0.owner) == text_of(
                y.original->0.owner,
            ) && text_of(x.original->0.repo) == text_of(y.original->0.repo)
            &&& x.parent is Some == y.parent is Some
            &&& x.parent is Some ==> texts(x.parent->0@) == texts(y.parent->0@)
        },
{
    if a.has(id) {
        let x = a.nodes@[id];
        let y = b.nodes@[id];
        assert(node_content(x) == node_content(y));
        assert(references(x.inputs@) == references(y.inputs@));
        assert(references(x.inputs@).dom() =~= x.inputs@.dom());
        assert(references(y.inputs@).dom() =~= y.inputs@.dom());
        assert forall|name: Seq<char>| #[trigger]
            x.inputs@.contains_key(name) implies x.inputs@[name]@ == y.inputs@[name]@ by {
            assert(references(x.inputs@)[name] == x.inputs@[name]@);
            assert(y.inputs@.contains_key(name));
            assert(references(y.inputs@)[name] == y.inputs@[name]@);
        }
    }
}

} // verus!
