use vstd::prelude::*;

use crate::definition::{StateId, StateMachineDefinition};

verus! {

impl StateMachineDefinition {
    /// Following parent links from `cur` meets a missing parent or an unknown
    /// state after visiting at most `fuel` known states.
    pub open spec fn chain_ends(self, cur: Option<StateId>, fuel: nat) -> bool
        decreases fuel,
    {
        match cur {
            None => true,
            Some(id) => if (id.0 as int) >= self.states@.len() {
                true
            } else if fuel == 0 {
                false
            } else {
                self.chain_ends(self.states@[id.0 as int].parent_state, (fuel - 1) as nat)
            },
        }
    }

    /// The ids of the known states met when following parent links from `cur`,
    /// outermost first, visiting at most `fuel` of them.
    pub open spec fn ancestry(self, cur: Option<StateId>, fuel: nat) -> Seq<StateId>
        decreases fuel,
    {
        match cur {
            None => Seq::empty(),
            Some(id) => if (id.0 as int) >= self.states@.len() || fuel == 0 {
                Seq::empty()
            } else {
                let state = self.states@[id.0 as int];
                self.ancestry(state.parent_state, (fuel - 1) as nat).push(state.id)
            },
        }
    }

    /// The parent chain of the state is finite: it cannot revisit a state.
    pub open spec fn parent_chain_ends(self, state_id: StateId) -> bool {
        self.chain_ends(Some(state_id), self.states@.len())
    }

    /// Every parent chain of the definition is finite.
    pub open spec fn hierarchy_is_finite(self) -> bool {
        forall|s: StateId| #[trigger] self.parent_chain_ends(s)
    }

    /// The path from the outermost ancestor down to the state itself.
    pub open spec fn spec_path_to_root(self, state_id: StateId) -> Seq<StateId> {
        self.ancestry(Some(state_id), self.states@.len())
    }
}

/// The ancestors of a state, outermost first, ending with the state itself
/// (empty for an unknown state).
pub fn path_to_root(definition: &StateMachineDefinition, state_id: StateId) -> (r: Vec<StateId>)
    requires
        definition.parent_chain_ends(state_id),
    ensures
        r@ == definition.spec_path_to_root(state_id),
{
    let mut path: Vec<StateId> = Vec::new();
    let mut current: Option<StateId> = Some(state_id);
    let ghost mut fuel: nat = definition.states@.len();
    loop
        invariant
            definition.chain_ends(current, fuel),
            definition.spec_path_to_root(state_id) == definition.ancestry(current, fuel) + path@,
        ensures
            definition.spec_path_to_root(state_id) == path@,
        decreases fuel,
    {
        let id = match current {
            Some(id) => id,
            None => {
                proof {
                    assert(path@ =~= Seq::<StateId>::empty() + path@);
                }
                break;
            },
        };
        let index = id.0 as usize;
        if index >= definition.states.len() {
            proof {
                assert(path@ =~= Seq::<StateId>::empty() + path@);
            }
            break;
        }
        let state = &definition.states[index];
        path.insert(0, state.id);
        proof {
            assert(definition.ancestry(current, fuel) == definition.ancestry(state.parent_state, (fuel - 1) as nat).push(state.id));
            assert(definition.ancestry(state.parent_state, (fuel - 1) as nat).push(state.id) + path@.drop_first() =~= definition.ancestry(state.parent_state, (fuel - 1) as nat) + path@);
            fuel = (fuel - 1) as nat;
        }
        current = state.parent_state;
    }
    path
}

/// The number of states on the path from the outermost ancestor to the state.
pub fn depth(definition: &StateMachineDefinition, state_id: StateId) -> (r: usize)
    requires
        definition.parent_chain_ends(state_id),
    ensures
        r == definition.spec_path_to_root(state_id).len(),
{
    path_to_root(definition, state_id).len()
}

/// The first `m` elements of the two sequences agree, and `m` is as large as
/// possible.
pub open spec fn is_common_prefix_len(a: Seq<StateId>, b: Seq<StateId>, m: int) -> bool {
    &&& 0 <= m <= a.len()
    &&& m <= b.len()
    &&& forall|i: int| 0 <= i < m ==> a[i] == b[i]
    &&& (m == a.len() || m == b.len() || a[m] != b[m])
}

/// The length of the longest common prefix of two sequences.
pub open spec fn common_prefix_len(a: Seq<StateId>, b: Seq<StateId>) -> int {
    choose|m: int| is_common_prefix_len(a, b, m)
}

impl StateMachineDefinition {
    /// The deepest state on both root paths, if any.
    pub open spec fn spec_lca(self, left: StateId, right: StateId) -> Option<StateId> {
        let m = common_prefix_len(self.spec_path_to_root(left), self.spec_path_to_root(right));
        if m == 0 {
            None
        } else {
            Some(self.spec_path_to_root(left)[m - 1])
        }
    }
}

proof fn lemma_common_prefix_unique(a: Seq<StateId>, b: Seq<StateId>, m: int, n: int)
    requires
        is_common_prefix_len(a, b, m),
        is_common_prefix_len(a, b, n),
    ensures
        m == n,
{
    if m < n {
        assert(a[m] == b[m]);
    }
    if n < m {
        assert(a[n] == b[n]);
    }
}

/// The deepest state shared by the two root paths.
pub fn least_common_ancestor(definition: &StateMachineDefinition, left: StateId, right: StateId) -> (r: Option<StateId>)
    requires
        definition.parent_chain_ends(left),
        definition.parent_chain_ends(right),
    ensures
        r == definition.spec_lca(left, right),
{
    let left_path = path_to_root(definition, left);
    let right_path = path_to_root(definition, right);
    let mut lca: Option<StateId> = None;
    let mut i: usize = 0;
    while i < left_path.len() && i < right_path.len() && left_path[i] == right_path[i]
        invariant
            i <= left_path@.len(),
            i <= right_path@.len(),
            forall|j: int| 0 <= j < i ==> left_path@[j] == right_path@[j],
            lca == (if i == 0 { None } else { Some(left_path@[i - 1]) }),
        decreases left_path@.len() - i,
    {
        lca = Some(left_path[i]);
        i = i + 1;
    }
    proof {
        assert(is_common_prefix_len(left_path@, right_path@, i as int));
        let m = common_prefix_len(left_path@, right_path@);
        lemma_common_prefix_unique(left_path@, right_path@, m, i as int);
    }
    lca
}

/// Whether `ancestor` is on the root path of `candidate` (a state is its own descendant).
pub fn is_descendant_of(definition: &StateMachineDefinition, candidate: StateId, ancestor: StateId) -> (r: bool)
    requires
        definition.parent_chain_ends(candidate),
    ensures
        r == definition.spec_path_to_root(candidate).contains(ancestor),
{
    let path = path_to_root(definition, candidate);
    crate::instance::contains_state(&path, ancestor)
}

/// The state right below the first occurrence of `ancestor` on the root path
/// of `descendant`.
pub fn direct_child_below(definition: &StateMachineDefinition, ancestor: StateId, descendant: StateId) -> (r: Option<StateId>)
    requires
        definition.parent_chain_ends(descendant),
    ensures
        ({
            let path = definition.spec_path_to_root(descendant);
            match r {
                Some(c) => exists|k: int| #![trigger path[k]] 0 <= k && k + 1 < path.len() && path[k] == ancestor
                    && (forall|j: int| 0 <= j < k ==> path[j] != ancestor) && c == path[k + 1],
                None => !path.contains(ancestor) || path.last() == ancestor && (forall|j: int| 0 <= j < path.len() - 1 ==> path[j] != ancestor),
            }
        }),
{
    let path = path_to_root(definition, descendant);
    let mut k: usize = 0;
    while k < path.len()
        invariant
            k <= path@.len(),
            path@ == definition.spec_path_to_root(descendant),
            forall|j: int| 0 <= j < k ==> path@[j] != ancestor,
        decreases path@.len() - k,
    {
        if path[k] == ancestor {
            proof {
                assert(path@[k as int] == ancestor);
                assert(path@.contains(ancestor));
            }
            if k + 1 < path.len() {
                let c = path[k + 1];
                proof {
                    let p = definition.spec_path_to_root(descendant);
                    assert(0 <= k && k + 1 < p.len() && p[k as int] == ancestor
                        && (forall|j: int| 0 <= j < k ==> p[j] != ancestor) && c == p[k + 1]);
                }
                return Some(c);
            }
            proof {
                let p = definition.spec_path_to_root(descendant);
                assert(p.last() == ancestor);
                assert(forall|j: int| 0 <= j < p.len() - 1 ==> p[j] != ancestor);
            }
            return None;
        }
        k = k + 1;
    }
    None
}

} // verus!
