//! Handles to type nodes, and the resolution of a type's variables and
//! procedures along its chain of ancestors.

use crate::tree::{
    link_ok, overrides, resolved_procedures, resolved_variables, well_formed, DmObjectTree,
    TypeNode,
};
use crate::variable::{
    distinct_procedures, distinct_variables, find_variable, has_procedure, procedure_names,
    variable_map, DmError, DmProc, DmVariable,
};
use vstd::prelude::*;

verus! {

/// A handle to one type of a tree. It refers to the node by index and keeps
/// the type's resolved variables and procedures once they have been asked
/// for.
#[derive(Debug)]
pub struct DmObject {
    /// The type's path; empty for the root.
    pub path: String,
    /// Resolved variables; empty until first asked for.
    pub vars: Vec<DmVariable>,
    /// Resolved procedures; empty until first asked for.
    pub procs: Vec<DmProc>,
    /// Index of the node in its tree.
    pub node_index: usize,
    /// Whether `vars` and `procs` have been computed.
    pub caches_set: bool,
}

impl DmObject {
    /// The index of the node this handle refers to.
    pub open spec fn index(&self) -> usize {
        self.node_index
    }

    /// Whether the resolved declarations have been computed.
    pub open spec fn cache_filled(&self) -> bool {
        self.caches_set
    }

    /// The variables kept in the handle.
    pub open spec fn cached_variables(&self) -> Seq<DmVariable> {
        self.vars@
    }

    /// The procedures kept in the handle.
    pub open spec fn cached_procedures(&self) -> Seq<DmProc> {
        self.procs@
    }

    /// The handle refers to a node of `nodes` by index and path, and what it
    /// keeps, if anything, is that node's resolved declarations.
    pub open spec fn valid_for(&self, nodes: Seq<TypeNode>) -> bool {
        &&& well_formed(nodes)
        &&& self.index() < nodes.len()
        &&& self.path@ == nodes[self.index() as int].path@
        &&& self.cache_filled() ==> {
            &&& distinct_variables(self.cached_variables())
            &&& distinct_procedures(self.cached_procedures())
            &&& variable_map(self.cached_variables()) == resolved_variables(
                nodes,
                self.index() as int,
            )
            &&& procedure_names(self.cached_procedures()) == resolved_procedures(
                nodes,
                self.index() as int,
            )
        }
    }

    /// The handle is valid for `nodes`, refers to node `i` and keeps nothing yet.
    pub open spec fn fresh_for(&self, nodes: Seq<TypeNode>, i: int) -> bool {
        self.valid_for(nodes) && self.index() == i && !self.cache_filled()
    }

    /// A handle to the node at `index`.
    pub fn new(tree: &DmObjectTree, index: usize) -> (r: DmObject)
        requires
            tree.wf(),
            index < tree@.len(),
        ensures
            r.fresh_for(tree@, index as int),
    {
        DmObject {
            path: tree.node_at(index).path.clone(),
            vars: Vec::new(),
            procs: Vec::new(),
            node_index: index,
            caches_set: false,
        }
    }

    /// The index of the node this handle refers to.
    pub fn node_index(&self) -> (r: usize)
        ensures
            r == self.index(),
    {
        self.node_index
    }

    /// Whether this is the root type: the one with the empty path.
    pub fn is_root_node(&self) -> (r: bool)
        ensures
            r == (self.path@.len() == 0),
    {
        self.path.as_str().is_empty()
    }

    /// The index of the handle's node in `tree`.
    pub fn get_type_ref(&self, tree: &DmObjectTree) -> (r: usize)
        requires
            self.valid_for(tree@),
        ensures
            r == self.index(),
            r < tree@.len(),
            tree@[r as int].path@ == self.path@,
    {
        self.node_index
    }

    /// Computes the resolved variables and procedures on first use and keeps
    /// them; later calls change nothing. The walk goes from the type itself
    /// up to the root and takes a name only where none is held yet, so the
    /// declaration of the most derived type is the one kept.
    pub fn ensure_type_cache_exists(&mut self, tree: &DmObjectTree)
        requires
            old(self).valid_for(tree@),
        ensures
            final(self).valid_for(tree@),
            final(self).cache_filled(),
            final(self).index() == old(self).index(),
            final(self).path == old(self).path,
            old(self).cache_filled() ==> *final(self) == *old(self),
    {
        if self.caches_set {
            return ;
        }
        let ghost nodes = tree@;
        let ghost start = self.node_index as int;
        let mut vars: Vec<DmVariable> = Vec::new();
        let mut procs: Vec<DmProc> = Vec::new();
        let mut next: Option<usize> = Some(self.node_index);
        proof {
            assert(resolved_variables(nodes, start).union_prefer_right(variable_map(vars@))
                =~= resolved_variables(nodes, start));
            assert(resolved_procedures(nodes, start).union(procedure_names(procs@))
                =~= resolved_procedures(nodes, start));
        }
        while next.is_some()
            invariant
                nodes == tree@,
                well_formed(nodes),
                distinct_variables(vars@),
                distinct_procedures(procs@),
                match next {
                    Some(c) => {
                        &&& c < nodes.len()
                        &&& resolved_variables(nodes, start) == resolved_variables(
                            nodes,
                            c as int,
                        ).union_prefer_right(variable_map(vars@))
                        &&& resolved_procedures(nodes, start) == resolved_procedures(
                            nodes,
                            c as int,
                        ).union(procedure_names(procs@))
                    },
                    None => {
                        &&& resolved_variables(nodes, start) == variable_map(vars@)
                        &&& resolved_procedures(nodes, start) == procedure_names(procs@)
                    },
                },
            decreases
                    (match next {
                        Some(c) => c + 1,
                        None => 0,
                    }),
        {
            let c = next.unwrap();
            let node = tree.node_at(c);
            let ghost held_vars = variable_map(vars@);
            let ghost held_procs = procedure_names(procs@);
            inherit_variables(&mut vars, &node.vars);
            inherit_procedures(&mut procs, &node.procs);
            next = node.parent;
            proof {
                let own_vars = variable_map(node.vars@);
                let own_procs = procedure_names(node.procs@);
                if c > 0 {
                    assert(link_ok(nodes, c as int));
                    let p = node.parent->0 as int;
                    assert(resolved_variables(nodes, p).union_prefer_right(
                        own_vars,
                    ).union_prefer_right(held_vars) =~= resolved_variables(
                        nodes,
                        p,
                    ).union_prefer_right(own_vars.union_prefer_right(held_vars)));
                    assert(resolved_procedures(nodes, p).union(own_procs).union(held_procs)
                        =~= resolved_procedures(nodes, p).union(own_procs.union(held_procs)));
                }
            }
        }
        self.vars = vars;
        self.procs = procs;
        self.caches_set = true;
    }

    /// The type's variables after inheritance, one per name: for each name
    /// the declaration of the most derived type that declares it.
    pub fn get_vars(&mut self, tree: &DmObjectTree) -> (r: &Vec<DmVariable>)
        requires
            old(self).valid_for(tree@),
        ensures
            variable_map(r@) == resolved_variables(tree@, old(self).index() as int),
            distinct_variables(r@),
            final(self).valid_for(tree@),
            final(self).cache_filled(),
            final(self).index() == old(self).index(),
            final(self).path == old(self).path,
            r@ == final(self).cached_variables(),
    {
        self.ensure_type_cache_exists(tree);
        &self.vars
    }

    /// The type's procedures after inheritance: every name declared by the
    /// type or one of its ancestors.
    pub fn get_procs(&mut self, tree: &DmObjectTree) -> (r: &Vec<DmProc>)
        requires
            old(self).valid_for(tree@),
        ensures
            procedure_names(r@) == resolved_procedures(tree@, old(self).index() as int),
            distinct_procedures(r@),
            final(self).valid_for(tree@),
            final(self).cache_filled(),
            final(self).index() == old(self).index(),
            final(self).path == old(self).path,
            r@ == final(self).cached_procedures(),
    {
        self.ensure_type_cache_exists(tree);
        &self.procs
    }

    /// Whether the type itself declares the variable `name`, as opposed to
    /// inheriting it. `AttributeNotFound` with the name exactly when the type
    /// neither declares nor inherits it.
    pub fn overrides_variable(&mut self, tree: &DmObjectTree, name: String) -> (r: Result<
        bool,
        DmError,
    >)
        requires
            old(self).valid_for(tree@),
        ensures
            final(self).valid_for(tree@),
            final(self).cache_filled(),
            final(self).index() == old(self).index(),
            final(self).path == old(self).path,
            match overrides(tree@, old(self).index() as int, name@) {
                Some(own) => r == Ok::<bool, DmError>(own),
                None => r is Err && r->Err_0 is AttributeNotFound
                    && r->Err_0->AttributeNotFound_0@ == name@,
            },
    {
        self.ensure_type_cache_exists(tree);
        let node = tree.node_at(self.get_type_ref(tree));
        if find_variable(&self.vars, &name).is_some() {
            Ok(find_variable(&node.vars, &name).is_some())
        } else {
            Err(DmError::AttributeNotFound(name))
        }
    }
}

/// Adds to `held` a copy of each declaration of `declared` whose name `held`
/// does not have yet. What `held` has already is kept.
pub fn inherit_variables(held: &mut Vec<DmVariable>, declared: &Vec<DmVariable>)
    ensures
        variable_map(final(held)@) == variable_map(declared@).union_prefer_right(
            variable_map(old(held)@),
        ),
        distinct_variables(old(held)@) ==> distinct_variables(final(held)@),
{
    let ghost start = held@;
    let ghost before = variable_map(held@);
    let mut k: usize = 0;
    while k < declared.len()
        invariant
            k <= declared.len(),
            variable_map(held@) == variable_map(declared@.take(k as int)).union_prefer_right(
                before,
            ),
            distinct_variables(start) ==> distinct_variables(held@),
        decreases declared.len() - k,
    {
        let ghost held_seq = held@;
        let ghost prefix = declared@.take(k as int);
        let ghost longer = declared@.take(k as int + 1);
        proof {
            assert(longer.drop_last() =~= prefix);
        }
        if find_variable(held, &declared[k].name).is_none() {
            held.push(declared[k].duplicate());
            proof {
                assert(held@.drop_last() =~= held_seq);
            }
        }
        k += 1;
    }
    proof {
        assert(declared@.take(k as int) =~= declared@);
    }
}

/// Adds to `held` a copy of each procedure of `declared` whose name `held`
/// does not have yet.
pub fn inherit_procedures(held: &mut Vec<DmProc>, declared: &Vec<DmProc>)
    ensures
        procedure_names(final(held)@) == procedure_names(declared@).union(
            procedure_names(old(held)@),
        ),
        distinct_procedures(old(held)@) ==> distinct_procedures(final(held)@),
{
    let ghost start = held@;
    let ghost before = procedure_names(held@);
    let mut k: usize = 0;
    while k < declared.len()
        invariant
            k <= declared.len(),
            procedure_names(held@) == procedure_names(declared@.take(k as int)).union(before),
            distinct_procedures(start) ==> distinct_procedures(held@),
        decreases declared.len() - k,
    {
        let ghost held_seq = held@;
        let ghost prefix = declared@.take(k as int);
        let ghost longer = declared@.take(k as int + 1);
        let ghost name = declared@[k as int].name@;
        proof {
            assert(longer[k as int].name@ == name);
            assert forall|n: Seq<char>| procedure_names(longer).contains(n) <==> (
            procedure_names(prefix).contains(n) || n == name) by {
                if procedure_names(longer).contains(n) {
                    let j = choose|j: int| 0 <= j < longer.len() && #[trigger] longer[j].name@ == n;
                    if j < k {
                        assert(prefix[j].name@ == n);
                    }
                }
                if procedure_names(prefix).contains(n) {
                    let j = choose|j: int| 0 <= j < prefix.len() && #[trigger] prefix[j].name@ == n;
                    assert(longer[j].name@ == n);
                }
            }
        }
        if !has_procedure(held, &declared[k].name) {
            held.push(declared[k].duplicate());
            proof {
                let now = held@;
                assert(now[held_seq.len() as int].name@ == name);
                assert forall|n: Seq<char>| procedure_names(now).contains(n) <==> (
                procedure_names(held_seq).contains(n) || n == name) by {
                    if procedure_names(now).contains(n) {
                        let j = choose|j: int| 0 <= j < now.len() && #[trigger] now[j].name@ == n;
                        if j < held_seq.len() {
                            assert(held_seq[j].name@ == n);
                        }
                    }
                    if procedure_names(held_seq).contains(n) {
                        let j = choose|j: int|
                            0 <= j < held_seq.len() && #[trigger] held_seq[j].name@ == n;
                        assert(now[j].name@ == n);
                    }
                }
            }
        }
        k += 1;
    }
    proof {
        assert(declared@.take(k as int) =~= declared@);
    }
}

} // verus!
