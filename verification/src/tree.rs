//! The object tree: an arena of type nodes in construction order, with path
//! lookup and subtype enumeration.

use crate::object::DmObject;
use crate::variable::{
    find_variable, has_procedure, procedure_names, variable_map, DmError, DmProc, DmVariable,
    VariableModel,
};
use vstd::prelude::*;

verus! {

/// One type definition: its path, its place in the hierarchy and what it
/// declares itself. Inherited declarations are not stored here.
#[derive(Debug)]
pub struct TypeNode {
    /// `/`-delimited path; empty for the root.
    pub path: String,
    /// Index of the parent type; `None` for the root only.
    pub parent: Option<usize>,
    /// Indices of the types whose parent is this one, in construction order.
    pub children: Vec<usize>,
    /// Variables declared on this type.
    pub vars: Vec<DmVariable>,
    /// Procedures declared on this type.
    pub procs: Vec<DmProc>,
}

/// A path segment: not empty and free of `/`.
pub open spec fn valid_segment(name: Seq<char>) -> bool {
    name.len() > 0 && !name.contains('/')
}

/// `child` is `parent` followed by `/` and one further segment.
pub open spec fn extends_path(child: Seq<char>, parent: Seq<char>) -> bool {
    &&& child.len() > parent.len()
    &&& child.subrange(0, parent.len() as int + 1) == parent.push('/')
    &&& valid_segment(child.subrange(parent.len() as int + 1, child.len() as int))
}

/// Whether `name` can be a path segment.
pub fn is_segment(name: &str) -> (r: bool)
    ensures
        r == valid_segment(name@),
{
    let n = name.unicode_len();
    let mut i: usize = 0;
    while i < n
        invariant
            n == name@.len(),
            i <= n,
            forall|k: int| 0 <= k < i ==> name@[k] != '/',
        decreases n - i,
    {
        if name.get_char(i) == '/' {
            return false;
        }
        i += 1;
    }
    n > 0
}

/// Node `i` has an earlier node as its parent and extends that node's path.
pub open spec fn link_ok(nodes: Seq<TypeNode>, i: int) -> bool {
    match nodes[i].parent {
        Some(p) => p < i && extends_path(nodes[i].path@, nodes[p as int].path@),
        None => false,
    }
}

/// Node `i` is a direct child of node `a`.
pub open spec fn is_child(nodes: Seq<TypeNode>, a: int, i: int) -> bool {
    0 <= i < nodes.len() && nodes[i].parent is Some && nodes[i].parent->0 == a
}

/// Node `i` is a proper descendant of node `a`.
pub open spec fn is_descendant(nodes: Seq<TypeNode>, a: int, i: int) -> bool
    decreases i,
{
    0 <= i < nodes.len() && match nodes[i].parent {
        Some(p) => p < i && (p == a || is_descendant(nodes, a, p as int)),
        None => false,
    }
}

/// The direct children of `a` among the first `n` nodes, in ascending order.
pub open spec fn child_indices(nodes: Seq<TypeNode>, a: int, n: int) -> Seq<usize>
    decreases n,
{
    if n <= 0 {
        Seq::empty()
    } else if is_child(nodes, a, n - 1) {
        child_indices(nodes, a, n - 1).push((n - 1) as usize)
    } else {
        child_indices(nodes, a, n - 1)
    }
}

/// The proper descendants of `a` among the first `n` nodes, in ascending order.
pub open spec fn descendant_indices(nodes: Seq<TypeNode>, a: int, n: int) -> Seq<usize>
    decreases n,
{
    if n <= 0 {
        Seq::empty()
    } else if is_descendant(nodes, a, n - 1) {
        descendant_indices(nodes, a, n - 1).push((n - 1) as usize)
    } else {
        descendant_indices(nodes, a, n - 1)
    }
}

/// Some node has the path `path`.
pub open spec fn has_path(nodes: Seq<TypeNode>, path: Seq<char>) -> bool {
    exists|i: int| 0 <= i < nodes.len() && #[trigger] nodes[i].path@ == path
}

/// The tree invariant: node 0 is the root with the empty path and no
/// parent; every other node hangs below an earlier node whose path it
/// extends; paths are unique; each child list is exactly the node's direct
/// children in construction order.
pub open spec fn well_formed(nodes: Seq<TypeNode>) -> bool {
    &&& nodes.len() >= 1
    &&& nodes[0].path@.len() == 0
    &&& nodes[0].parent is None
    &&& forall|i: int| 0 < i < nodes.len() ==> #[trigger] link_ok(nodes, i)
    &&& forall|i: int, j: int|
        0 <= i < j < nodes.len() ==> #[trigger] nodes[i].path@ != #[trigger] nodes[j].path@
    &&& forall|a: int|
        0 <= a < nodes.len() ==> (#[trigger] nodes[a].children)@ == child_indices(
            nodes,
            a,
            nodes.len() as int,
        )
}

/// The variables of node `i` after inheritance: those of its parent, with
/// the node's own declarations taking precedence.
pub open spec fn resolved_variables(nodes: Seq<TypeNode>, i: int) -> Map<
    Seq<char>,
    VariableModel,
>
    decreases i,
{
    if 0 <= i < nodes.len() {
        let own = variable_map(nodes[i].vars@);
        match nodes[i].parent {
            Some(p) if p < i => resolved_variables(nodes, p as int).union_prefer_right(own),
            _ => own,
        }
    } else {
        Map::empty()
    }
}

/// The procedure names of node `i` after inheritance.
pub open spec fn resolved_procedures(nodes: Seq<TypeNode>, i: int) -> Set<Seq<char>>
    decreases i,
{
    if 0 <= i < nodes.len() {
        let own = procedure_names(nodes[i].procs@);
        match nodes[i].parent {
            Some(p) if p < i => resolved_procedures(nodes, p as int).union(own),
            _ => own,
        }
    } else {
        Set::empty()
    }
}

/// Whether node `i` itself declares the variable `name`; `None` where the
/// node neither declares nor inherits it.
pub open spec fn overrides(nodes: Seq<TypeNode>, i: int, name: Seq<char>) -> Option<bool> {
    if resolved_variables(nodes, i).contains_key(name) {
        Some(variable_map(nodes[i].vars@).contains_key(name))
    } else {
        None
    }
}

/// `handles` are fresh handles to the nodes `indices`, in the same order.
pub open spec fn handles_for(nodes: Seq<TypeNode>, handles: Seq<DmObject>, indices: Seq<usize>) -> bool {
    &&& handles.len() == indices.len()
    &&& forall|k: int|
        0 <= k < handles.len() ==> (#[trigger] handles[k]).fresh_for(nodes, indices[k] as int)
}

/// The path of the child called `name` below a type at `parent`.
pub open spec fn child_path(parent: Seq<char>, name: Seq<char>) -> Seq<char> {
    parent.push('/') + name
}

/// `after` is `before` with one more node, a child of `parent` called
/// `name` that declares nothing; what the earlier nodes declare is unchanged.
pub open spec fn grown(
    before: Seq<TypeNode>,
    after: Seq<TypeNode>,
    parent: int,
    name: Seq<char>,
) -> bool {
    &&& after.len() == before.len() + 1
    &&& forall|i: int|
        0 <= i < before.len() ==> {
            &&& (#[trigger] after[i]).path == before[i].path
            &&& after[i].parent == before[i].parent
            &&& after[i].vars == before[i].vars
            &&& after[i].procs == before[i].procs
        }
    &&& after.last().path@ == child_path(before[parent].path@, name)
    &&& after.last().parent == Some(parent as usize)
    &&& after.last().vars@.len() == 0
    &&& after.last().procs@.len() == 0
}

/// `after` is `before` but for the declarations of node `at`.
pub open spec fn same_but_declarations(before: Seq<TypeNode>, after: Seq<TypeNode>, at: int) -> bool {
    &&& after.len() == before.len()
    &&& forall|i: int| 0 <= i < before.len() && i != at ==> #[trigger] after[i] == before[i]
    &&& after[at].path == before[at].path
    &&& after[at].parent == before[at].parent
    &&& after[at].children == before[at].children
}

/// Child lists depend on the parent links only.
pub proof fn lemma_children_agree(before: Seq<TypeNode>, after: Seq<TypeNode>, a: int, m: int)
    requires
        m <= before.len(),
        m <= after.len(),
        forall|i: int| 0 <= i < m ==> (#[trigger] before[i]).parent == after[i].parent,
    ensures
        child_indices(before, a, m) == child_indices(after, a, m),
    decreases m,
{
    if m > 0 {
        lemma_children_agree(before, after, a, m - 1);
    }
}

/// A node that no earlier node names as its parent has no children.
pub proof fn lemma_no_children(nodes: Seq<TypeNode>, a: int, m: int)
    requires
        m <= nodes.len(),
        forall|i: int| 0 <= i < m ==> !#[trigger] is_child(nodes, a, i),
    ensures
        child_indices(nodes, a, m) == Seq::<usize>::empty(),
    decreases m,
{
    if m > 0 {
        lemma_no_children(nodes, a, m - 1);
    }
}

/// The whole hierarchy. It owns every node; queries hand out [`DmObject`]
/// handles that refer to nodes by index.
#[derive(Debug)]
pub struct DmObjectTree {
    nodes: Vec<TypeNode>,
}

impl View for DmObjectTree {
    type V = Seq<TypeNode>;

    closed spec fn view(&self) -> Seq<TypeNode> {
        self.nodes@
    }
}

impl DmObjectTree {
    /// The tree invariant holds of this tree.
    pub open spec fn wf(&self) -> bool {
        well_formed(self@)
    }

    /// A tree that holds the root type only.
    pub fn new() -> (r: DmObjectTree)
        ensures
            r.wf(),
            r@.len() == 1,
            r@[0].vars@.len() == 0,
            r@[0].procs@.len() == 0,
    {
        let root = TypeNode {
            path: String::new(),
            parent: None,
            children: Vec::new(),
            vars: Vec::new(),
            procs: Vec::new(),
        };
        let mut nodes: Vec<TypeNode> = Vec::new();
        nodes.push(root);
        proof {
            assert(child_indices(nodes@, 0, 0) =~= Seq::empty());
        }
        DmObjectTree { nodes }
    }

    /// Adds a type called `name` below the node at `parent` and gives its
    /// index. Nothing is added, and `None` returned, exactly when `parent` is
    /// no node, `name` is empty or holds a `/`, or a type with the new path
    /// exists already.
    pub fn add_type(&mut self, parent: usize, name: &str) -> (r: Option<usize>)
        requires
            old(self).wf(),
        ensures
            final(self).wf(),
            r is Some <==> parent < old(self)@.len() && valid_segment(name@) && !has_path(
                old(self)@,
                child_path(old(self)@[parent as int].path@, name@),
            ),
            r is Some ==> r->0 == old(self)@.len() && grown(
                old(self)@,
                final(self)@,
                parent as int,
                name@,
            ),
            r is None ==> final(self)@ == old(self)@,
    {
        if parent >= self.nodes.len() || !is_segment(name) {
            return None;
        }
        let path = self.nodes[parent].path.clone().concat("/").concat(name);
        proof {
            reveal_strlit("/");
            assert(path@ =~= child_path(self@[parent as int].path@, name@));
        }
        if self.find(&path).is_some() {
            return None;
        }
        let ghost before = self.nodes@;
        let n = self.nodes.len();
        let node = TypeNode {
            path,
            parent: Some(parent),
            children: Vec::new(),
            vars: Vec::new(),
            procs: Vec::new(),
        };
        self.nodes[parent].children.push(n);
        self.nodes.push(node);
        proof {
            let after = self.nodes@;
            let m = n as int;
            let above = before[parent as int].path@;
            assert(after[m].path@.subrange(0, above.len() as int + 1) =~= above.push('/'));
            assert(after[m].path@.subrange(above.len() as int + 1, after[m].path@.len() as int)
                =~= name@);
            assert forall|i: int| 0 < i < after.len() implies #[trigger] link_ok(after, i) by {
                if i < m {
                    assert(link_ok(before, i));
                }
            }
            assert forall|a: int| 0 <= a < after.len() implies (#[trigger] after[a].children)@
                == child_indices(after, a, after.len() as int) by {
                if a < m {
                    lemma_children_agree(before, after, a, m);
                    assert(before[a].children@ == child_indices(before, a, m));
                } else {
                    assert forall|i: int| 0 <= i < after.len() implies !#[trigger] is_child(
                        after,
                        a,
                        i,
                    ) by {
                        if 0 < i {
                            assert(link_ok(after, i));
                        }
                    }
                    lemma_no_children(after, a, m + 1);
                }
            }
        }
        Some(n)
    }

    /// Declares `var` on the node at `node`. Nothing changes, and `false` is
    /// returned, exactly when `node` is no node or the node declares a
    /// variable of that name already.
    pub fn declare_variable(&mut self, node: usize, var: DmVariable) -> (r: bool)
        requires
            old(self).wf(),
        ensures
            final(self).wf(),
            r <==> node < old(self)@.len() && !variable_map(
                old(self)@[node as int].vars@,
            ).contains_key(var.name@),
            r ==> same_but_declarations(old(self)@, final(self)@, node as int),
            r ==> final(self)@[node as int].procs == old(self)@[node as int].procs,
            r ==> final(self)@[node as int].vars@ == old(self)@[node as int].vars@.push(var),
            !r ==> final(self)@ == old(self)@,
    {
        if node >= self.nodes.len() {
            return false;
        }
        if find_variable(&self.nodes[node].vars, &var.name).is_some() {
            return false;
        }
        let ghost before = self.nodes@;
        self.nodes[node].vars.push(var);
        proof {
            lemma_same_shape(before, self.nodes@, node as int);
        }
        true
    }

    /// Declares `proc` on the node at `node`. Nothing changes, and `false` is
    /// returned, exactly when `node` is no node or the node declares a
    /// procedure of that name already.
    pub fn declare_procedure(&mut self, node: usize, proc: DmProc) -> (r: bool)
        requires
            old(self).wf(),
        ensures
            final(self).wf(),
            r <==> node < old(self)@.len() && !procedure_names(
                old(self)@[node as int].procs@,
            ).contains(proc.name@),
            r ==> same_but_declarations(old(self)@, final(self)@, node as int),
            r ==> final(self)@[node as int].vars == old(self)@[node as int].vars,
            r ==> final(self)@[node as int].procs@ == old(self)@[node as int].procs@.push(proc),
            !r ==> final(self)@ == old(self)@,
    {
        if node >= self.nodes.len() {
            return false;
        }
        if has_procedure(&self.nodes[node].procs, &proc.name) {
            return false;
        }
        let ghost before = self.nodes@;
        self.nodes[node].procs.push(proc);
        proof {
            lemma_same_shape(before, self.nodes@, node as int);
        }
        true
    }

    /// The number of types, the root included.
    pub fn len(&self) -> (r: usize)
        ensures
            r == self@.len(),
    {
        self.nodes.len()
    }

    /// The node at `index`, if there is one.
    pub fn node(&self, index: usize) -> (r: Option<&TypeNode>)
        ensures
            index < self@.len() ==> r == Some(&self@[index as int]),
            index >= self@.len() ==> r is None,
    {
        if index < self.nodes.len() {
            Some(&self.nodes[index])
        } else {
            None
        }
    }

    /// The node at a valid index.
    pub(crate) fn node_at(&self, index: usize) -> (r: &TypeNode)
        requires
            index < self@.len(),
        ensures
            *r == self@[index as int],
    {
        &self.nodes[index]
    }

    /// The index of the node whose path is `path`, if there is one.
    pub fn find(&self, path: &String) -> (r: Option<usize>)
        ensures
            r is Some <==> has_path(self@, path@),
            r is Some ==> r->0 < self@.len() && self@[r->0 as int].path@ == path@,
    {
        let mut i: usize = 0;
        while i < self.nodes.len()
            invariant
                i <= self.nodes.len(),
                forall|k: int| 0 <= k < i ==> #[trigger] self.nodes@[k].path@ != path@,
            decreases self.nodes.len() - i,
        {
            if self.nodes[i].path == *path {
                return Some(i);
            }
            i += 1;
        }
        None
    }

    /// A handle to the root type.
    pub fn get_source_node(&self) -> (r: DmObject)
        requires
            self.wf(),
        ensures
            r.fresh_for(self@, 0),
            r.path@.len() == 0,
            self@[r.index() as int].parent is None,
    {
        DmObject::new(self, 0)
    }

    /// A handle to the type at `path`; `PathNotFound` with the requested
    /// path exactly when no type has it.
    pub fn get_path(&self, path: String) -> (r: Result<DmObject, DmError>)
        requires
            self.wf(),
        ensures
            r is Ok <==> has_path(self@, path@),
            r is Ok ==> r->Ok_0.path@ == path@ && r->Ok_0.fresh_for(self@, r->Ok_0.index() as int),
            r is Err ==> r->Err_0 is PathNotFound && r->Err_0->PathNotFound_0@ == path@,
    {
        match self.find(&path) {
            Some(i) => Ok(DmObject::new(self, i)),
            None => Err(DmError::PathNotFound(path)),
        }
    }

    /// Handles to the direct children of the type at `path`, in construction
    /// order. `PathNotFound` exactly when no type has the path.
    pub fn get_immediate_subtypes(&self, path: String) -> (r: Result<Vec<DmObject>, DmError>)
        requires
            self.wf(),
        ensures
            r is Ok <==> has_path(self@, path@),
            r is Ok ==> exists|a: int|
                0 <= a < self@.len() && #[trigger] self@[a].path@ == path@ && handles_for(
                    self@,
                    r->Ok_0@,
                    child_indices(self@, a, self@.len() as int),
                ),
            r is Err ==> r->Err_0 is PathNotFound && r->Err_0->PathNotFound_0@ == path@,
    {
        match self.find(&path) {
            Some(a) => {
                let n = self.nodes.len();
                let children = &self.nodes[a].children;
                proof {
                    lemma_indices_in_range(self@, a as int, self@.len() as int);
                }
                let out = self.handles(children);
                Ok(out)
            },
            None => Err(DmError::PathNotFound(path)),
        }
    }

    /// Handles to every proper descendant of the type at `path`, in
    /// construction order. `PathNotFound` exactly when no type has the path.
    pub fn get_all_subtypes(&self, path: String) -> (r: Result<Vec<DmObject>, DmError>)
        requires
            self.wf(),
        ensures
            r is Ok <==> has_path(self@, path@),
            r is Ok ==> exists|a: int|
                0 <= a < self@.len() && #[trigger] self@[a].path@ == path@ && handles_for(
                    self@,
                    r->Ok_0@,
                    descendant_indices(self@, a, self@.len() as int),
                ),
            r is Err ==> r->Err_0 is PathNotFound && r->Err_0->PathNotFound_0@ == path@,
    {
        match self.find(&path) {
            Some(a) => {
                let n = self.nodes.len();
                let indices = self.descendants(a);
                proof {
                    lemma_indices_in_range(self@, a as int, self@.len() as int);
                }
                let out = self.handles(&indices);
                Ok(out)
            },
            None => Err(DmError::PathNotFound(path)),
        }
    }

    /// The indices of every proper descendant of node `a`, ascending.
    pub fn descendants(&self, a: usize) -> (r: Vec<usize>)
        requires
            self.wf(),
        ensures
            r@ == descendant_indices(self@, a as int, self@.len() as int),
    {
        let n = self.nodes.len();
        let mut marks: Vec<bool> = Vec::new();
        let mut out: Vec<usize> = Vec::new();
        let mut i: usize = 0;
        while i < n
            invariant
                self.wf(),
                n == self.nodes@.len(),
                i <= n,
                marks@.len() == i,
                forall|k: int| 0 <= k < i ==> marks@[k] == is_descendant(self@, a as int, k),
                out@ == descendant_indices(self@, a as int, i as int),
            decreases n - i,
        {
            let below = match self.nodes[i].parent {
                Some(p) => p < i && (p == a || marks[p]),
                None => false,
            };
            marks.push(below);
            if below {
                out.push(i);
            }
            i += 1;
        }
        out
    }

    /// Fresh handles to the nodes at `indices`, in the same order.
    fn handles(&self, indices: &Vec<usize>) -> (r: Vec<DmObject>)
        requires
            self.wf(),
            forall|k: int| 0 <= k < indices@.len() ==> indices@[k] < self@.len(),
        ensures
            handles_for(self@, r@, indices@),
    {
        let mut out: Vec<DmObject> = Vec::new();
        let mut k: usize = 0;
        while k < indices.len()
            invariant
                self.wf(),
                k <= indices.len(),
                forall|j: int| 0 <= j < indices@.len() ==> indices@[j] < self@.len(),
                handles_for(self@, out@, indices@.take(k as int)),
            decreases indices.len() - k,
        {
            out.push(DmObject::new(self, indices[k]));
            proof {
                assert(indices@.take(k as int + 1) =~= indices@.take(k as int).push(
                    indices@[k as int],
                ));
            }
            k += 1;
        }
        out
    }
}

/// Both index lists hold indices of nodes only.
pub proof fn lemma_indices_in_range(nodes: Seq<TypeNode>, a: int, n: int)
    requires
        n <= nodes.len(),
        n <= usize::MAX,
    ensures
        forall|k: int|
            0 <= k < child_indices(nodes, a, n).len() ==> 0 <= #[trigger] child_indices(
                nodes,
                a,
                n,
            )[k] < n,
        forall|k: int|
            0 <= k < descendant_indices(nodes, a, n).len() ==> 0 <= #[trigger] descendant_indices(
                nodes,
                a,
                n,
            )[k] < n,
    decreases n,
{
    if n > 0 {
        lemma_indices_in_range(nodes, a, n - 1);
        let c = child_indices(nodes, a, n);
        let c0 = child_indices(nodes, a, n - 1);
        assert forall|k: int| 0 <= k < c.len() implies 0 <= #[trigger] c[k] < n by {
            if k < c0.len() {
                assert(c[k] == c0[k]);
            }
        }
        let d = descendant_indices(nodes, a, n);
        let d0 = descendant_indices(nodes, a, n - 1);
        assert forall|k: int| 0 <= k < d.len() implies 0 <= #[trigger] d[k] < n by {
            if k < d0.len() {
                assert(d[k] == d0[k]);
            }
        }
    }
}

/// Changing what one node declares keeps the tree invariant.
pub proof fn lemma_same_shape(before: Seq<TypeNode>, after: Seq<TypeNode>, at: int)
    requires
        well_formed(before),
        0 <= at < before.len(),
        same_but_declarations(before, after, at),
    ensures
        well_formed(after),
{
    assert forall|i: int| 0 < i < after.len() implies #[trigger] link_ok(after, i) by {
        assert(link_ok(before, i));
    }
    assert forall|a: int| 0 <= a < after.len() implies (#[trigger] after[a].children)@
        == child_indices(after, a, after.len() as int) by {
        lemma_children_agree(before, after, a, before.len() as int);
        assert(before[a].children@ == child_indices(before, a, before.len() as int));
    }
}

} // verus!
