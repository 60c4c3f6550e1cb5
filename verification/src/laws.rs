//! Laws of the hierarchy that relate several queries.

use crate::object::DmObject;
use crate::tree::{
    child_indices, descendant_indices, is_child, is_descendant, link_ok, overrides,
    resolved_procedures, resolved_variables, well_formed, TypeNode,
};
use crate::constant::ConstantModel;
use crate::variable::{procedure_names, variable_map, DmError, VariableModel};
use vstd::prelude::*;

verus! {

/// A variable declared without a default has no value, every kind predicate
/// fails on it with `UnsetValue`, and it is shown as `Null`.
pub proof fn lemma_absent_default(v: VariableModel)
    requires
        v.value is None,
    ensures
        !v.has_value(),
        v.is_num() == Err::<bool, DmError>(DmError::UnsetValue),
        v.is_string() == Err::<bool, DmError>(DmError::UnsetValue),
        v.is_resource_literal() == Err::<bool, DmError>(DmError::UnsetValue),
        v.is_list() == Err::<bool, DmError>(DmError::UnsetValue),
        v.is_null() == Err::<bool, DmError>(DmError::UnsetValue),
        v.shown() == "Null"@,
{
}

/// A variable whose default is the null value has a value, and every kind
/// predicate answers on it: `is_null` with true, the others with false.
pub proof fn lemma_null_default_is_a_value(v: VariableModel)
    requires
        v.value == Some(ConstantModel::Null),
    ensures
        v.has_value(),
        v.is_null() == Ok::<bool, DmError>(true),
        v.is_num() == Ok::<bool, DmError>(false),
        v.is_string() == Ok::<bool, DmError>(false),
        v.is_resource_literal() == Ok::<bool, DmError>(false),
        v.is_list() == Ok::<bool, DmError>(false),
        v.shown() == v.text,
{
}

/// Every declared default answers exactly one of the five kind predicates
/// with true, unless it is of the opaque kind, which answers none.
pub proof fn lemma_kinds_exclude_each_other(v: VariableModel)
    requires
        v.value is Some,
    ensures
        v.is_num() == Ok::<bool, DmError>(v.value->0 is Number),
        v.is_string() == Ok::<bool, DmError>(v.value->0 is Text),
        v.is_resource_literal() == Ok::<bool, DmError>(v.value->0 is ResourceRef),
        v.is_list() == Ok::<bool, DmError>(v.value->0 is List),
        v.is_null() == Ok::<bool, DmError>(v.value->0 is Null),
{
}

/// The root is the only type with the empty path, and it has no parent;
/// every other type has one.
pub proof fn lemma_root_is_unique(nodes: Seq<TypeNode>, i: int)
    requires
        well_formed(nodes),
        0 <= i < nodes.len(),
    ensures
        nodes[i].path@.len() == 0 <==> i == 0,
        nodes[i].parent is None <==> i == 0,
{
    if i > 0 {
        assert(link_ok(nodes, i));
    }
}

/// A path names at most one type.
pub proof fn lemma_path_names_one_type(nodes: Seq<TypeNode>, i: int, j: int)
    requires
        well_formed(nodes),
        0 <= i < nodes.len(),
        0 <= j < nodes.len(),
        nodes[i].path@ == nodes[j].path@,
    ensures
        i == j,
{
}

/// The list of direct children holds exactly the indices of the children.
pub proof fn lemma_child_list_members(nodes: Seq<TypeNode>, a: int, n: int, i: usize)
    requires
        n <= nodes.len(),
        n <= usize::MAX,
    ensures
        child_indices(nodes, a, n).contains(i) <==> i < n && is_child(nodes, a, i as int),
    decreases n,
{
    if n > 0 {
        lemma_child_list_members(nodes, a, n - 1, i);
        let shorter = child_indices(nodes, a, n - 1);
        if is_child(nodes, a, n - 1) {
            let last = (n - 1) as usize;
            let longer = shorter.push(last);
            assert(longer[shorter.len() as int] == last);
            if shorter.contains(i) {
                let k = choose|k: int| 0 <= k < shorter.len() && shorter[k] == i;
                assert(longer[k] == i);
            }
        }
    }
}

/// The list of descendants holds exactly the indices of the proper descendants.
pub proof fn lemma_descendant_list_members(nodes: Seq<TypeNode>, a: int, n: int, i: usize)
    requires
        n <= nodes.len(),
        n <= usize::MAX,
    ensures
        descendant_indices(nodes, a, n).contains(i) <==> i < n && is_descendant(
            nodes,
            a,
            i as int,
        ),
    decreases n,
{
    if n > 0 {
        lemma_descendant_list_members(nodes, a, n - 1, i);
        let shorter = descendant_indices(nodes, a, n - 1);
        if is_descendant(nodes, a, n - 1) {
            let last = (n - 1) as usize;
            let longer = shorter.push(last);
            assert(longer[shorter.len() as int] == last);
            if shorter.contains(i) {
                let k = choose|k: int| 0 <= k < shorter.len() && shorter[k] == i;
                assert(longer[k] == i);
            }
        }
    }
}

/// A type is a proper descendant of `a` exactly when it is a child of `a`
/// or a proper descendant of a child of `a`.
pub proof fn lemma_descendant_unfolds(nodes: Seq<TypeNode>, a: int, i: int)
    requires
        well_formed(nodes),
        0 <= a < nodes.len(),
    ensures
        is_descendant(nodes, a, i) <==> is_child(nodes, a, i) || exists|c: int|
            is_child(nodes, a, c) && #[trigger] is_descendant(nodes, c, i),
    decreases i,
{
    if 0 < i < nodes.len() {
        assert(link_ok(nodes, i));
        let p = nodes[i].parent->0 as int;
        lemma_descendant_unfolds(nodes, a, p);
        if is_descendant(nodes, a, i) && p != a {
            if is_child(nodes, a, p) {
                assert(is_descendant(nodes, p, i));
            } else {
                let c = choose|c: int| is_child(nodes, a, c) && #[trigger] is_descendant(nodes, c, p);
                assert(is_descendant(nodes, c, i));
            }
        }
        if exists|c: int| is_child(nodes, a, c) && #[trigger] is_descendant(nodes, c, i) {
            let c = choose|c: int| is_child(nodes, a, c) && #[trigger] is_descendant(nodes, c, i);
            if p != c {
                assert(is_descendant(nodes, c, p));
            }
        }
    }
}

/// Every direct subtype is among all subtypes, and all subtypes are the
/// direct subtypes together with all subtypes of each direct subtype.
pub proof fn lemma_all_subtypes_cover_immediate(nodes: Seq<TypeNode>, a: int, i: usize)
    requires
        well_formed(nodes),
        0 <= a < nodes.len(),
        nodes.len() <= usize::MAX,
    ensures
        child_indices(nodes, a, nodes.len() as int).contains(i) ==> descendant_indices(
            nodes,
            a,
            nodes.len() as int,
        ).contains(i),
        descendant_indices(nodes, a, nodes.len() as int).contains(i) <==> child_indices(
            nodes,
            a,
            nodes.len() as int,
        ).contains(i) || exists|c: usize|
            child_indices(nodes, a, nodes.len() as int).contains(c) && #[trigger] descendant_indices(
                nodes,
                c as int,
                nodes.len() as int,
            ).contains(i),
{
    let n = nodes.len() as int;
    lemma_child_list_members(nodes, a, n, i);
    lemma_descendant_list_members(nodes, a, n, i);
    lemma_descendant_unfolds(nodes, a, i as int);
    if descendant_indices(nodes, a, n).contains(i) && !child_indices(nodes, a, n).contains(i) {
        let c = choose|c: int| is_child(nodes, a, c) && #[trigger] is_descendant(nodes, c, i as int);
        let cu = c as usize;
        lemma_child_list_members(nodes, a, n, cu);
        lemma_descendant_list_members(nodes, c, n, i);
    }
    if exists|c: usize|
        child_indices(nodes, a, n).contains(c) && #[trigger] descendant_indices(
            nodes,
            c as int,
            n,
        ).contains(i) {
        let c = choose|c: usize|
            child_indices(nodes, a, n).contains(c) && #[trigger] descendant_indices(
                nodes,
                c as int,
                n,
            ).contains(i);
        lemma_child_list_members(nodes, a, n, c);
        lemma_descendant_list_members(nodes, c as int, n, i);
    }
}

/// A proper descendant was built after its ancestor, and its path is the
/// ancestor's path, a `/` and more: ancestry shows in the paths.
pub proof fn lemma_descendant_path_extends(nodes: Seq<TypeNode>, a: int, i: int)
    requires
        well_formed(nodes),
        0 <= a < nodes.len(),
        is_descendant(nodes, a, i),
    ensures
        a < i,
        nodes[i].path@.len() > nodes[a].path@.len(),
        nodes[i].path@.subrange(0, nodes[a].path@.len() as int + 1) == nodes[a].path@.push('/'),
    decreases i,
{
    if i > 0 {
        assert(link_ok(nodes, i));
    }
    let p = nodes[i].parent->0 as int;
    if p != a {
        lemma_descendant_path_extends(nodes, a, p);
        let upper = nodes[a].path@.len() as int + 1;
        let middle = nodes[p].path@.len() as int + 1;
        assert(nodes[i].path@.subrange(0, upper) =~= nodes[i].path@.subrange(0, middle).subrange(
            0,
            upper,
        ));
    }
}

/// Conversely, a type whose path is another type's path, a `/` and more is
/// a proper descendant of that type: ancestry can be read off the paths.
pub proof fn lemma_path_extension_is_descendant(nodes: Seq<TypeNode>, a: int, i: int)
    requires
        well_formed(nodes),
        0 <= a < nodes.len(),
        0 <= i < nodes.len(),
        nodes[i].path@.len() > nodes[a].path@.len(),
        nodes[i].path@.subrange(0, nodes[a].path@.len() as int + 1) == nodes[a].path@.push('/'),
    ensures
        is_descendant(nodes, a, i),
    decreases i,
{
    assert(link_ok(nodes, i));
    let p = nodes[i].parent->0 as int;
    let whole = nodes[i].path@;
    let upper = nodes[a].path@.len() as int;
    let middle = nodes[p].path@.len() as int;
    let segment = whole.subrange(middle + 1, whole.len() as int);
    assert(whole[upper] == whole.subrange(0, upper + 1)[upper]);
    assert(whole[upper] == '/');
    if upper > middle {
        assert(segment[upper - middle - 1] == '/');
        assert(segment.contains('/'));
    }
    if upper == middle {
        assert(nodes[a].path@ =~= nodes[a].path@.push('/').subrange(0, upper));
        assert(nodes[p].path@ =~= nodes[p].path@.push('/').subrange(0, middle));
        assert(nodes[a].path@ =~= nodes[p].path@);
        lemma_path_names_one_type(nodes, a, p);
    } else {
        assert(nodes[p].path@ =~= whole.subrange(0, middle + 1).subrange(0, middle));
        assert(nodes[p].path@.subrange(0, upper + 1) =~= whole.subrange(0, upper + 1));
        lemma_path_extension_is_descendant(nodes, a, p);
    }
}

/// What a handle keeps is fixed by the tree and the node: two valid handles
/// to one node that have both resolved their declarations hold the same
/// variables and the same procedures.
pub proof fn lemma_resolution_is_stable(nodes: Seq<TypeNode>, first: DmObject, second: DmObject)
    requires
        first.valid_for(nodes),
        second.valid_for(nodes),
        first.index() == second.index(),
        first.cache_filled(),
        second.cache_filled(),
    ensures
        variable_map(first.cached_variables()) == variable_map(second.cached_variables()),
        procedure_names(first.cached_procedures()) == procedure_names(second.cached_procedures()),
{
}

/// A type's own declaration of a variable is the resolved one, whatever its
/// ancestors declare, and the type counts as overriding it.
pub proof fn lemma_own_declaration_wins(nodes: Seq<TypeNode>, d: int, name: Seq<char>)
    requires
        well_formed(nodes),
        0 <= d < nodes.len(),
        variable_map(nodes[d].vars@).contains_key(name),
    ensures
        resolved_variables(nodes, d).contains_key(name),
        resolved_variables(nodes, d)[name] == variable_map(nodes[d].vars@)[name],
        overrides(nodes, d, name) == Some(true),
{
}

/// A variable that a type does not declare itself resolves as it does for
/// the type's parent, and the type does not count as overriding it.
pub proof fn lemma_undeclared_is_inherited(nodes: Seq<TypeNode>, d: int, name: Seq<char>)
    requires
        well_formed(nodes),
        0 < d < nodes.len(),
        !variable_map(nodes[d].vars@).contains_key(name),
    ensures
        nodes[d].parent is Some,
        resolved_variables(nodes, d).contains_key(name) <==> resolved_variables(
            nodes,
            nodes[d].parent->0 as int,
        ).contains_key(name),
        resolved_variables(nodes, d).contains_key(name) ==> resolved_variables(nodes, d)[name]
            == resolved_variables(nodes, nodes[d].parent->0 as int)[name] && overrides(
            nodes,
            d,
            name,
        ) == Some(false),
{
    assert(link_ok(nodes, d));
}

/// The root resolves to exactly what it declares.
pub proof fn lemma_root_resolves_to_own(nodes: Seq<TypeNode>)
    requires
        well_formed(nodes),
    ensures
        resolved_variables(nodes, 0) == variable_map(nodes[0].vars@),
        resolved_procedures(nodes, 0) == procedure_names(nodes[0].procs@),
{
}

} // verus!
