//! Variable and procedure declarations, the error kinds of the queries, and
//! the name-keyed view of a list of declarations.

use crate::constant::{ConstantModel, ConstantValue};
use vstd::prelude::*;

verus! {

/// The ways a query can fail. Each kind is distinguishable and carries the
/// path or name that was asked for.
#[derive(Debug, PartialEq, Eq)]
pub enum DmError {
    /// No type has the requested path.
    PathNotFound(String),
    /// The variable was declared without a default value.
    UnsetValue,
    /// The type neither declares nor inherits a variable of that name.
    AttributeNotFound(String),
    /// The tree could not be built; carries the builder's description. No
    /// query produces this kind.
    ConstructionFailure(String),
}

/// Mathematical model of a [`DmVariable`].
pub struct VariableModel {
    pub name: Seq<char>,
    pub value: Option<ConstantModel>,
    pub text: Seq<char>,
}

impl VariableModel {
    /// Whether a default was declared.
    pub open spec fn has_value(self) -> bool {
        self.value is Some
    }

    /// The text shown for the default: `Null` where there is none.
    pub open spec fn shown(self) -> Seq<char> {
        if self.value is Some {
            self.text
        } else {
            "Null"@
        }
    }

    /// The answer to "is the default a number".
    pub open spec fn is_num(self) -> Result<bool, DmError> {
        kind_query(self.value, self.value is Some && self.value->0 is Number)
    }

    /// The answer to "is the default a text string".
    pub open spec fn is_string(self) -> Result<bool, DmError> {
        kind_query(self.value, self.value is Some && self.value->0 is Text)
    }

    /// The answer to "is the default a resource reference".
    pub open spec fn is_resource_literal(self) -> Result<bool, DmError> {
        kind_query(self.value, self.value is Some && self.value->0 is ResourceRef)
    }

    /// The answer to "is the default a list".
    pub open spec fn is_list(self) -> Result<bool, DmError> {
        kind_query(self.value, self.value is Some && self.value->0 is List)
    }

    /// The answer to "is the default the null value".
    pub open spec fn is_null(self) -> Result<bool, DmError> {
        kind_query(self.value, self.value is Some && self.value->0 is Null)
    }
}

/// A variable declaration: a name and, optionally, a default value.
///
/// A declaration without a default (`value` is `None`) is distinct from one
/// whose default is `ConstantValue::Null`. `text` is the default as it is
/// displayed; it is read only where a default is present.
#[derive(Debug, PartialEq, Eq)]
pub struct DmVariable {
    pub name: String,
    pub value: Option<ConstantValue>,
    pub text: String,
}

impl View for DmVariable {
    type V = VariableModel;

    open spec fn view(&self) -> VariableModel {
        VariableModel {
            name: self.name@,
            value: match self.value {
                Some(c) => Some(c@),
                None => None,
            },
            text: self.text@,
        }
    }
}

impl DmVariable {
    /// A declaration of `name` with the given default and its display text.
    pub fn new(name: String, value: Option<ConstantValue>, text: String) -> (r: DmVariable)
        ensures
            r.name == name,
            r.value == value,
            r.text == text,
    {
        DmVariable { name, value, text }
    }

    /// An independent copy with the same model.
    pub fn duplicate(&self) -> (r: DmVariable)
        ensures
            r@ == self@,
    {
        let value = match &self.value {
            Some(c) => Some(c.duplicate()),
            None => None,
        };
        DmVariable { name: self.name.clone(), value, text: self.text.clone() }
    }

    /// Whether a default value was declared.
    pub fn has_value(&self) -> (r: bool)
        ensures
            r == self@.has_value(),
    {
        self.value.is_some()
    }

    /// The declared default; `UnsetValue` exactly when none was declared.
    pub fn value(&self) -> (r: Result<&ConstantValue, DmError>)
        ensures
            match self.value {
                Some(c) => r == Ok::<&ConstantValue, DmError>(&c),
                None => r == Err::<&ConstantValue, DmError>(DmError::UnsetValue),
            },
    {
        match &self.value {
            Some(c) => Ok(c),
            None => Err(DmError::UnsetValue),
        }
    }

    /// The default as text for display. A declaration without a default is
    /// shown as `Null`, although it is not a null value.
    pub fn value_repr(&self) -> (r: String)
        ensures
            r@ == self@.shown(),
    {
        match &self.value {
            Some(_) => self.text.clone(),
            None => String::from_str("Null"),
        }
    }

    /// Whether the default is a number; `UnsetValue` exactly when there is no default.
    pub fn value_is_num(&self) -> (r: Result<bool, DmError>)
        ensures
            r == self@.is_num(),
    {
        match &self.value {
            Some(ConstantValue::Number(_)) => Ok(true),
            Some(_) => Ok(false),
            None => Err(DmError::UnsetValue),
        }
    }

    /// Whether the default is a text string; `UnsetValue` exactly when there is no default.
    pub fn value_is_string(&self) -> (r: Result<bool, DmError>)
        ensures
            r == self@.is_string(),
    {
        match &self.value {
            Some(ConstantValue::Text(_)) => Ok(true),
            Some(_) => Ok(false),
            None => Err(DmError::UnsetValue),
        }
    }

    /// Whether the default is a resource reference; `UnsetValue` exactly when there is no default.
    pub fn value_is_resource_literal(&self) -> (r: Result<bool, DmError>)
        ensures
            r == self@.is_resource_literal(),
    {
        match &self.value {
            Some(ConstantValue::ResourceRef(_)) => Ok(true),
            Some(_) => Ok(false),
            None => Err(DmError::UnsetValue),
        }
    }

    /// Whether the default is a list; `UnsetValue` exactly when there is no default.
    pub fn value_is_list(&self) -> (r: Result<bool, DmError>)
        ensures
            r == self@.is_list(),
    {
        match &self.value {
            Some(ConstantValue::List(_)) => Ok(true),
            Some(_) => Ok(false),
            None => Err(DmError::UnsetValue),
        }
    }

    /// Whether the default is the null value; `UnsetValue` exactly when there is no default.
    pub fn value_is_null(&self) -> (r: Result<bool, DmError>)
        ensures
            r == self@.is_null(),
    {
        match &self.value {
            Some(ConstantValue::Null) => Ok(true),
            Some(_) => Ok(false),
            None => Err(DmError::UnsetValue),
        }
    }
}

/// What a kind predicate answers: the error on a missing default, else
/// whether the default is of the kind asked for.
pub open spec fn kind_query(value: Option<ConstantModel>, of_kind: bool) -> Result<bool, DmError> {
    if value is Some {
        Ok(of_kind)
    } else {
        Err(DmError::UnsetValue)
    }
}

/// A procedure declaration. Only its name matters here.
#[derive(Debug, PartialEq, Eq)]
pub struct DmProc {
    pub name: String,
}

impl DmProc {
    /// A declaration of the procedure `name`.
    pub fn new(name: String) -> (r: DmProc)
        ensures
            r.name == name,
    {
        DmProc { name }
    }

    /// An independent copy with the same name.
    pub fn duplicate(&self) -> (r: DmProc)
        ensures
            r.name@ == self.name@,
    {
        DmProc { name: self.name.clone() }
    }
}

/// The declarations of `s` keyed by name. Where a name occurs more than
/// once, the earliest declaration is the one kept.
pub open spec fn variable_map(s: Seq<DmVariable>) -> Map<Seq<char>, VariableModel>
    decreases s.len(),
{
    if s.len() == 0 {
        Map::empty()
    } else {
        let rest = variable_map(s.drop_last());
        if rest.contains_key(s.last().name@) {
            rest
        } else {
            rest.insert(s.last().name@, s.last()@)
        }
    }
}

/// No two declarations of `s` carry the same name.
pub open spec fn distinct_variables(s: Seq<DmVariable>) -> bool {
    forall|i: int, j: int| 0 <= i < j < s.len() ==> #[trigger] s[i].name@ != #[trigger] s[j].name@
}

/// No two procedures of `s` carry the same name.
pub open spec fn distinct_procedures(s: Seq<DmProc>) -> bool {
    forall|i: int, j: int| 0 <= i < j < s.len() ==> #[trigger] s[i].name@ != #[trigger] s[j].name@
}

/// The names of the procedures in `s`.
pub open spec fn procedure_names(s: Seq<DmProc>) -> Set<Seq<char>> {
    Set::new(|n: Seq<char>| exists|j: int| 0 <= j < s.len() && #[trigger] s[j].name@ == n)
}

/// A name that no declaration of `s` carries is not a key of its map.
pub proof fn lemma_variable_map_absent(s: Seq<DmVariable>, name: Seq<char>)
    requires
        forall|k: int| 0 <= k < s.len() ==> #[trigger] s[k].name@ != name,
    ensures
        !variable_map(s).contains_key(name),
    decreases s.len(),
{
    if s.len() > 0 {
        lemma_variable_map_absent(s.drop_last(), name);
    }
}

/// The first declaration that carries a name is the one its map holds.
pub proof fn lemma_variable_map_first(s: Seq<DmVariable>, j: int)
    requires
        0 <= j < s.len(),
        forall|k: int| 0 <= k < j ==> #[trigger] s[k].name@ != s[j].name@,
    ensures
        variable_map(s).contains_key(s[j].name@),
        variable_map(s)[s[j].name@] == s[j]@,
    decreases s.len(),
{
    if j == s.len() - 1 {
        lemma_variable_map_absent(s.drop_last(), s[j].name@);
    } else {
        lemma_variable_map_first(s.drop_last(), j);
    }
}

/// The position of the first declaration named `name`, if there is one.
pub fn find_variable(vars: &Vec<DmVariable>, name: &String) -> (r: Option<usize>)
    ensures
        r is Some <==> variable_map(vars@).contains_key(name@),
        r is Some ==> r->0 < vars@.len() && vars@[r->0 as int].name@ == name@ && variable_map(
            vars@,
        )[name@] == vars@[r->0 as int]@,
        r is Some ==> forall|k: int| 0 <= k < r->0 ==> #[trigger] vars@[k].name@ != name@,
        r is None ==> forall|k: int| 0 <= k < vars@.len() ==> #[trigger] vars@[k].name@ != name@,
{
    let mut i: usize = 0;
    while i < vars.len()
        invariant
            i <= vars.len(),
            forall|k: int| 0 <= k < i ==> #[trigger] vars@[k].name@ != name@,
        decreases vars.len() - i,
    {
        if vars[i].name == *name {
            proof {
                lemma_variable_map_first(vars@, i as int);
            }
            return Some(i);
        }
        i += 1;
    }
    proof {
        lemma_variable_map_absent(vars@, name@);
    }
    None
}

/// Whether some procedure in `procs` is named `name`.
pub fn has_procedure(procs: &Vec<DmProc>, name: &String) -> (r: bool)
    ensures
        r == procedure_names(procs@).contains(name@),
{
    let mut i: usize = 0;
    while i < procs.len()
        invariant
            i <= procs.len(),
            forall|k: int| 0 <= k < i ==> #[trigger] procs@[k].name@ != name@,
        decreases procs.len() - i,
    {
        if procs[i].name == *name {
            return true;
        }
        i += 1;
    }
    false
}

} // verus!
