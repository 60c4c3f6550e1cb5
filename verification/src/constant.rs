//! Constant values: the compile-time defaults that a variable declaration
//! may carry.

use vstd::prelude::*;

verus! {

/// Mathematical model of a [`ConstantValue`].
pub enum ConstantModel {
    Number(u32),
    Text(Seq<char>),
    ResourceRef(Seq<char>),
    List(Seq<(ConstantModel, Option<ConstantModel>)>),
    Null,
    Opaque(Seq<char>),
}

/// A variable's default value.
///
/// `Number` holds the IEEE-754 single-precision bit pattern of the number, so
/// that values can be compared and copied exactly. `List` keeps its entries in
/// declaration order; an entry without a paired value is a plain member.
/// `Opaque` holds the textual form of any value outside the other kinds.
#[derive(Debug, PartialEq, Eq)]
pub enum ConstantValue {
    Number(u32),
    Text(String),
    ResourceRef(String),
    List(Vec<(ConstantValue, Option<ConstantValue>)>),
    Null,
    Opaque(String),
}

/// The model of one list entry.
pub open spec fn entry_model(e: (ConstantValue, Option<ConstantValue>)) -> (
    ConstantModel,
    Option<ConstantModel>,
)
    decreases e,
{
    (
        constant_model(e.0),
        match e.1 {
            Some(v) => Some(constant_model(v)),
            None => None,
        },
    )
}

/// The model of a constant: strings by their characters, lists entry by entry.
pub open spec fn constant_model(c: ConstantValue) -> ConstantModel
    decreases c,
{
    match c {
        ConstantValue::Number(bits) => ConstantModel::Number(bits),
        ConstantValue::Text(s) => ConstantModel::Text(s@),
        ConstantValue::ResourceRef(s) => ConstantModel::ResourceRef(s@),
        ConstantValue::List(entries) => ConstantModel::List(
            Seq::new(
                entries@.len(),
                |i: int|
                    if 0 <= i < entries@.len() {
                        entry_model(entries@[i])
                    } else {
                        arbitrary()
                    },
            ),
        ),
        ConstantValue::Null => ConstantModel::Null,
        ConstantValue::Opaque(s) => ConstantModel::Opaque(s@),
    }
}

impl View for ConstantValue {
    type V = ConstantModel;

    open spec fn view(&self) -> ConstantModel {
        constant_model(*self)
    }
}

impl ConstantValue {
    /// An independent copy with the same model.
    pub fn duplicate(&self) -> (r: ConstantValue)
        ensures
            r@ == self@,
        decreases self,
    {
        match self {
            ConstantValue::Number(bits) => ConstantValue::Number(*bits),
            ConstantValue::Text(s) => ConstantValue::Text(s.clone()),
            ConstantValue::ResourceRef(s) => ConstantValue::ResourceRef(s.clone()),
            ConstantValue::List(entries) => {
                let mut out: Vec<(ConstantValue, Option<ConstantValue>)> = Vec::new();
                let mut i: usize = 0;
                while i < entries.len()
                    invariant
                        *self == ConstantValue::List(*entries),
                        i <= entries.len(),
                        out@.len() == i,
                        forall|k: int|
                            0 <= k < i ==> entry_model(#[trigger] out@[k]) == entry_model(
                                entries@[k],
                            ),
                    decreases entries.len() - i,
                {
                    proof {
                        assert(decreases_to!(*self => self->List_0));
                    }
                    let key = entries[i].0.duplicate();
                    let value = match &entries[i].1 {
                        Some(v) => Some(v.duplicate()),
                        None => None,
                    };
                    out.push((key, value));
                    i += 1;
                }
                let r = ConstantValue::List(out);
                proof {
                    assert(r@->List_0 =~= self@->List_0);
                }
                r
            },
            ConstantValue::Null => ConstantValue::Null,
            ConstantValue::Opaque(s) => ConstantValue::Opaque(s.clone()),
        }
    }
}

} // verus!
