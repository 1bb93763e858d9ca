//! The values that a cvar can hold.

use vstd::prelude::*;
use vstd::string::*;

verus! {

/// The type of a cvar's value.
#[derive(Debug, Clone, Copy, PartialEq, Eq, Hash, Structural)]
pub enum CVarType {
    /// `true` or `false`.
    Bool,
    /// A 64-bit signed integer.
    Integer,
    /// A string.
    Text,
    /// A list of 64-bit signed integers.
    IntegerList,
    /// A list of booleans.
    BoolList,
    /// A list of strings.
    TextList,
}

/// Why a value could not be applied to another.
#[derive(Debug, Clone, Copy, PartialEq, Eq, Structural)]
pub enum ApplyError {
    /// The value offered has another type than the value it should replace.
    MismatchedTypes {
        /// The type of the value offered.
        from_type: CVarType,
        /// The type of the value that should have been replaced.
        to_type: CVarType,
    },
}

impl ApplyError {
    /// The error written out.
    pub open spec fn describe_spec(self) -> Seq<char> {
        match self {
            ApplyError::MismatchedTypes { from_type, to_type } => "MismatchedTypes { from_type: "@
                + from_type.name_spec() + ", to_type: "@ + to_type.name_spec() + " }"@,
        }
    }

    /// The error written out.
    pub fn describe(&self) -> (text: String)
        ensures
            text@ == self.describe_spec(),
    {
        match self {
            ApplyError::MismatchedTypes { from_type, to_type } => {
                let text = "MismatchedTypes { from_type: ".to_owned();
                let text = text.concat(from_type.name());
                let text = text.concat(", to_type: ");
                let text = text.concat(to_type.name());
                text.concat(" }")
            },
        }
    }
}

/// A cvar's value.
#[derive(Debug, Clone, PartialEq, Eq)]
pub enum CVarValue {
    /// `true` or `false`.
    Bool(bool),
    /// A 64-bit signed integer.
    Integer(i64),
    /// A string.
    Text(String),
    /// A list of 64-bit signed integers.
    IntegerList(Vec<i64>),
    /// A list of booleans.
    BoolList(Vec<bool>),
    /// A list of strings.
    TextList(Vec<String>),
}

/// What a value holds.
pub enum ValueModel {
    /// `true` or `false`.
    Bool(bool),
    /// A 64-bit signed integer.
    Integer(i64),
    /// A string.
    Text(Seq<char>),
    /// A list of 64-bit signed integers.
    IntegerList(Seq<i64>),
    /// A list of booleans.
    BoolList(Seq<bool>),
    /// A list of strings.
    TextList(Seq<Seq<char>>),
}

/// What each string of a list holds, in order.
pub open spec fn text_views(list: Seq<String>) -> Seq<Seq<char>> {
    Seq::new(list.len(), |i: int| list[i]@)
}

impl ValueModel {
    /// The type of the value.
    pub open spec fn inner_type(self) -> CVarType {
        match self {
            ValueModel::Bool(_) => CVarType::Bool,
            ValueModel::Integer(_) => CVarType::Integer,
            ValueModel::Text(_) => CVarType::Text,
            ValueModel::IntegerList(_) => CVarType::IntegerList,
            ValueModel::BoolList(_) => CVarType::BoolList,
            ValueModel::TextList(_) => CVarType::TextList,
        }
    }
}

impl View for CVarValue {
    type V = ValueModel;

    open spec fn view(&self) -> ValueModel {
        match self {
            CVarValue::Bool(b) => ValueModel::Bool(*b),
            CVarValue::Integer(i) => ValueModel::Integer(*i),
            CVarValue::Text(s) => ValueModel::Text(s@),
            CVarValue::IntegerList(v) => ValueModel::IntegerList(v@),
            CVarValue::BoolList(v) => ValueModel::BoolList(v@),
            CVarValue::TextList(v) => ValueModel::TextList(text_views(v@)),
        }
    }
}

/// Whether `patch` can replace `target`: it can if both have the same type.
pub open spec fn applied(target: ValueModel, patch: ValueModel) -> Result<(), ApplyError> {
    if patch.inner_type() == target.inner_type() {
        Ok(())
    } else {
        Err(
            ApplyError::MismatchedTypes {
                from_type: patch.inner_type(),
                to_type: target.inner_type(),
            },
        )
    }
}

/// The views of a sequence of values.
pub open spec fn value_views(values: Seq<CVarValue>) -> Seq<ValueModel> {
    Seq::new(values.len(), |i: int| values[i]@)
}

impl CVarType {
    /// The name of the type.
    pub open spec fn name_spec(self) -> Seq<char> {
        match self {
            CVarType::Bool => "Bool"@,
            CVarType::Integer => "Integer"@,
            CVarType::Text => "Text"@,
            CVarType::IntegerList => "IntegerList"@,
            CVarType::BoolList => "BoolList"@,
            CVarType::TextList => "TextList"@,
        }
    }

    /// The name of the type.
    pub fn name(self) -> (text: &'static str)
        ensures
            text@ == self.name_spec(),
    {
        match self {
            CVarType::Bool => "Bool",
            CVarType::Integer => "Integer",
            CVarType::Text => "Text",
            CVarType::IntegerList => "IntegerList",
            CVarType::BoolList => "BoolList",
            CVarType::TextList => "TextList",
        }
    }

    /// Whether two types are the same.
    pub fn same(self, other: CVarType) -> (r: bool)
        ensures
            r == (self == other),
    {
        match (self, other) {
            (CVarType::Bool, CVarType::Bool) => true,
            (CVarType::Integer, CVarType::Integer) => true,
            (CVarType::Text, CVarType::Text) => true,
            (CVarType::IntegerList, CVarType::IntegerList) => true,
            (CVarType::BoolList, CVarType::BoolList) => true,
            (CVarType::TextList, CVarType::TextList) => true,
            _ => false,
        }
    }
}

impl CVarValue {
    /// The type of the value.
    pub fn inner_type(&self) -> (ty: CVarType)
        ensures
            ty == self@.inner_type(),
    {
        match self {
            CVarValue::Bool(_) => CVarType::Bool,
            CVarValue::Integer(_) => CVarType::Integer,
            CVarValue::Text(_) => CVarType::Text,
            CVarValue::IntegerList(_) => CVarType::IntegerList,
            CVarValue::BoolList(_) => CVarType::BoolList,
            CVarValue::TextList(_) => CVarType::TextList,
        }
    }

    /// Replaces the value by a copy of `value`, as a whole, if both have the
    /// same type; otherwise the value stays as it is.
    pub fn try_apply(&mut self, value: &CVarValue) -> (r: Result<(), ApplyError>)
        ensures
            r == applied(old(self)@, value@),
            r is Ok ==> final(self)@ == value@,
            r is Err ==> final(self)@ == old(self)@,
    {
        let to_type = self.inner_type();
        let from_type = value.inner_type();
        if from_type.same(to_type) {
            *self = value.duplicate();
            Ok(())
        } else {
            Err(ApplyError::MismatchedTypes { from_type, to_type })
        }
    }

    /// A copy of the value.
    pub fn duplicate(&self) -> (copy: CVarValue)
        ensures
            copy@ == self@,
    {
        match self {
            CVarValue::Bool(b) => CVarValue::Bool(*b),
            CVarValue::Integer(i) => CVarValue::Integer(*i),
            CVarValue::Text(s) => CVarValue::Text(s.clone()),
            CVarValue::IntegerList(v) => {
                let mut items: Vec<i64> = Vec::new();
                let mut i: usize = 0;
                while i < v.len()
                    invariant
                        0 <= i <= v.len(),
                        items@ == v@.take(i as int),
                    decreases v.len() - i,
                {
                    items.push(v[i]);
                    proof {
                        assert(v@.take(i as int).push(v@[i as int]) =~= v@.take(i + 1));
                    }
                    i = i + 1;
                }
                proof {
                    assert(v@.take(v.len() as int) =~= v@);
                }
                CVarValue::IntegerList(items)
            },
            CVarValue::BoolList(v) => {
                let mut items: Vec<bool> = Vec::new();
                let mut i: usize = 0;
                while i < v.len()
                    invariant
                        0 <= i <= v.len(),
                        items@ == v@.take(i as int),
                    decreases v.len() - i,
                {
                    items.push(v[i]);
                    proof {
                        assert(v@.take(i as int).push(v@[i as int]) =~= v@.take(i + 1));
                    }
                    i = i + 1;
                }
                proof {
                    assert(v@.take(v.len() as int) =~= v@);
                }
                CVarValue::BoolList(items)
            },
            CVarValue::TextList(v) => {
                let mut items: Vec<String> = Vec::new();
                let mut i: usize = 0;
                while i < v.len()
                    invariant
                        0 <= i <= v.len(),
                        items.len() == i,
                        forall|j: int| 0 <= j < i ==> items@[j]@ == v@[j]@,
                    decreases v.len() - i,
                {
                    items.push(v[i].clone());
                    i = i + 1;
                }
                proof {
                    assert(text_views(items@) =~= text_views(v@));
                }
                CVarValue::TextList(items)
            },
        }
    }
}

/// A copy of each value of `values`, in the same order.
pub fn duplicate_all(values: &Vec<CVarValue>) -> (copy: Vec<CVarValue>)
    ensures
        value_views(copy@) == value_views(values@),
{
    let mut copy: Vec<CVarValue> = Vec::new();
    let mut i: usize = 0;
    while i < values.len()
        invariant
            0 <= i <= values.len(),
            copy.len() == i,
            forall|j: int| 0 <= j < i ==> copy@[j]@ == values@[j]@,
        decreases values.len() - i,
    {
        copy.push(values[i].duplicate());
        i = i + 1;
    }
    proof {
        assert(value_views(copy@) =~= value_views(values@));
    }
    copy
}

} // verus!
