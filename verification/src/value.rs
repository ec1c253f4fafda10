//! The dynamically typed values a configuration entry can hold.

use vstd::prelude::*;

verus! {

/// A YAML number.
#[derive(Debug, Clone, PartialEq)]
pub enum Num {
    /// A non-negative integer.
    PosInt(u64),
    /// An integer stored as signed.
    NegInt(i64),
    /// A number that is not an integer, kept exactly as the YAML layer made it.
    /// The store carries it and never looks inside.
    Float(serde_yaml::Number),
}

/// A structured document value: what one configuration key maps to.
#[derive(Debug, PartialEq)]
pub enum ConfigValue {
    Null,
    Bool(bool),
    Number(Num),
    String(String),
    Sequence(Vec<ConfigValue>),
    /// Key/value pairs in document order.
    Mapping(Vec<(ConfigValue, ConfigValue)>),
    /// A value under a YAML tag such as `!Thing`.
    Tagged(String, Box<ConfigValue>),
}

/// The mathematical content of a [`ConfigValue`].
pub enum Doc {
    Null,
    Bool(bool),
    /// Any integer; the two integer variants of [`Num`] both land here.
    Int(int),
    Float(serde_yaml::Number),
    Str(Seq<char>),
    List(Seq<Doc>),
    Dict(Seq<(Doc, Doc)>),
    Tagged(Seq<char>, Box<Doc>),
}

impl ConfigValue {
    /// What this value says, independent of how it is laid out in memory.
    pub open spec fn doc(self) -> Doc
        decreases self,
    {
        match self {
            ConfigValue::Null => Doc::Null,
            ConfigValue::Bool(b) => Doc::Bool(b),
            ConfigValue::Number(Num::PosInt(n)) => Doc::Int(n as int),
            ConfigValue::Number(Num::NegInt(n)) => Doc::Int(n as int),
            ConfigValue::Number(Num::Float(x)) => Doc::Float(x),
            ConfigValue::String(s) => Doc::Str(s@),
            ConfigValue::Sequence(items) => Doc::List(
                Seq::new(
                    items.len() as nat,
                    |i: int| if 0 <= i < items.len() { items[i].doc() } else { Doc::Null },
                ),
            ),
            ConfigValue::Mapping(pairs) => Doc::Dict(
                Seq::new(
                    pairs.len() as nat,
                    |i: int| if 0 <= i < pairs.len() {
                        (pairs[i].0.doc(), pairs[i].1.doc())
                    } else {
                        (Doc::Null, Doc::Null)
                    },
                ),
            ),
            ConfigValue::Tagged(tag, inner) => Doc::Tagged(tag@, Box::new((*inner).doc())),
        }
    }
}

impl View for ConfigValue {
    type V = Doc;

    open spec fn view(&self) -> Doc {
        self.doc()
    }
}

impl DeepView for ConfigValue {
    type V = Doc;

    open spec fn deep_view(&self) -> Doc {
        self.doc()
    }
}

impl Clone for ConfigValue {
    fn clone(&self) -> (r: ConfigValue)
        ensures
            r@ == self@,
    {
        self.duplicate()
    }
}

/// `d` with every tag that wraps it taken off.
pub open spec fn untagged(d: Doc) -> Doc
    decreases d,
{
    match d {
        Doc::Tagged(_, inner) => untagged(*inner),
        _ => d,
    }
}

/// No tag anywhere inside `d` is the empty string. YAML has no syntax for an
/// empty tag, so only such a document can be written out.
pub open spec fn tags_ok(d: Doc) -> bool
    decreases d,
{
    match d {
        Doc::List(items) => forall|i: int| 0 <= i < items.len() ==> tags_ok(#[trigger] items[i]),
        Doc::Dict(pairs) => forall|i: int|
            0 <= i < pairs.len() ==> tags_ok((#[trigger] pairs[i]).0) && tags_ok(pairs[i].1),
        Doc::Tagged(tag, inner) => tag.len() > 0 && tags_ok(*inner),
        _ => true,
    }
}

impl ConfigValue {
    /// The value under all the tags that wrap this one; the value itself where
    /// it carries no tag.
    pub fn untagged(&self) -> (inner: &ConfigValue)
        ensures
            inner@ == untagged(self@),
            !(inner@ is Tagged),
        decreases self,
    {
        match self {
            ConfigValue::Tagged(_, inner) => inner.untagged(),
            _ => self,
        }
    }

    /// A copy of this value with the same content.
    pub fn duplicate(&self) -> (r: ConfigValue)
        ensures
            r@ == self@,
        decreases self,
    {
        match self {
            ConfigValue::Null => ConfigValue::Null,
            ConfigValue::Bool(b) => ConfigValue::Bool(*b),
            ConfigValue::Number(Num::PosInt(n)) => ConfigValue::Number(Num::PosInt(*n)),
            ConfigValue::Number(Num::NegInt(n)) => ConfigValue::Number(Num::NegInt(*n)),
            ConfigValue::Number(Num::Float(x)) => ConfigValue::Number(Num::Float(x.clone())),
            ConfigValue::String(s) => ConfigValue::String(s.clone()),
            ConfigValue::Sequence(items) => {
                let mut copies: Vec<ConfigValue> = Vec::new();
                let mut i: usize = 0;
                while i < items.len()
                    invariant
                        i <= items.len(),
                        self is Sequence && self->Sequence_0 == *items,
                        copies.len() == i,
                        forall|j: int| 0 <= j < i ==> (#[trigger] copies[j])@ == items[j]@,
                    decreases items.len() - i,
                {
                    copies.push(items[i].duplicate());
                    i += 1;
                }
                let r = ConfigValue::Sequence(copies);
                assert(r@->List_0 =~= self@->List_0);
                r
            },
            ConfigValue::Mapping(pairs) => {
                let mut copies: Vec<(ConfigValue, ConfigValue)> = Vec::new();
                let mut i: usize = 0;
                while i < pairs.len()
                    invariant
                        i <= pairs.len(),
                        self is Mapping && self->Mapping_0 == *pairs,
                        copies.len() == i,
                        forall|j: int|
                            0 <= j < i ==> (#[trigger] copies[j]).0@ == pairs[j].0@ && copies[j].1@
                                == pairs[j].1@,
                    decreases pairs.len() - i,
                {
                    copies.push((pairs[i].0.duplicate(), pairs[i].1.duplicate()));
                    i += 1;
                }
                let r = ConfigValue::Mapping(copies);
                assert(r@->Dict_0 =~= self@->Dict_0);
                r
            },
            ConfigValue::Tagged(tag, inner) => ConfigValue::Tagged(
                tag.clone(),
                Box::new(inner.duplicate()),
            ),
        }
    }

    /// Checks that no tag inside this value is empty.
    pub fn has_valid_tags(&self) -> (ok: bool)
        ensures
            ok == tags_ok(self@),
        decreases self,
    {
        match self {
            ConfigValue::Sequence(items) => {
                let mut i: usize = 0;
                while i < items.len()
                    invariant
                        i <= items.len(),
                        self == ConfigValue::Sequence(*items),
                        forall|j: int| 0 <= j < i ==> tags_ok(#[trigger] self@->List_0[j]),
                    decreases items.len() - i,
                {
                    if !items[i].has_valid_tags() {
                        assert(self@->List_0[i as int] == items[i as int]@);
                        return false;
                    }
                    i += 1;
                }
                true
            },
            ConfigValue::Mapping(pairs) => {
                let mut i: usize = 0;
                while i < pairs.len()
                    invariant
                        i <= pairs.len(),
                        self == ConfigValue::Mapping(*pairs),
                        forall|j: int|
                            0 <= j < i ==> tags_ok((#[trigger] self@->Dict_0[j]).0) && tags_ok(
                                self@->Dict_0[j].1,
                            ),
                    decreases pairs.len() - i,
                {
                    if !pairs[i].0.has_valid_tags() || !pairs[i].1.has_valid_tags() {
                        assert(self@->Dict_0[i as int] == (pairs[i as int].0@, pairs[i as int].1@));
                        return false;
                    }
                    i += 1;
                }
                true
            },
            ConfigValue::Tagged(tag, inner) => !tag.as_str().is_empty() && inner.has_valid_tags(),
            _ => true,
        }
    }
}

} // verus!
