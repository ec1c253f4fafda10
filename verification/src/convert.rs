//! Typed access: how Rust values are written into a [`ConfigValue`] and read
//! back out of one.

use crate::value::{untagged, ConfigValue, Doc, Num};
use vstd::prelude::*;

verus! {

/// A type whose values can be stored under a configuration key.
pub trait ToValue: DeepView + Sized {
    /// The document that stands for `x`.
    spec fn encode(x: Self::V) -> Doc;

    /// Turns the value into its document.
    fn into_value(self) -> (r: ConfigValue)
        ensures
            r@ == Self::encode(self.deep_view()),
    ;
}

/// A type whose values can be read back from a stored document.
pub trait FromValue: ToValue {
    /// The value that `d` stands for, `None` where `d` has another shape or
    /// holds a number out of the type's range. Tags around `d` are ignored.
    spec fn decode(d: Doc) -> Option<Self::V>;

    /// Reads a value of this type out of `v`.
    fn from_value(v: &ConfigValue) -> (r: Option<Self>)
        ensures
            r.deep_view() == Self::decode(v@),
    ;

    /// Reading back what was written gives the value that was written.
    proof fn lemma_decode_encode(x: Self::V)
        ensures
            Self::decode(Self::encode(x)) == Some(x),
    ;
}

impl ToValue for bool {
    open spec fn encode(x: bool) -> Doc {
        Doc::Bool(x)
    }

    fn into_value(self) -> (r: ConfigValue) {
        ConfigValue::Bool(self)
    }
}

impl FromValue for bool {
    open spec fn decode(d: Doc) -> Option<bool> {
        match untagged(d) {
            Doc::Bool(b) => Some(b),
            _ => None,
        }
    }

    fn from_value(v: &ConfigValue) -> (r: Option<bool>) {
        match v.untagged() {
            ConfigValue::Bool(b) => Some(*b),
            _ => None,
        }
    }

    proof fn lemma_decode_encode(x: bool) {
    }
}

impl ToValue for i64 {
    open spec fn encode(x: i64) -> Doc {
        Doc::Int(x as int)
    }

    fn into_value(self) -> (r: ConfigValue) {
        if self < 0 {
            ConfigValue::Number(Num::NegInt(self))
        } else {
            ConfigValue::Number(Num::PosInt(self as u64))
        }
    }
}

impl FromValue for i64 {
    open spec fn decode(d: Doc) -> Option<i64> {
        match untagged(d) {
            Doc::Int(n) if i64::MIN <= n <= i64::MAX => Some(n as i64),
            _ => None,
        }
    }

    fn from_value(v: &ConfigValue) -> (r: Option<i64>) {
        match v.untagged() {
            ConfigValue::Number(Num::PosInt(n)) => if *n <= i64::MAX as u64 {
                Some(*n as i64)
            } else {
                None
            },
            ConfigValue::Number(Num::NegInt(n)) => Some(*n),
            _ => None,
        }
    }

    proof fn lemma_decode_encode(x: i64) {
    }
}

impl ToValue for u64 {
    open spec fn encode(x: u64) -> Doc {
        Doc::Int(x as int)
    }

    fn into_value(self) -> (r: ConfigValue) {
        ConfigValue::Number(Num::PosInt(self))
    }
}

impl FromValue for u64 {
    open spec fn decode(d: Doc) -> Option<u64> {
        match untagged(d) {
            Doc::Int(n) if 0 <= n <= u64::MAX => Some(n as u64),
            _ => None,
        }
    }

    fn from_value(v: &ConfigValue) -> (r: Option<u64>) {
        match v.untagged() {
            ConfigValue::Number(Num::PosInt(n)) => Some(*n),
            ConfigValue::Number(Num::NegInt(n)) => if *n >= 0 {
                Some(*n as u64)
            } else {
                None
            },
            _ => None,
        }
    }

    proof fn lemma_decode_encode(x: u64) {
    }
}

impl ToValue for i32 {
    open spec fn encode(x: i32) -> Doc {
        Doc::Int(x as int)
    }

    fn into_value(self) -> (r: ConfigValue) {
        (self as i64).into_value()
    }
}

impl FromValue for i32 {
    open spec fn decode(d: Doc) -> Option<i32> {
        match untagged(d) {
            Doc::Int(n) if i32::MIN <= n <= i32::MAX => Some(n as i32),
            _ => None,
        }
    }

    fn from_value(v: &ConfigValue) -> (r: Option<i32>) {
        match i64::from_value(v) {
            Some(n) => if i32::MIN as i64 <= n && n <= i32::MAX as i64 {
                Some(n as i32)
            } else {
                None
            },
            None => None,
        }
    }

    proof fn lemma_decode_encode(x: i32) {
    }
}

impl ToValue for u32 {
    open spec fn encode(x: u32) -> Doc {
        Doc::Int(x as int)
    }

    fn into_value(self) -> (r: ConfigValue) {
        ConfigValue::Number(Num::PosInt(self as u64))
    }
}

impl FromValue for u32 {
    open spec fn decode(d: Doc) -> Option<u32> {
        match untagged(d) {
            Doc::Int(n) if 0 <= n <= u32::MAX => Some(n as u32),
            _ => None,
        }
    }

    fn from_value(v: &ConfigValue) -> (r: Option<u32>) {
        match u64::from_value(v) {
            Some(n) => if n <= u32::MAX as u64 {
                Some(n as u32)
            } else {
                None
            },
            None => None,
        }
    }

    proof fn lemma_decode_encode(x: u32) {
    }
}

impl ToValue for &str {
    open spec fn encode(x: Seq<char>) -> Doc {
        Doc::Str(x)
    }

    fn into_value(self) -> (r: ConfigValue) {
        ConfigValue::String(self.to_owned())
    }
}

impl ToValue for String {
    open spec fn encode(x: Seq<char>) -> Doc {
        Doc::Str(x)
    }

    fn into_value(self) -> (r: ConfigValue) {
        ConfigValue::String(self)
    }
}

impl FromValue for String {
    open spec fn decode(d: Doc) -> Option<Seq<char>> {
        match untagged(d) {
            Doc::Str(s) => Some(s),
            _ => None,
        }
    }

    fn from_value(v: &ConfigValue) -> (r: Option<String>) {
        match v.untagged() {
            ConfigValue::String(s) => Some(s.clone()),
            _ => None,
        }
    }

    proof fn lemma_decode_encode(x: Seq<char>) {
    }
}

impl ToValue for ConfigValue {
    open spec fn encode(x: Doc) -> Doc {
        x
    }

    fn into_value(self) -> (r: ConfigValue) {
        self
    }
}

impl FromValue for ConfigValue {
    /// Any document reads as itself, tags and all.
    open spec fn decode(d: Doc) -> Option<Doc> {
        Some(d)
    }

    fn from_value(v: &ConfigValue) -> (r: Option<ConfigValue>) {
        Some(v.duplicate())
    }

    proof fn lemma_decode_encode(x: Doc) {
    }
}

impl<T: ToValue> ToValue for Vec<T> {
    open spec fn encode(x: Seq<T::V>) -> Doc {
        Doc::List(Seq::new(x.len(), |i: int| T::encode(x[i])))
    }

    fn into_value(self) -> (r: ConfigValue) {
        let ghost elements = self.deep_view();
        let mut items: Vec<ConfigValue> = Vec::new();
        for x in it: self
            invariant
                elements.len() == it.seq().len(),
                forall|j: int| 0 <= j < elements.len() ==> elements[j] == it.seq()[j].deep_view(),
                items.len() == it.index(),
                forall|j: int| 0 <= j < items.len() ==> (#[trigger] items[j])@ == T::encode(elements[j]),
        {
            items.push(x.into_value());
        }
        let r = ConfigValue::Sequence(items);
        assert(r@->List_0 =~= Self::encode(elements)->List_0);
        r
    }
}

impl<T: FromValue> FromValue for Vec<T> {
    open spec fn decode(d: Doc) -> Option<Seq<T::V>> {
        match untagged(d) {
            Doc::Null => Some(Seq::empty()),
            Doc::List(items) => if forall|i: int|
                0 <= i < items.len() ==> (#[trigger] T::decode(items[i])) is Some {
                Some(Seq::new(items.len(), |i: int| T::decode(items[i])->0))
            } else {
                None
            },
            _ => None,
        }
    }

    fn from_value(v: &ConfigValue) -> (r: Option<Vec<T>>) {
        match v.untagged() {
            ConfigValue::Null => {
                let out: Vec<T> = Vec::new();
                assert(out.deep_view() =~= Seq::empty());
                Some(out)
            },
            ConfigValue::Sequence(items) => {
                let ghost docs = untagged(v@)->List_0;
                let mut out: Vec<T> = Vec::new();
                let mut i: usize = 0;
                while i < items.len()
                    invariant
                        i <= items.len(),
                        untagged(v@) == Doc::List(docs),
                        docs.len() == items.len(),
                        forall|j: int| 0 <= j < items.len() ==> docs[j] == (#[trigger] items[j])@,
                        out.len() == i,
                        forall|j: int|
                            0 <= j < i ==> (#[trigger] T::decode(docs[j])) == Some(
                                out[j].deep_view(),
                            ),
                    decreases items.len() - i,
                {
                    match T::from_value(&items[i]) {
                        Some(x) => out.push(x),
                        None => {
                            assert(T::decode(docs[i as int]) is None);
                            return None;
                        },
                    }
                    i += 1;
                }
                assert(out.deep_view() =~= Self::decode(v@)->0);
                Some(out)
            },
            _ => None,
        }
    }

    proof fn lemma_decode_encode(x: Seq<T::V>) {
        let items = Self::encode(x)->List_0;
        assert forall|i: int| 0 <= i < items.len() implies (#[trigger] T::decode(items[i])) == Some(
            x[i],
        ) by {
            T::lemma_decode_encode(x[i]);
        }
        assert(Self::decode(Self::encode(x))->0 =~= x);
    }
}

} // verus!
