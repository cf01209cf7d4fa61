//! The data that templates are rendered against.
use crate::text::same_text;
use vstd::prelude::*;

verus! {

/// The data that a template is rendered against: a tree of the kinds of
/// value that JSON has.
#[derive(Debug, PartialEq, Eq)]
pub enum Value {
    Null,
    Bool(bool),
    /// A number that is a signed 64-bit integer.
    Number(i64),
    /// Any other number: a fraction, or an integer too large for 64 bits
    /// with a sign.
    OtherNumber,
    String(String),
    Array(Vec<Value>),
    /// The fields of an object, in their order. Where a name stands twice,
    /// the first entry is the field.
    Object(Vec<(String, Value)>),
}

/// The mathematical value of a [`Value`].
pub ghost enum ValueView {
    Null,
    Bool(bool),
    Number(i64),
    OtherNumber,
    String(Seq<char>),
    Array(Seq<ValueView>),
    Object(Seq<(Seq<char>, ValueView)>),
}

/// The value of a context value.
pub open spec fn value_view(v: Value) -> ValueView
    decreases v, 0nat,
{
    match v {
        Value::Null => ValueView::Null,
        Value::Bool(b) => ValueView::Bool(b),
        Value::Number(n) => ValueView::Number(n),
        Value::OtherNumber => ValueView::OtherNumber,
        Value::String(s) => ValueView::String(s@),
        Value::Array(items) => ValueView::Array(values_view(items@)),
        Value::Object(entries) => ValueView::Object(entries_view(entries@)),
    }
}

/// The values of the items of an array, in order.
pub open spec fn values_view(s: Seq<Value>) -> Seq<ValueView>
    decreases s, 1nat,
{
    Seq::new(
        s.len(),
        |i: int|
            if 0 <= i < s.len() {
                value_view(s[i])
            } else {
                arbitrary()
            },
    )
}

/// The names and values of the fields of an object, in order.
pub open spec fn entries_view(s: Seq<(String, Value)>) -> Seq<(Seq<char>, ValueView)>
    decreases s, 1nat,
{
    Seq::new(
        s.len(),
        |i: int|
            if 0 <= i < s.len() {
                (s[i].0@, value_view(s[i].1))
            } else {
                arbitrary()
            },
    )
}

impl View for Value {
    type V = ValueView;

    open spec fn view(&self) -> ValueView {
        value_view(*self)
    }
}

/// The index of the first entry at or after `from` whose name is `name`, or
/// the number of entries where there is none.
pub open spec fn find_key(entries: Seq<(Seq<char>, ValueView)>, name: Seq<char>, from: int) -> int
    decreases entries.len() - from,
{
    if from >= entries.len() {
        entries.len() as int
    } else if from >= 0 && entries[from].0 == name {
        from
    } else {
        find_key(entries, name, from + 1)
    }
}

/// The field `name` of `ctx`: the value of the first entry of that name
/// where `ctx` is an object that has one, and nothing otherwise.
pub open spec fn field(ctx: ValueView, name: Seq<char>) -> Option<ValueView> {
    match ctx {
        ValueView::Object(entries) => {
            let i = find_key(entries, name, 0);
            if 0 <= i < entries.len() {
                Some(entries[i].1)
            } else {
                None
            }
        },
        _ => None,
    }
}

impl Value {
    /// The field `key` of an object; `None` where there is no such field
    /// or `self` is no object.
    pub fn get(&self, key: &str) -> (r: Option<&Value>)
        ensures
            match r {
                Some(v) => field(self@, key@) == Some(v@),
                None => field(self@, key@) is None,
            },
    {
        match self {
            Value::Object(entries) => {
                let ghost view = entries_view(entries@);
                let mut i: usize = 0;
                while i < entries.len()
                    invariant
                        i <= entries@.len(),
                        view == entries_view(entries@),
                        self@ == ValueView::Object(view),
                        find_key(view, key@, 0) == find_key(view, key@, i as int),
                    decreases entries@.len() - i,
                {
                    if same_text(entries[i].0.as_str(), key) {
                        return Some(&entries[i].1);
                    }
                    i += 1;
                }
                None
            },
            _ => None,
        }
    }
}

} // verus!
