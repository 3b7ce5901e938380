//! Dynamic values.

use vstd::prelude::*;

verus! {

/// A number of the dynamic value model: an unsigned integer, a signed
/// integer, or a 64-bit IEEE-754 number given by its bit pattern. What an
/// integer is goes by its value: `NegInt(5)` is the integer 5 as `PosInt(5)`
/// is.
#[derive(Clone, Copy, Debug, PartialEq, Eq, Structural)]
pub enum Number {
    PosInt(u64),
    NegInt(i64),
    Float(u64),
}

impl Number {
    /// The number as an unsigned integer, where it is an integer and not
    /// negative, whichever variant holds it.
    pub open spec fn unsigned(self) -> Option<u64> {
        match self {
            Number::PosInt(u) => Some(u),
            Number::NegInt(i) => if i >= 0 {
                Some(i as u64)
            } else {
                None
            },
            Number::Float(_) => None,
        }
    }

    /// The number as an unsigned integer, where it is one.
    pub fn as_u64(&self) -> (r: Option<u64>)
        ensures
            r == self.unsigned(),
    {
        match self {
            Number::PosInt(u) => Some(*u),
            Number::NegInt(i) => if *i >= 0 {
                Some(*i as u64)
            } else {
                None
            },
            Number::Float(_) => None,
        }
    }
}

/// A dynamically typed value, as it crosses the boundary to the caller.
#[derive(Debug, PartialEq, Eq)]
pub enum Dynamic {
    Null,
    Bool(bool),
    Number(Number),
    Text(String),
    Array(Vec<Dynamic>),
    Object(Vec<(String, Dynamic)>),
}

/// What a dynamic value is, with its texts and lists as sequences.
pub enum DynamicView {
    Null,
    Bool(bool),
    Number(Number),
    Text(Seq<char>),
    Array(Seq<DynamicView>),
    Object(Seq<(Seq<char>, DynamicView)>),
}

/// The view of a dynamic value: the same value, with sequences in place of
/// its strings and vectors.
pub open spec fn view_of(value: Dynamic) -> DynamicView
    decreases value,
{
    match value {
        Dynamic::Null => DynamicView::Null,
        Dynamic::Bool(b) => DynamicView::Bool(b),
        Dynamic::Number(n) => DynamicView::Number(n),
        Dynamic::Text(s) => DynamicView::Text(s@),
        Dynamic::Array(items) => DynamicView::Array(
            Seq::new(
                items@.len(),
                |i: int|
                    if 0 <= i < items@.len() {
                        view_of(items@[i])
                    } else {
                        DynamicView::Null
                    },
            ),
        ),
        Dynamic::Object(fields) => DynamicView::Object(
            Seq::new(
                fields@.len(),
                |i: int|
                    if 0 <= i < fields@.len() {
                        (fields@[i].0@, view_of(fields@[i].1))
                    } else {
                        (Seq::empty(), DynamicView::Null)
                    },
            ),
        ),
    }
}

impl View for Dynamic {
    type V = DynamicView;

    open spec fn view(&self) -> DynamicView {
        view_of(*self)
    }
}

/// The views of a list of values.
pub open spec fn item_views(items: Seq<Dynamic>) -> Seq<DynamicView> {
    Seq::new(items.len(), |i: int| items[i]@)
}

/// The views of the members of an object.
pub open spec fn member_views(fields: Seq<(String, Dynamic)>) -> Seq<(Seq<char>, DynamicView)> {
    Seq::new(fields.len(), |i: int| (fields[i].0@, fields[i].1@))
}

/// The view of an array is the array of its items' views.
pub proof fn lemma_array_view(items: Vec<Dynamic>)
    ensures
        Dynamic::Array(items)@ == DynamicView::Array(item_views(items@)),
{
    assert(Dynamic::Array(items)@->Array_0 =~= item_views(items@));
}

/// The view of an object is the list of its members' views.
pub proof fn lemma_object_view(fields: Vec<(String, Dynamic)>)
    ensures
        Dynamic::Object(fields)@ == DynamicView::Object(member_views(fields@)),
{
    assert(Dynamic::Object(fields)@->Object_0 =~= member_views(fields@));
}

impl Clone for Dynamic {
    /// A copy with the same view.
    #[verifier::loop_isolation(false)]
    fn clone(&self) -> (r: Self)
        ensures
            r@ == self@,
        decreases self,
    {
        match self {
            Dynamic::Null => Dynamic::Null,
            Dynamic::Bool(b) => Dynamic::Bool(*b),
            Dynamic::Number(n) => Dynamic::Number(*n),
            Dynamic::Text(s) => Dynamic::Text(s.clone()),
            Dynamic::Array(items) => {
                let mut copy: Vec<Dynamic> = Vec::new();
                let mut i: usize = 0;
                while i < items.len()
                    invariant
                        i <= items.len(),
                        copy@.len() == i,
                        forall|k: int| 0 <= k < i ==> copy@[k]@ == items@[k]@,
                    decreases items.len() - i,
                {
                    assert(decreases_to!(items => items@));
                    assert(decreases_to!(items@ => items@[i as int]));
                    copy.push(items[i].clone());
                    i += 1;
                }
                proof {
                    lemma_array_view(copy);
                    lemma_array_view(*items);
                    assert(item_views(copy@) =~= item_views(items@));
                }
                Dynamic::Array(copy)
            },
            Dynamic::Object(fields) => {
                let mut copy: Vec<(String, Dynamic)> = Vec::new();
                let mut i: usize = 0;
                while i < fields.len()
                    invariant
                        i <= fields.len(),
                        copy@.len() == i,
                        forall|k: int|
                            0 <= k < i ==> copy@[k].0@ == fields@[k].0@ && copy@[k].1@
                                == fields@[k].1@,
                    decreases fields.len() - i,
                {
                    assert(decreases_to!(fields => fields@));
                    assert(decreases_to!(fields@ => fields@[i as int]));
                    copy.push((fields[i].0.clone(), fields[i].1.clone()));
                    i += 1;
                }
                proof {
                    lemma_object_view(copy);
                    lemma_object_view(*fields);
                    assert(member_views(copy@) =~= member_views(fields@));
                }
                Dynamic::Object(copy)
            },
        }
    }
}

} // verus!
