use vstd::prelude::*;

verus! {

/// A generated value: one instance of an element type, a record or a tagged union.
#[derive(Debug, PartialEq, Eq)]
pub enum Value {
    U8(u8),
    I8(i8),
    Bool(bool),
    Text(String),
    Absent,
    Present(Box<Value>),
    List(Vec<Value>),
    Record(Vec<Value>),
    Variant(String, Vec<Value>),
}

/// The mathematical content of a [`Value`].
pub enum ValueView {
    U8(u8),
    I8(i8),
    Bool(bool),
    Text(Seq<char>),
    Absent,
    Present(Box<ValueView>),
    List(Seq<ValueView>),
    Record(Seq<ValueView>),
    Variant(Seq<char>, Seq<ValueView>),
}

/// What a value stands for, with every string and vector replaced by its sequence.
pub open spec fn content(v: Value) -> ValueView
    decreases v,
{
    match v {
        Value::U8(n) => ValueView::U8(n),
        Value::I8(n) => ValueView::I8(n),
        Value::Bool(b) => ValueView::Bool(b),
        Value::Text(s) => ValueView::Text(s@),
        Value::Absent => ValueView::Absent,
        Value::Present(inner) => ValueView::Present(Box::new(content(*inner))),
        Value::List(items) => ValueView::List(
            Seq::new(
                items@.len(),
                |i: int|
                    if 0 <= i < items@.len() {
                        content(items@[i])
                    } else {
                        ValueView::Absent
                    },
            ),
        ),
        Value::Record(fields) => ValueView::Record(
            Seq::new(
                fields@.len(),
                |i: int|
                    if 0 <= i < fields@.len() {
                        content(fields@[i])
                    } else {
                        ValueView::Absent
                    },
            ),
        ),
        Value::Variant(tag, fields) => ValueView::Variant(
            tag@,
            Seq::new(
                fields@.len(),
                |i: int|
                    if 0 <= i < fields@.len() {
                        content(fields@[i])
                    } else {
                        ValueView::Absent
                    },
            ),
        ),
    }
}

/// The contents of a sequence of values, in order.
pub open spec fn contents(vs: Seq<Value>) -> Seq<ValueView> {
    Seq::new(vs.len(), |i: int| content(vs[i]))
}

impl View for Value {
    type V = ValueView;

    open spec fn view(&self) -> ValueView {
        content(*self)
    }
}

/// A copy of every value of `vs`, in order.
pub fn duplicate_all(vs: &Vec<Value>) -> (out: Vec<Value>)
    ensures
        contents(out@) == contents(vs@),
    decreases vs,
{
    let mut out: Vec<Value> = Vec::new();
    let mut i: usize = 0;
    while i < vs.len()
        invariant
            i <= vs.len(),
            out.len() == i,
            forall|k: int| 0 <= k < i ==> content(out@[k]) == content(vs@[k]),
        decreases vs.len() - i,
    {
        let item = vs[i].duplicate();
        out.push(item);
        i += 1;
    }
    assert(contents(out@) =~= contents(vs@));
    out
}

/// The content of a list, record or variant is that of its items, in order.
pub proof fn lemma_items_content(items: Vec<Value>)
    ensures
        Value::List(items)@ == ValueView::List(contents(items@)),
        Value::Record(items)@ == ValueView::Record(contents(items@)),
        forall|tag: String| #[trigger]
            Value::Variant(tag, items)@ == ValueView::Variant(tag@, contents(items@)),
{
    let list = content(Value::List(items));
    assert(list->List_0 =~= contents(items@));
    let record = content(Value::Record(items));
    assert(record->Record_0 =~= contents(items@));
    assert forall|tag: String| #[trigger]
        Value::Variant(tag, items)@ == ValueView::Variant(tag@, contents(items@)) by {
        let variant = content(Value::Variant(tag, items));
        assert(variant->Variant_1 =~= contents(items@));
    }
}

impl Value {
    /// A copy of this value with the same content.
    pub fn duplicate(&self) -> (out: Value)
        ensures
            out@ == self@,
        decreases self,
    {
        match self {
            Value::U8(n) => Value::U8(*n),
            Value::I8(n) => Value::I8(*n),
            Value::Bool(b) => Value::Bool(*b),
            Value::Text(s) => Value::Text(s.clone()),
            Value::Absent => Value::Absent,
            Value::Present(inner) => Value::Present(Box::new(inner.duplicate())),
            Value::List(items) => {
                let copy = duplicate_all(items);
                proof {
                    lemma_items_content(copy);
                    lemma_items_content(*items);
                }
                Value::List(copy)
            },
            Value::Record(fields) => {
                let copy = duplicate_all(fields);
                proof {
                    lemma_items_content(copy);
                    lemma_items_content(*fields);
                }
                Value::Record(copy)
            },
            Value::Variant(tag, fields) => {
                let copy = duplicate_all(fields);
                let name = tag.clone();
                proof {
                    lemma_items_content(copy);
                    lemma_items_content(*fields);
                }
                Value::Variant(name, copy)
            },
        }
    }
}

} // verus!
