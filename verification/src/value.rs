//! The values that cells hold, and how they are written into a text.

use vstd::prelude::*;
use crate::decimal::{decimal, signed_decimal, write_signed, write_unsigned};
use crate::text::same_text;

verus! {

/// The value of a cell.
#[derive(Debug)]
pub enum Value {
    Unit,
    U32(u32),
    I32(i32),
    Bool(bool),
    Str(String),
    List(Vec<i32>),
}

/// What a [`Value`] holds.
pub enum ValueView {
    Unit,
    U32(u32),
    I32(i32),
    Bool(bool),
    Str(Seq<char>),
    List(Seq<i32>),
}

impl View for Value {
    type V = ValueView;

    open spec fn view(&self) -> ValueView {
        match self {
            Value::Unit => ValueView::Unit,
            Value::U32(n) => ValueView::U32(*n),
            Value::I32(n) => ValueView::I32(*n),
            Value::Bool(b) => ValueView::Bool(*b),
            Value::Str(text) => ValueView::Str(text@),
            Value::List(items) => ValueView::List(items@),
        }
    }
}

/// The values of a vector, each by its view.
pub open spec fn values_view(values: Seq<Value>) -> Seq<ValueView> {
    Seq::new(values.len(), |i: int| values[i]@)
}

/// The first `k` items of a list as they stand between its brackets:
/// each in decimal, with a comma and a blank between two.
pub open spec fn display_items(items: Seq<i32>, k: int) -> Seq<char>
    decreases k,
{
    if k <= 0 {
        Seq::empty()
    } else if k == 1 {
        signed_decimal(items[0] as int)
    } else {
        display_items(items, k - 1) + ", "@ + signed_decimal(items[k - 1] as int)
    }
}

/// The text that stands for a value: a number in decimal, `true` or
/// `false`, a text as it is, a list in brackets, `()` for the unit value.
pub open spec fn display(value: ValueView) -> Seq<char> {
    match value {
        ValueView::Unit => "()"@,
        ValueView::U32(n) => decimal(n as nat),
        ValueView::I32(n) => signed_decimal(n as int),
        ValueView::Bool(b) => if b {
            "true"@
        } else {
            "false"@
        },
        ValueView::Str(text) => text,
        ValueView::List(items) => "["@ + display_items(items, items.len() as int) + "]"@,
    }
}

/// What the standard library shows of the text `text` for debugging: the
/// text between quotes, with what cannot stand there escaped.
pub uninterp spec fn debug_text(text: Seq<char>) -> Seq<char>;

/// The formatting of a `str` with `{:?}` by the standard library. The
/// contract names the result; it says nothing more of it.
#[verifier::external_body]
fn debug_of(text: &str) -> (shown: String)
    ensures
        shown@ == debug_text(text@),
{
    format!("{:?}", text)
}

/// The text that stands for a value where it is shown for debugging: a
/// text as the standard library shows one, any other value as it is
/// displayed.
pub open spec fn display_debug(value: ValueView) -> Seq<char> {
    match value {
        ValueView::Str(text) => debug_text(text),
        _ => display(value),
    }
}

fn same_items(a: &Vec<i32>, b: &Vec<i32>) -> (same: bool)
    ensures
        same == (a@ == b@),
{
    if a.len() != b.len() {
        return false;
    }
    let mut i: usize = 0;
    while i < a.len()
        invariant
            i <= a@.len(),
            a@.len() == b@.len(),
            forall|j: int| 0 <= j < i ==> a@[j] == b@[j],
        decreases a@.len() - i,
    {
        if a[i] != b[i] {
            return false;
        }
        i = i + 1;
    }
    proof {
        assert(a@ =~= b@);
    }
    true
}

impl Value {
    /// Appends the text that stands for the value to `to`.
    pub fn write(&self, to: &mut String)
        ensures
            final(to)@ == old(to)@ + display(self@),
    {
        match self {
            Value::Unit => {
                to.append("()");
            },
            Value::U32(n) => {
                write_unsigned(*n as u64, to);
            },
            Value::I32(n) => {
                write_signed(*n as i64, to);
            },
            Value::Bool(b) => {
                if *b {
                    to.append("true");
                } else {
                    to.append("false");
                }
            },
            Value::Str(text) => {
                to.append(text.as_str());
            },
            Value::List(items) => {
                to.append("[");
                let ghost opened = to@;
                let mut k: usize = 0;
                while k < items.len()
                    invariant
                        k <= items@.len(),
                        to@ == opened + display_items(items@, k as int),
                    decreases items@.len() - k,
                {
                    if k > 0 {
                        to.append(", ");
                    }
                    write_signed(items[k] as i64, to);
                    proof {
                        assert(to@ =~= opened + display_items(items@, k + 1));
                    }
                    k = k + 1;
                }
                to.append("]");
                proof {
                    assert(to@ =~= old(to)@ + display(self@));
                }
            },
        }
    }

    /// Appends the text that stands for the value where it is shown for
    /// debugging to `to`.
    pub fn write_debug(&self, to: &mut String)
        ensures
            final(to)@ == old(to)@ + display_debug(self@),
    {
        match self {
            Value::Str(text) => {
                let shown = debug_of(text.as_str());
                to.append(shown.as_str());
            },
            _ => {
                self.write(to);
            },
        }
    }

    /// Whether two values are equal.
    pub fn same(&self, other: &Value) -> (same: bool)
        ensures
            same == (self@ == other@),
    {
        match (self, other) {
            (Value::Unit, Value::Unit) => true,
            (Value::U32(a), Value::U32(b)) => *a == *b,
            (Value::I32(a), Value::I32(b)) => *a == *b,
            (Value::Bool(a), Value::Bool(b)) => *a == *b,
            (Value::Str(a), Value::Str(b)) => same_text(a.as_str(), b.as_str()),
            (Value::List(a), Value::List(b)) => same_items(a, b),
            _ => false,
        }
    }

    /// A copy of the value.
    pub fn duplicate(&self) -> (copy: Value)
        ensures
            copy@ == self@,
    {
        match self {
            Value::Unit => Value::Unit,
            Value::U32(n) => Value::U32(*n),
            Value::I32(n) => Value::I32(*n),
            Value::Bool(b) => Value::Bool(*b),
            Value::Str(text) => Value::Str(text.clone()),
            Value::List(items) => {
                let mut copy: Vec<i32> = Vec::new();
                let mut i: usize = 0;
                while i < items.len()
                    invariant
                        i <= items@.len(),
                        copy@ == items@.take(i as int),
                    decreases items@.len() - i,
                {
                    copy.push(items[i]);
                    proof {
                        assert(items@.take(i + 1) =~= items@.take(i as int).push(items@[i as int]));
                    }
                    i = i + 1;
                }
                proof {
                    assert(items@.take(items@.len() as int) =~= items@);
                }
                Value::List(copy)
            },
        }
    }
}

impl ValueView {
    /// The list with `item` at its end; any other value as it is.
    pub open spec fn pushed(self, item: i32) -> ValueView {
        match self {
            ValueView::List(items) => ValueView::List(items.push(item)),
            _ => self,
        }
    }

    /// The empty list in place of a list; any other value as it is.
    pub open spec fn cleared(self) -> ValueView {
        match self {
            ValueView::List(items) => ValueView::List(Seq::empty()),
            _ => self,
        }
    }
}

impl Value {
    /// Appends `item` to a list. Any other value stays as it is.
    pub fn push(&mut self, item: i32)
        ensures
            final(self)@ == old(self)@.pushed(item),
    {
        match self {
            Value::List(items) => {
                items.push(item);
            },
            _ => {},
        }
    }

    /// Empties a list. Any other value stays as it is.
    pub fn clear(&mut self)
        ensures
            final(self)@ == old(self)@.cleared(),
    {
        match self {
            Value::List(items) => {
                items.clear();
            },
            _ => {},
        }
    }
}

/// A list to which an item is appended and which is then emptied stands in
/// a text as the empty list does. If it was empty before, the text is the
/// one from before the item was appended.
pub proof fn push_then_clear_shows_empty(items: Seq<i32>, item: i32)
    ensures
        display(ValueView::List(items).pushed(item).cleared()) == display(
            ValueView::List(Seq::empty()),
        ),
        items.len() == 0 ==> display(ValueView::List(items).pushed(item).cleared()) == display(
            ValueView::List(items),
        ),
{
    if items.len() == 0 {
        assert(items =~= Seq::<i32>::empty());
    }
}

} // verus!
