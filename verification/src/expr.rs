//! Expressions of a component's source, as the engine holds them.
//!
//! The engine does not read expressions. Whoever parsed the source hands
//! over, for each expression, its source and the identifiers that occur in
//! it, in their order.

use vstd::prelude::*;

verus! {

/// An expression: its source, and the identifiers that occur in it.
#[derive(Debug)]
pub struct Code {
    pub source: String,
    pub idents: Vec<String>,
}

/// What a [`Code`] holds.
pub struct CodeView {
    pub source: Seq<char>,
    pub idents: Seq<Seq<char>>,
}

/// The texts of a vector, each by its view.
pub open spec fn texts_view(texts: Seq<String>) -> Seq<Seq<char>> {
    Seq::new(texts.len(), |i: int| texts[i]@)
}

/// The lists of texts of a vector, each by its view.
pub open spec fn lists_view(lists: Seq<Vec<String>>) -> Seq<Seq<Seq<char>>> {
    Seq::new(lists.len(), |i: int| texts_view(lists[i]@))
}

/// The list at position `i` of `lists`, and the empty list where there is
/// none.
pub open spec fn list_at(lists: Seq<Seq<Seq<char>>>, i: int) -> Seq<Seq<char>> {
    if 0 <= i < lists.len() {
        lists[i]
    } else {
        Seq::empty()
    }
}

/// The text at position `i` of `texts`, and the empty text where there is
/// none.
pub open spec fn text_at(texts: Seq<Seq<char>>, i: int) -> Seq<char> {
    if 0 <= i < texts.len() {
        texts[i]
    } else {
        Seq::empty()
    }
}

impl View for Code {
    type V = CodeView;

    open spec fn view(&self) -> CodeView {
        CodeView { source: self.source@, idents: texts_view(self.idents@) }
    }
}

/// A copy of a list of texts.
pub fn copy_texts(texts: &Vec<String>) -> (copy: Vec<String>)
    ensures
        texts_view(copy@) == texts_view(texts@),
{
    let mut copy: Vec<String> = Vec::new();
    let mut i: usize = 0;
    while i < texts.len()
        invariant
            i <= texts@.len(),
            copy@.len() == i,
            forall|j: int| 0 <= j < i ==> copy@[j]@ == texts@[j]@,
        decreases texts@.len() - i,
    {
        copy.push(texts[i].clone());
        i = i + 1;
    }
    proof {
        assert(texts_view(copy@) =~= texts_view(texts@));
    }
    copy
}

/// A copy of a list of lists of texts.
pub fn copy_lists(lists: &Vec<Vec<String>>) -> (copy: Vec<Vec<String>>)
    ensures
        lists_view(copy@) == lists_view(lists@),
{
    let mut copy: Vec<Vec<String>> = Vec::new();
    let mut i: usize = 0;
    while i < lists.len()
        invariant
            i <= lists@.len(),
            copy@.len() == i,
            forall|j: int| 0 <= j < i ==> texts_view(copy@[j]@) == texts_view(lists@[j]@),
        decreases lists@.len() - i,
    {
        copy.push(copy_texts(&lists[i]));
        i = i + 1;
    }
    proof {
        assert(lists_view(copy@) =~= lists_view(lists@));
    }
    copy
}

impl Code {
    /// The expression with the source `source` in which `idents` occur.
    pub fn new(source: String, idents: Vec<String>) -> (code: Self)
        ensures
            code.source == source,
            code.idents == idents,
    {
        Code { source, idents }
    }

    /// A copy of the expression.
    pub fn duplicate(&self) -> (copy: Self)
        ensures
            copy@ == self@,
    {
        Code { source: self.source.clone(), idents: copy_texts(&self.idents) }
    }
}

} // verus!
