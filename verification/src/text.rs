//! Small helpers on strings.

use vstd::prelude::*;

verus! {

/// `String::push` of the standard library: the character is appended and
/// nothing else changes.
pub assume_specification[ String::push ](s: &mut String, ch: char)
    ensures
        final(s)@ == old(s)@.push(ch),
;

/// Whether `text` begins with `prefix`.
pub open spec fn has_prefix(text: Seq<char>, prefix: Seq<char>) -> bool {
    prefix.len() <= text.len() && text.take(prefix.len() as int) == prefix
}

/// Whether `text` begins with `prefix`.
pub fn starts_with(text: &str, prefix: &str) -> (found: bool)
    ensures
        found == has_prefix(text@, prefix@),
{
    let n = prefix.unicode_len();
    if text.unicode_len() < n {
        return false;
    }
    let mut i: usize = 0;
    while i < n
        invariant
            i <= n,
            n == prefix@.len(),
            n <= text@.len(),
            text@.take(i as int) == prefix@.take(i as int),
        decreases n - i,
    {
        if text.get_char(i) != prefix.get_char(i) {
            proof {
                assert(text@.take(n as int)[i as int] != prefix@[i as int]);
            }
            return false;
        }
        proof {
            assert(text@.take(i + 1) =~= text@.take(i as int).push(text@[i as int]));
            assert(prefix@.take(i + 1) =~= prefix@.take(i as int).push(prefix@[i as int]));
        }
        i = i + 1;
    }
    proof {
        assert(prefix@.take(n as int) =~= prefix@);
    }
    true
}

/// The characters of `text` from position `from` on.
pub fn tail(text: &str, from: usize) -> (rest: String)
    requires
        from <= text@.len(),
    ensures
        rest@ == text@.skip(from as int),
{
    let n = text.unicode_len();
    let mut rest = String::new();
    let mut i: usize = from;
    while i < n
        invariant
            from <= i <= n,
            n == text@.len(),
            rest@ == text@.subrange(from as int, i as int),
        decreases n - i,
    {
        rest.push(text.get_char(i));
        proof {
            let upto = text@.subrange(from as int, i as int);
            assert(text@.subrange(from as int, i + 1) =~= upto.push(text@[i as int]));
        }
        i = i + 1;
    }
    proof {
        assert(text@.subrange(from as int, n as int) =~= text@.skip(from as int));
    }
    rest
}

/// Whether two texts hold the same characters.
pub fn same_text(a: &str, b: &str) -> (same: bool)
    ensures
        same == (a@ == b@),
{
    let n = a.unicode_len();
    if b.unicode_len() != n {
        return false;
    }
    let mut i: usize = 0;
    while i < n
        invariant
            i <= n,
            n == a@.len(),
            n == b@.len(),
            forall|j: int| 0 <= j < i ==> a@[j] == b@[j],
        decreases n - i,
    {
        if a.get_char(i) != b.get_char(i) {
            return false;
        }
        i = i + 1;
    }
    proof {
        assert(a@ =~= b@);
    }
    true
}

/// `text` without the blanks at its beginning.
pub open spec fn skip_blanks(text: Seq<char>) -> Seq<char>
    decreases text.len(),
{
    if text.len() > 0 && text[0] == ' ' {
        skip_blanks(text.drop_first())
    } else {
        text
    }
}

/// `text` without the blanks at its end.
pub open spec fn drop_blanks(text: Seq<char>) -> Seq<char>
    decreases text.len(),
{
    if text.len() > 0 && text.last() == ' ' {
        drop_blanks(text.drop_last())
    } else {
        text
    }
}

/// `text` without the blanks at its beginning and at its end.
pub open spec fn trimmed(text: Seq<char>) -> Seq<char> {
    drop_blanks(skip_blanks(text))
}

/// `text` without the blanks at its beginning and at its end.
pub fn trim(text: &str) -> (inner: String)
    ensures
        inner@ == trimmed(text@),
{
    let n = text.unicode_len();
    let mut from: usize = 0;
    proof {
        assert(text@.skip(0) =~= text@);
    }
    while from < n && text.get_char(from) == ' '
        invariant
            from <= n,
            n == text@.len(),
            skip_blanks(text@) == skip_blanks(text@.skip(from as int)),
        decreases n - from,
    {
        proof {
            assert(text@.skip(from as int).drop_first() =~= text@.skip(from + 1));
        }
        from = from + 1;
    }
    let ghost rest = text@.skip(from as int);
    proof {
        assert(skip_blanks(rest) == rest) by {
            if rest.len() > 0 {
                assert(rest[0] == text@[from as int]);
            }
        }
        assert(rest.take(rest.len() as int) =~= rest);
    }
    let mut upto: usize = n;
    while upto > from && text.get_char(upto - 1) == ' '
        invariant
            from <= upto <= n,
            n == text@.len(),
            rest == text@.skip(from as int),
            drop_blanks(rest) == drop_blanks(rest.take(upto - from)),
        decreases upto,
    {
        proof {
            let here = rest.take(upto - from);
            assert(here.last() == text@[upto - 1]);
            assert(here.drop_last() =~= rest.take(upto - from - 1));
        }
        upto = upto - 1;
    }
    proof {
        let here = rest.take(upto - from);
        assert(drop_blanks(here) == here) by {
            if here.len() > 0 {
                assert(here.last() == text@[upto - 1]);
            }
        }
        assert(here =~= text@.subrange(from as int, upto as int));
    }
    let mut inner = String::new();
    let mut i: usize = from;
    while i < upto
        invariant
            from <= i <= upto <= n,
            n == text@.len(),
            inner@ == text@.subrange(from as int, i as int),
        decreases upto - i,
    {
        inner.push(text.get_char(i));
        proof {
            let before = text@.subrange(from as int, i as int);
            assert(text@.subrange(from as int, i + 1) =~= before.push(text@[i as int]));
        }
        i = i + 1;
    }
    inner
}

} // verus!
