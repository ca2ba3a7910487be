//! Building strings a character at a time, and padding to a width.

use vstd::prelude::*;
use vstd::std_specs::iter::IteratorSpec;
use vstd::string::StringExecFns;

verus! {

/// Assumed of the standard library, not proved: `String::push` appends
/// the character to the end of the string and leaves the rest as it was.
pub assume_specification[ String::push ](s: &mut String, ch: char)
    ensures
        final(s)@ == old(s)@.push(ch),
;

/// The characters of `s`.
pub fn characters(s: &str) -> (chars: Vec<char>)
    ensures
        chars@ == s@,
{
    let mut chars: Vec<char> = Vec::new();
    let mut it = s.chars();
    loop
        invariant
            it.obeys_prophetic_iter_laws(),
            it.decrease() is Some,
            chars@ + it.remaining() == s@,
        ensures
            it.remaining().len() == 0,
        decreases it.decrease()->0,
    {
        match it.next() {
            Some(c) => {
                chars.push(c);
            },
            None => {
                break ;
            },
        }
    }
    assert(chars@ =~= chars@ + it.remaining());
    chars
}

/// `count` copies of `fill`.
pub open spec fn repeated(fill: char, count: nat) -> Seq<char> {
    Seq::new(count, |i: int| fill)
}

/// `s` right-aligned in a field of `width` characters: `fill` is put in
/// front until the width is reached; a longer `s` is left as it is.
pub open spec fn pad_left(s: Seq<char>, width: nat, fill: char) -> Seq<char> {
    if s.len() >= width {
        s
    } else {
        repeated(fill, (width - s.len()) as nat) + s
    }
}

/// Appends `count` copies of `fill` to `out`.
pub fn push_repeated(out: &mut String, fill: char, count: usize)
    ensures
        final(out)@ == old(out)@ + repeated(fill, count as nat),
{
    let mut i: usize = 0;
    assert(out@ =~= old(out)@ + repeated(fill, 0));
    while i < count
        invariant
            i <= count,
            out@ == old(out)@ + repeated(fill, i as nat),
        decreases count - i,
    {
        out.push(fill);
        i = i + 1;
        assert(out@ =~= old(out)@ + repeated(fill, i as nat));
    }
}

/// Appends `s`, right-aligned in `width` characters, to `out`.
pub fn push_padded(out: &mut String, s: &str, width: usize, fill: char)
    ensures
        final(out)@ == old(out)@ + pad_left(s@, width as nat, fill),
{
    let n = s.unicode_len();
    if n < width {
        push_repeated(out, fill, width - n);
    }
    out.append(s);
    assert(out@ =~= old(out)@ + pad_left(s@, width as nat, fill));
}

/// The items with `sep` between each two neighbours.
pub open spec fn joined(items: Seq<Seq<char>>, sep: Seq<char>) -> Seq<char>
    decreases items.len(),
{
    if items.len() == 0 {
        Seq::empty()
    } else if items.len() == 1 {
        items[0]
    } else {
        joined(items.drop_last(), sep) + sep + items.last()
    }
}

/// The strings as sequences of characters.
pub open spec fn texts(items: Seq<String>) -> Seq<Seq<char>> {
    items.map_values(|s: String| s@)
}

/// Joins the items from `from` up to, not including, `to` with `sep`
/// between each two neighbours.
pub fn join(items: &Vec<String>, from: usize, to: usize, sep: &str) -> (res: String)
    requires
        from <= to <= items.len(),
    ensures
        res@ == joined(texts(items@).subrange(from as int, to as int), sep@),
{
    let mut res = String::new();
    let ghost all = texts(items@).subrange(from as int, to as int);
    let mut i: usize = from;
    while i < to
        invariant
            from <= i <= to <= items.len(),
            all == texts(items@).subrange(from as int, to as int),
            res@ == joined(all.subrange(0, i - from), sep@),
        decreases to - i,
    {
        let ghost before = all.subrange(0, i - from);
        let ghost after = all.subrange(0, i - from + 1);
        proof {
            assert(after.drop_last() =~= before);
            assert(after.last() == items@[i as int]@);
        }
        if i > from {
            res.append(sep);
        }
        res.append(items[i].as_str());
        i = i + 1;
        assert(res@ =~= joined(after, sep@));
    }
    assert(all.subrange(0, to - from) =~= all);
    res
}

} // verus!
