//! Text as a sequence of characters: splitting at a separator and joining
//! again.

use vstd::prelude::*;

verus! {

/// Taken on trust of the standard library: `String::push` appends `c` to the
/// end of `s` and leaves the characters before it as they are.
pub assume_specification[ String::push ](s: &mut String, c: char)
    ensures
        final(s)@ == old(s)@.push(c),
;

/// The pieces of `s` between the occurrences of `sep`, in order. A string
/// with `n` separators has `n + 1` pieces, some of which may be empty.
pub open spec fn split(s: Seq<char>, sep: char) -> Seq<Seq<char>>
    decreases s.len(),
{
    if s.len() == 0 {
        seq![Seq::<char>::empty()]
    } else {
        let before = split(s.drop_last(), sep);
        if s.last() == sep {
            before.push(Seq::<char>::empty())
        } else {
            before.drop_last().push(before.last().push(s.last()))
        }
    }
}

/// The pieces `parts` with `sep` between each two neighbours.
pub open spec fn join(parts: Seq<Seq<char>>, sep: char) -> Seq<char>
    decreases parts.len(),
{
    if parts.len() == 0 {
        Seq::<char>::empty()
    } else if parts.len() == 1 {
        parts[0]
    } else {
        join(parts.drop_last(), sep).push(sep) + parts.last()
    }
}

/// No piece in `parts` holds `sep`.
pub open spec fn none_contains(parts: Seq<Seq<char>>, sep: char) -> bool {
    forall|i: int, j: int|
        0 <= i < parts.len() && 0 <= j < parts[i].len() ==> (#[trigger] parts[i][j]) != sep
}

/// Splitting yields at least one piece, no piece holds the separator, and
/// joining the pieces gives the string back.
pub proof fn lemma_split(s: Seq<char>, sep: char)
    ensures
        split(s, sep).len() >= 1,
        none_contains(split(s, sep), sep),
        join(split(s, sep), sep) == s,
    decreases s.len(),
{
    if s.len() > 0 {
        let t = s.drop_last();
        lemma_split(t, sep);
        let before = split(t, sep);
        if s.last() == sep {
            let now = before.push(Seq::<char>::empty());
            assert(now.drop_last() =~= before);
        } else {
            let last = before.last().push(s.last());
            let now = before.drop_last().push(last);
            assert(now.drop_last() =~= before.drop_last());
            if before.len() > 1 {
                assert(join(before, sep) == join(before.drop_last(), sep).push(sep)
                    + before.last());
                assert(s =~= t.push(s.last()));
            }
        }
    }
}

/// A string without the separator is its own single piece.
pub proof fn lemma_split_whole(s: Seq<char>, sep: char)
    requires
        forall|j: int| 0 <= j < s.len() ==> s[j] != sep,
    ensures
        split(s, sep) == seq![s],
    decreases s.len(),
{
    if s.len() == 0 {
        assert(s =~= Seq::<char>::empty());
    } else {
        lemma_split_whole(s.drop_last(), sep);
        assert(s.drop_last().push(s.last()) =~= s);
    }
}

/// After a separator, a string without the separator is one more piece.
pub proof fn lemma_split_append(a: Seq<char>, b: Seq<char>, sep: char)
    requires
        forall|j: int| 0 <= j < b.len() ==> b[j] != sep,
    ensures
        split(a.push(sep) + b, sep) == split(a, sep).push(b),
    decreases b.len(),
{
    let s = a.push(sep) + b;
    if b.len() == 0 {
        assert(s.drop_last() =~= a);
        assert(b =~= Seq::<char>::empty());
    } else {
        let b0 = b.drop_last();
        lemma_split_append(a, b0, sep);
        assert(s.drop_last() =~= a.push(sep) + b0);
        let before = split(a, sep).push(b0);
        assert(before.last().push(b.last()) =~= b);
    }
}

/// Splitting undoes joining when no piece holds the separator.
pub proof fn lemma_split_join(parts: Seq<Seq<char>>, sep: char)
    requires
        parts.len() >= 1,
        none_contains(parts, sep),
    ensures
        split(join(parts, sep), sep) == parts,
    decreases parts.len(),
{
    if parts.len() == 1 {
        lemma_split_whole(parts[0], sep);
    } else {
        let init = parts.drop_last();
        lemma_split_join(init, sep);
        lemma_split_append(join(init, sep), parts.last(), sep);
    }
}

/// What holds of the separator and of every character of every piece holds
/// of every character of the joined text.
pub proof fn lemma_join_chars(p: Seq<Seq<char>>, sep: char, ok: spec_fn(char) -> bool)
    requires
        ok(sep),
        forall|i: int, j: int| 0 <= i < p.len() && 0 <= j < p[i].len() ==> ok(#[trigger] p[i][j]),
    ensures
        forall|j: int| 0 <= j < join(p, sep).len() ==> ok(#[trigger] join(p, sep)[j]),
    decreases p.len(),
{
    if p.len() > 1 {
        let init = p.drop_last();
        lemma_join_chars(init, sep, ok);
        let h = join(init, sep);
    }
}

/// The characters of `s`.
pub fn chars_of(s: &str) -> (v: Vec<char>)
    ensures
        v@ == s@,
{
    let mut v: Vec<char> = Vec::new();
    for c in it: s.chars()
        invariant
            v@ == it.seq().take(it.index()),
    {
        v.push(c);
    }
    v
}

/// The texts that the vectors `parts` hold.
pub open spec fn texts(parts: Seq<Vec<char>>) -> Seq<Seq<char>> {
    Seq::new(parts.len(), |i: int| parts[i]@)
}

/// Cuts `s` at every occurrence of `sep`.
pub fn split_chars(s: &[char], sep: char) -> (parts: Vec<Vec<char>>)
    ensures
        texts(parts@) == split(s@, sep),
        parts@.len() >= 1,
{
    let mut parts: Vec<Vec<char>> = Vec::new();
    let mut piece: Vec<char> = Vec::new();
    let mut i: usize = 0;
    while i < s.len()
        invariant
            i <= s.len(),
            split(s@.take(i as int), sep).len() == parts@.len() + 1,
            forall|k: int|
                0 <= k < parts@.len() ==> (#[trigger] parts@[k])@ == split(
                    s@.take(i as int),
                    sep,
                )[k],
            piece@ == split(s@.take(i as int), sep).last(),
        decreases s.len() - i,
    {
        let c = s[i];
        proof {
            let p = s@.take(i as int + 1);
            assert(p.drop_last() =~= s@.take(i as int));
        }
        if c == sep {
            parts.push(piece);
            piece = Vec::new();
        } else {
            piece.push(c);
        }
        i += 1;
    }
    proof {
        assert(s@.take(i as int) =~= s@);
    }
    parts.push(piece);
    parts
}

} // verus!
