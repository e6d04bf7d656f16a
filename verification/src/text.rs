use vstd::prelude::*;

verus! {

/// Appends one character to a string: `String::push` of std, which puts the
/// character at the end and leaves the rest as it was.
#[verifier::external_body]
pub(crate) fn push_char(s: &mut String, c: char)
    ensures
        final(s)@ == old(s)@.push(c),
{
    s.push(c)
}

/// Whether `prefix` is what `s` starts with.
pub open spec fn is_prefix(prefix: Seq<char>, s: Seq<char>) -> bool {
    prefix.len() <= s.len() && s.take(prefix.len() as int) == prefix
}

/// Whether `suffix` is what `s` ends with.
pub open spec fn is_suffix(suffix: Seq<char>, s: Seq<char>) -> bool {
    suffix.len() <= s.len() && s.skip(s.len() - suffix.len()) == suffix
}

/// The characters of a string, in order.
pub fn chars_of(s: &str) -> (chars: Vec<char>)
    ensures
        chars@ == s@,
{
    let mut chars: Vec<char> = Vec::new();
    for c in it: s.chars()
        invariant
            it.seq() == s@,
            chars@ == it.seq().take(it.index() as int),
    {
        chars.push(c);
        assert(chars@ =~= it.seq().take(it.index() + 1));
    }
    assert(chars@ =~= s@);
    chars
}

/// The string made of the characters `chars[from..to]`.
pub fn string_of(chars: &Vec<char>, from: usize, to: usize) -> (s: String)
    requires
        from <= to <= chars@.len(),
    ensures
        s@ == chars@.subrange(from as int, to as int),
{
    let mut s = String::new();
    let mut i: usize = from;
    while i < to
        invariant
            from <= i <= to <= chars@.len(),
            s@ == chars@.subrange(from as int, i as int),
        decreases to - i,
    {
        push_char(&mut s, chars[i]);
        assert(s@ =~= chars@.subrange(from as int, i + 1));
        i = i + 1;
    }
    s
}

/// Whether two sequences of characters are the same.
pub fn same_chars(a: &Vec<char>, b: &Vec<char>) -> (same: bool)
    ensures
        same == (a@ == b@),
{
    if a.len() != b.len() {
        return false;
    }
    let mut i: usize = 0;
    while i < a.len()
        invariant
            i <= a@.len(),
            a@.len() == b@.len(),
            forall|k: int| 0 <= k < i ==> a@[k] == b@[k],
        decreases a@.len() - i,
    {
        if a[i] != b[i] {
            return false;
        }
        i = i + 1;
    }
    assert(a@ =~= b@);
    true
}

/// Whether `s` starts with `prefix`.
pub fn starts_with(s: &Vec<char>, prefix: &Vec<char>) -> (res: bool)
    ensures
        res == is_prefix(prefix@, s@),
{
    if prefix.len() > s.len() {
        return false;
    }
    let mut i: usize = 0;
    while i < prefix.len()
        invariant
            i <= prefix@.len() <= s@.len(),
            forall|k: int| 0 <= k < i ==> s@[k] == prefix@[k],
        decreases prefix@.len() - i,
    {
        if s[i] != prefix[i] {
            assert(s@.take(prefix@.len() as int)[i as int] != prefix@[i as int]);
            return false;
        }
        i = i + 1;
    }
    assert(s@.take(prefix@.len() as int) =~= prefix@);
    true
}

/// Whether `s` ends with `suffix`.
pub fn ends_with(s: &Vec<char>, suffix: &Vec<char>) -> (res: bool)
    ensures
        res == is_suffix(suffix@, s@),
{
    if suffix.len() > s.len() {
        return false;
    }
    let shift: usize = s.len() - suffix.len();
    let mut i: usize = 0;
    while i < suffix.len()
        invariant
            i <= suffix@.len() <= s@.len(),
            shift + suffix@.len() == s@.len(),
            s@.len() <= usize::MAX,
            forall|k: int| 0 <= k < i ==> s@[shift + k] == suffix@[k],
        decreases suffix@.len() - i,
    {
        if s[shift + i] != suffix[i] {
            assert(s@.skip(shift as int)[i as int] != suffix@[i as int]);
            return false;
        }
        i = i + 1;
    }
    assert(s@.skip(shift as int) =~= suffix@);
    true
}

/// The offset of the first `sep` of `s` at or after `from`, or the length of
/// `s` where there is none.
pub open spec fn next_sep(s: Seq<char>, sep: char, from: int) -> int
    decreases s.len() - from,
{
    if from >= s.len() {
        s.len() as int
    } else if s[from] == sep {
        from
    } else {
        next_sep(s, sep, from + 1)
    }
}

/// The next separator is not before the place from which it is sought, and
/// not behind the end.
pub proof fn lemma_next_sep_bounds(s: Seq<char>, sep: char, from: int)
    requires
        0 <= from <= s.len(),
    ensures
        from <= next_sep(s, sep, from) <= s.len(),
    decreases s.len() - from,
{
    if from < s.len() && s[from] != sep {
        lemma_next_sep_bounds(s, sep, from + 1);
    }
}

/// The pieces of `s` from offset `from` on that lie between the separators.
/// There is always at least one piece, and a piece may be empty.
pub open spec fn split_from(s: Seq<char>, sep: char, from: int) -> Seq<Seq<char>>
    decreases s.len() - from,
    when 0 <= from <= s.len()
{
    let end = next_sep(s, sep, from);
    if end >= s.len() {
        seq![s.subrange(from, end)]
    } else {
        proof {
            lemma_next_sep_bounds(s, sep, from);
        }
        seq![s.subrange(from, end)] + split_from(s, sep, end + 1)
    }
}

/// The pieces of `s` that lie between the separators.
pub open spec fn split(s: Seq<char>, sep: char) -> Seq<Seq<char>> {
    split_from(s, sep, 0)
}

/// `s` without the characters that are `c`.
pub open spec fn without(s: Seq<char>, c: char) -> Seq<char>
    decreases s.len(),
{
    if s.len() == 0 {
        Seq::empty()
    } else if s.last() == c {
        without(s.drop_last(), c)
    } else {
        without(s.drop_last(), c).push(s.last())
    }
}

/// A list of pieces of text, as plain values.
pub open spec fn pieces_view(pieces: Seq<Vec<char>>) -> Seq<Seq<char>> {
    Seq::new(pieces.len(), |i: int| pieces[i]@)
}

/// The characters `chars[from..to]`.
pub fn slice_of(chars: &Vec<char>, from: usize, to: usize) -> (part: Vec<char>)
    requires
        from <= to <= chars@.len(),
    ensures
        part@ == chars@.subrange(from as int, to as int),
{
    let mut part: Vec<char> = Vec::new();
    let mut i: usize = from;
    while i < to
        invariant
            from <= i <= to <= chars@.len(),
            part@ == chars@.subrange(from as int, i as int),
        decreases to - i,
    {
        part.push(chars[i]);
        assert(part@ =~= chars@.subrange(from as int, i + 1));
        i = i + 1;
    }
    part
}

/// Splits `chars` at each `sep`.
pub fn split_chars(chars: &Vec<char>, sep: char) -> (pieces: Vec<Vec<char>>)
    ensures
        pieces_view(pieces@) == split(chars@, sep),
        pieces@.len() >= 1,
{
    let n: usize = chars.len();
    let mut pieces: Vec<Vec<char>> = Vec::new();
    let mut start: usize = 0;
    assert(pieces_view(pieces@) =~= Seq::empty());
    loop
        invariant
            n == chars@.len(),
            start <= n,
            split(chars@, sep) == pieces_view(pieces@) + split_from(chars@, sep, start as int),
        decreases n - start,
    {
        let mut end: usize = start;
        while end < n && chars[end] != sep
            invariant
                n == chars@.len(),
                start <= end <= n,
                next_sep(chars@, sep, start as int) == next_sep(chars@, sep, end as int),
            decreases n - end,
        {
            end = end + 1;
        }
        let ghost before = pieces_view(pieces@);
        let piece = slice_of(chars, start, end);
        pieces.push(piece);
        assert(pieces_view(pieces@) =~= before.push(chars@.subrange(start as int, end as int)));
        if end >= n {
            assert(pieces_view(pieces@) =~= before + split_from(chars@, sep, start as int));
            return pieces;
        }
        assert(pieces_view(pieces@) + split_from(chars@, sep, end + 1) =~= before + split_from(
            chars@,
            sep,
            start as int,
        ));
        start = end + 1;
    }
}

/// `chars[from..]` without the characters that are `c`.
pub fn remove_char(chars: &Vec<char>, from: usize, c: char) -> (rest: Vec<char>)
    requires
        from <= chars@.len(),
    ensures
        rest@ == without(chars@.skip(from as int), c),
{
    let ghost all = chars@.skip(from as int);
    let mut rest: Vec<char> = Vec::new();
    let mut i: usize = from;
    assert(all.take(0) =~= Seq::empty());
    while i < chars.len()
        invariant
            from <= i <= chars@.len(),
            all == chars@.skip(from as int),
            rest@ == without(all.take(i - from), c),
        decreases chars@.len() - i,
    {
        proof {
            assert(all.take(i + 1 - from).drop_last() =~= all.take(i - from));
            assert(all.take(i + 1 - from).last() == chars@[i as int]);
        }
        if chars[i] != c {
            rest.push(chars[i]);
        }
        i = i + 1;
    }
    assert(all.take(i - from) =~= all);
    rest
}

} // verus!
