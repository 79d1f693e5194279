//! Helpers on strings and sequences: searching, splitting and comparing.
//!
//! Every function on strings here is stated over the string's view, a
//! `Seq<char>`.

use vstd::prelude::*;
use vstd::string::*;

verus! {

/// `i` is the position of the first `c` in `s`.
pub open spec fn is_first_index<T>(s: Seq<T>, c: T, i: int) -> bool {
    &&& 0 <= i < s.len()
    &&& s[i] == c
    &&& forall|j: int| 0 <= j < i ==> s[j] != c
}

/// `i` is the position of the last `c` in `s`.
pub open spec fn is_last_index<T>(s: Seq<T>, c: T, i: int) -> bool {
    &&& 0 <= i < s.len()
    &&& s[i] == c
    &&& forall|j: int| i < j < s.len() ==> s[j] != c
}

/// The position of the first `c` in `s`; meaningful only when `s` contains `c`.
pub open spec fn first_index<T>(s: Seq<T>, c: T) -> int {
    choose|i: int| is_first_index(s, c, i)
}

/// The position of the last `c` in `s`; meaningful only when `s` contains `c`.
pub open spec fn last_index<T>(s: Seq<T>, c: T) -> int {
    choose|i: int| is_last_index(s, c, i)
}

/// The pieces of `s` between occurrences of `sep`, in order. There is always at
/// least one piece; a separator at either end, or two in a row, give an empty
/// piece.
pub open spec fn split_on<T>(s: Seq<T>, sep: T) -> Seq<Seq<T>>
    decreases s.len(),
{
    if s.len() == 0 {
        seq![Seq::<T>::empty()]
    } else {
        let before = split_on(s.drop_last(), sep);
        if s.last() == sep {
            before.push(Seq::<T>::empty())
        } else {
            before.drop_last().push(before.last().push(s.last()))
        }
    }
}

/// The views of a sequence of strings.
pub open spec fn texts(v: Seq<String>) -> Seq<Seq<char>> {
    Seq::new(v.len(), |i: int| v[i]@)
}

/// A first position is the only first position.
pub proof fn lemma_first_index_unique<T>(s: Seq<T>, c: T, i: int)
    requires
        is_first_index(s, c, i),
    ensures
        first_index(s, c) == i,
        s.contains(c),
{
    let k = first_index(s, c);
    assert(is_first_index(s, c, k));
    if k < i {
        assert(s[k] == c);
    } else if i < k {
        assert(s[i] == c);
    }
}

/// A last position is the only last position.
pub proof fn lemma_last_index_unique<T>(s: Seq<T>, c: T, i: int)
    requires
        is_last_index(s, c, i),
    ensures
        last_index(s, c) == i,
        s.contains(c),
{
    let k = last_index(s, c);
    assert(is_last_index(s, c, k));
    if k < i {
        assert(s[i] == c);
    } else if i < k {
        assert(s[k] == c);
    }
}

/// A sequence that holds `c` somewhere has a first position of `c`.
pub proof fn lemma_has_first_index<T>(s: Seq<T>, c: T, j: int)
    requires
        0 <= j < s.len(),
        s[j] == c,
    ensures
        is_first_index(s, c, first_index(s, c)),
        first_index(s, c) <= j,
    decreases j,
{
    if exists|k: int| 0 <= k < j && s[k] == c {
        let k = choose|k: int| 0 <= k < j && s[k] == c;
        lemma_has_first_index(s, c, k);
    } else {
        assert(is_first_index(s, c, j));
        lemma_first_index_unique(s, c, j);
    }
}

/// Splitting always yields at least one piece.
pub proof fn lemma_split_nonempty<T>(s: Seq<T>, sep: T)
    ensures
        split_on(s, sep).len() >= 1,
    decreases s.len(),
{
    if s.len() > 0 {
        lemma_split_nonempty(s.drop_last(), sep);
    }
}

/// No piece of a split holds the separator.
pub proof fn lemma_split_pieces_clean<T>(s: Seq<T>, sep: T)
    ensures
        forall|k: int|
            0 <= k < split_on(s, sep).len() ==> !(#[trigger] split_on(s, sep)[k]).contains(sep),
    decreases s.len(),
{
    if s.len() > 0 {
        let before = split_on(s.drop_last(), sep);
        lemma_split_pieces_clean(s.drop_last(), sep);
        lemma_split_nonempty(s.drop_last(), sep);
        if s.last() != sep {
            let grown = before.last().push(s.last());
            assert forall|j: int| 0 <= j < grown.len() implies grown[j] != sep by {
                if j < before.last().len() {
                    assert(before.last()[j] == grown[j]);
                    assert(!before[before.len() - 1].contains(sep));
                }
            }
        }
    }
}

/// The characters of `s`, one vector element per character.
pub fn chars_of(s: &str) -> (out: Vec<char>)
    ensures
        out@ == s@,
{
    let n: usize = s.unicode_len();
    let mut out: Vec<char> = Vec::new();
    let mut i: usize = 0;
    while i < n
        invariant
            n == s@.len(),
            i <= n,
            out@ == s@.subrange(0, i as int),
        decreases n - i,
    {
        let c = s.get_char(i);
        out.push(c);
        i = i + 1;
        assert(out@ == s@.subrange(0, i as int));
    }
    assert(s@.subrange(0, n as int) == s@);
    out
}

/// Whether two strings hold the same characters.
pub fn same_text(a: &str, b: &str) -> (r: bool)
    ensures
        r == (a@ == b@),
{
    let x: String = a.to_owned();
    let y: String = b.to_owned();
    x == y
}

/// The position of the first `c` among `chars`, if there is one.
pub fn find_first(chars: &Vec<char>, c: char) -> (r: Option<usize>)
    ensures
        match r {
            Some(i) => is_first_index(chars@, c, i as int) && i as int == first_index(chars@, c),
            None => !chars@.contains(c),
        },
{
    let n: usize = chars.len();
    let mut i: usize = 0;
    while i < n
        invariant
            n == chars@.len(),
            i <= n,
            forall|j: int| 0 <= j < i ==> chars@[j] != c,
        decreases n - i,
    {
        if chars[i] == c {
            proof {
                lemma_first_index_unique(chars@, c, i as int);
            }
            return Some(i);
        }
        i = i + 1;
    }
    None
}

/// The position of the last `c` among `chars`, if there is one.
pub fn find_last(chars: &Vec<char>, c: char) -> (r: Option<usize>)
    ensures
        match r {
            Some(i) => is_last_index(chars@, c, i as int) && i as int == last_index(chars@, c),
            None => !chars@.contains(c),
        },
{
    let n: usize = chars.len();
    let mut i: usize = n;
    while i > 0
        invariant
            n == chars@.len(),
            i <= n,
            forall|j: int| i <= j < n ==> chars@[j] != c,
        decreases i,
    {
        i = i - 1;
        if chars[i] == c {
            proof {
                lemma_last_index_unique(chars@, c, i as int);
            }
            return Some(i);
        }
    }
    None
}

/// Splits `s` at every `sep`.
pub fn split(s: &str, sep: char) -> (out: Vec<String>)
    ensures
        texts(out@) == split_on(s@, sep),
{
    let chars = chars_of(s);
    let n: usize = chars.len();
    let mut out: Vec<String> = Vec::new();
    let mut start: usize = 0;
    let mut i: usize = 0;
    assert(s@.subrange(0, 0) =~= Seq::<char>::empty());
    assert(texts(out@).push(s@.subrange(0, 0)) =~= seq![Seq::<char>::empty()]);
    while i < n
        invariant
            chars@ == s@,
            n == s@.len(),
            start <= i <= n,
            split_on(s@.subrange(0, i as int), sep) == texts(out@).push(
                s@.subrange(start as int, i as int),
            ),
        decreases n - i,
    {
        let ghost prefix = s@.subrange(0, i as int);
        let ghost grown = s@.subrange(0, i as int + 1);
        let ghost done = texts(out@);
        let ghost piece = s@.subrange(start as int, i as int);
        assert(grown.drop_last() =~= prefix);
        assert(grown.last() == s@[i as int]);
        if chars[i] == sep {
            let part: String = s.substring_char(start, i).to_owned();
            out.push(part);
            start = i + 1;
            assert(texts(out@) =~= done.push(piece));
            assert(s@.subrange(start as int, i as int + 1) =~= Seq::<char>::empty());
        } else {
            assert(done.push(piece).drop_last() =~= done);
            assert(piece.push(s@[i as int]) =~= s@.subrange(start as int, i as int + 1));
        }
        i = i + 1;
    }
    assert(s@.subrange(0, n as int) == s@);
    let ghost done = texts(out@);
    let part: String = s.substring_char(start, n).to_owned();
    out.push(part);
    assert(texts(out@) =~= done.push(s@.subrange(start as int, n as int)));
    out
}

} // verus!
