//! Plain text helpers: decoding bytes, and cutting a line at a separator.

use vstd::prelude::*;
use vstd::string::*;
use vstd::utf8::*;

verus! {

/// `String::push` of std appends the character to the end of the string.
pub assume_specification[ String::push ](s: &mut String, c: char)
    ensures
        final(s)@ == old(s)@.push(c),
;

/// Decodes bytes as UTF-8 through `std::str::from_utf8`: the text whose
/// encoding the bytes are, or `None` where they are not valid UTF-8.
#[verifier::external_body]
pub(crate) fn utf8_text(bytes: &[u8]) -> (r: Option<&str>)
    ensures
        r is Some <==> valid_utf8(bytes@),
        r matches Some(s) ==> s@ == decode_utf8(bytes@),
{
    std::str::from_utf8(bytes).ok()
}

/// Whether two texts are the same, by the `==` of std's `str`: they are
/// when they hold the same characters.
#[verifier::external_body]
pub(crate) fn same_text(a: &str, b: &str) -> (r: bool)
    ensures
        r == (a@ == b@),
{
    a == b
}

/// The characters of `s`, in order.
pub(crate) fn chars_of(s: &str) -> (r: Vec<char>)
    ensures
        r@ == s@,
{
    let mut r: Vec<char> = Vec::new();
    for c in it: s.chars()
        invariant
            r@ == it.seq().take(it.index() as int),
            it.seq() == s@,
    {
        r.push(c);
    }
    r
}

/// The text made of the characters `chars`.
pub(crate) fn string_of(chars: &[char]) -> (r: String)
    ensures
        r@ == chars@,
{
    let mut r = String::new();
    let mut i: usize = 0;
    while i < chars.len()
        invariant
            i <= chars.len(),
            r@ == chars@.take(i as int),
        decreases chars.len() - i,
    {
        r.push(chars[i]);
        i = i + 1;
        assert(chars@.take(i as int) == chars@.take(i - 1).push(chars@[i - 1]));
    }
    assert(chars@.take(chars.len() as int) == chars@);
    r
}

/// The least index at or after `from` where `s` holds `sep`, or the length
/// of `s` where no such index exists.
pub open spec fn find_from(s: Seq<char>, sep: char, from: nat) -> nat
    decreases s.len() - from,
{
    if from >= s.len() {
        s.len()
    } else if s[from as int] == sep {
        from
    } else {
        find_from(s, sep, from + 1)
    }
}

/// `s` cut at every `sep`: the pieces between separators, in order. A text
/// without separator is one piece, so the result is never empty.
pub open spec fn split(s: Seq<char>, sep: char) -> Seq<Seq<char>>
    decreases s.len(),
{
    let i = find_from(s, sep, 0);
    if i >= s.len() {
        seq![s]
    } else {
        seq![s.take(i as int)] + split(s.skip(i as int + 1), sep)
    }
}

/// The pieces put together again with one `sep` between neighbours.
pub open spec fn join(pieces: Seq<Seq<char>>, sep: char) -> Seq<char>
    decreases pieces.len(),
{
    if pieces.len() == 0 {
        Seq::empty()
    } else if pieces.len() == 1 {
        pieces[0]
    } else {
        pieces[0] + seq![sep] + join(pieces.skip(1), sep)
    }
}

/// `find_from` stays within `from..=len` and names a separator unless it
/// is the length; nothing before it, from `from` on, is a separator.
pub proof fn lemma_find_from(s: Seq<char>, sep: char, from: nat)
    requires
        from <= s.len(),
    ensures
        from <= find_from(s, sep, from) <= s.len(),
        find_from(s, sep, from) < s.len() ==> s[find_from(s, sep, from) as int] == sep,
        forall|k: int| from <= k < find_from(s, sep, from) ==> s[k] != sep,
    decreases s.len() - from,
{
    if from < s.len() && s[from as int] != sep {
        lemma_find_from(s, sep, from + 1);
    }
}

/// Searching a suffix finds the same separator as searching the whole text
/// from where the suffix starts.
pub proof fn lemma_find_from_skip(s: Seq<char>, sep: char, start: nat, from: nat)
    requires
        start + from <= s.len(),
    ensures
        find_from(s.skip(start as int), sep, from) == find_from(s, sep, start + from) - start,
    decreases s.len() - start - from,
{
    if start + from < s.len() && s[(start + from) as int] != sep {
        lemma_find_from_skip(s, sep, start, from + 1);
    }
}

/// The index of the first `sep` in `chars` at or after `from`, or the
/// length of `chars`.
pub(crate) fn find_sep(chars: &[char], sep: char, from: usize) -> (r: usize)
    requires
        from <= chars.len(),
    ensures
        r == find_from(chars@, sep, from as nat),
        from <= r <= chars.len(),
{
    let mut i = from;
    while i < chars.len() && chars[i] != sep
        invariant
            from <= i <= chars.len(),
            find_from(chars@, sep, from as nat) == find_from(chars@, sep, i as nat),
        decreases chars.len() - i,
    {
        i = i + 1;
    }
    proof {
        lemma_find_from(chars@, sep, from as nat);
    }
    i
}

/// The search from `from` ends at `i` where nothing in `from..i` is a
/// separator and `i` is one, or the end.
pub proof fn lemma_find_unique(s: Seq<char>, sep: char, from: nat, i: nat)
    requires
        from <= i <= s.len(),
        forall|k: int| from <= k < i ==> s[k] != sep,
        i < s.len() ==> s[i as int] == sep,
    ensures
        find_from(s, sep, from) == i,
    decreases i - from,
{
    if from < i {
        lemma_find_unique(s, sep, from + 1, i);
    }
}

/// Cutting distributes over a separator: the pieces of `a`, `sep`, `b` are
/// the pieces of `a` followed by the pieces of `b`.
pub proof fn lemma_split_concat(a: Seq<char>, b: Seq<char>, sep: char)
    ensures
        split(a + seq![sep] + b, sep) == split(a, sep) + split(b, sep),
    decreases a.len(),
{
    let whole = a + seq![sep] + b;
    let i = find_from(a, sep, 0) as int;
    lemma_find_from(a, sep, 0);
    if i >= a.len() {
        lemma_find_unique(whole, sep, 0, a.len());
        assert(whole.take(a.len() as int) == a);
        assert(whole.skip(a.len() as int + 1) == b);
        assert(split(a, sep) == seq![a]);
    } else {
        lemma_find_unique(whole, sep, 0, i as nat);
        assert(whole.take(i) == a.take(i));
        assert(whole.skip(i + 1) == a.skip(i + 1) + seq![sep] + b);
        lemma_split_concat(a.skip(i + 1), b, sep);
        assert(split(whole, sep) == seq![whole.take(i)] + split(whole.skip(i + 1), sep));
        assert(split(whole, sep) =~= split(a, sep) + split(b, sep));
    }
}

/// Joining what was cut gives the text back.
pub proof fn lemma_join_split(s: Seq<char>, sep: char)
    ensures
        split(s, sep).len() >= 1,
        join(split(s, sep), sep) == s,
    decreases s.len(),
{
    let i = find_from(s, sep, 0) as int;
    lemma_find_from(s, sep, 0);
    if i < s.len() {
        let rest = split(s.skip(i + 1), sep);
        lemma_join_split(s.skip(i + 1), sep);
        let all = seq![s.take(i)] + rest;
        assert(all.skip(1) == rest);
        assert(all[0] == s.take(i));
        assert(join(all, sep) == s.take(i) + seq![sep] + join(rest, sep));
        assert(s.take(i) + seq![sep] + s.skip(i + 1) == s);
    }
}

/// Cutting what was joined gives the pieces back, where no piece holds
/// the separator and there is at least one piece.
pub proof fn lemma_split_join(pieces: Seq<Seq<char>>, sep: char)
    requires
        pieces.len() >= 1,
        forall|i: int, k: int|
            0 <= i < pieces.len() && 0 <= k < pieces[i].len() ==> pieces[i][k] != sep,
    ensures
        split(join(pieces, sep), sep) == pieces,
    decreases pieces.len(),
{
    lemma_split_single(pieces[0], sep);
    if pieces.len() > 1 {
        let rest = pieces.skip(1);
        assert forall|i: int, k: int|
            0 <= i < rest.len() && 0 <= k < rest[i].len() implies rest[i][k] != sep by {
            assert(rest[i] == pieces[i + 1]);
        }
        lemma_split_join(rest, sep);
        lemma_split_concat(pieces[0], join(rest, sep), sep);
        assert(seq![pieces[0]] + rest == pieces);
    }
}

/// The views of a list of character vectors.
pub open spec fn pieces_of(v: Seq<Vec<char>>) -> Seq<Seq<char>> {
    Seq::new(v.len(), |i: int| v[i]@)
}

/// A text without `sep` is a single piece.
pub proof fn lemma_split_single(s: Seq<char>, sep: char)
    requires
        forall|k: int| 0 <= k < s.len() ==> s[k] != sep,
    ensures
        split(s, sep) == seq![s],
{
    lemma_find_from(s, sep, 0);
}

/// Joining grows at the end: the first `n + 1` pieces joined are the first
/// `n` joined, one separator, and piece `n`.
pub proof fn lemma_join_push(pieces: Seq<Seq<char>>, sep: char, n: int)
    requires
        1 <= n < pieces.len(),
    ensures
        join(pieces.take(n + 1), sep) == join(pieces.take(n), sep) + seq![sep] + pieces[n],
    decreases n,
{
    let a = pieces.take(n + 1);
    let b = pieces.take(n);
    assert(a.skip(1) == pieces.skip(1).take(n));
    assert(b.skip(1) == pieces.skip(1).take(n - 1));
    if n == 1 {
        assert(a.skip(1).len() == 1);
        assert(join(a.skip(1), sep) == pieces[1]);
    } else {
        lemma_join_push(pieces.skip(1), sep, n - 1);
        assert(join(a, sep) == pieces[0] + seq![sep] + join(a.skip(1), sep));
        assert(join(b, sep) == pieces[0] + seq![sep] + join(b.skip(1), sep));
        assert(join(a, sep) =~= join(b, sep) + seq![sep] + pieces[n]);
    }
}

/// Cuts `chars` at every `sep`.
pub(crate) fn split_chars(chars: &[char], sep: char) -> (r: Vec<Vec<char>>)
    ensures
        pieces_of(r@) == split(chars@, sep),
{
    let mut r: Vec<Vec<char>> = Vec::new();
    let mut start: usize = 0;
    proof {
        assert(chars@.skip(0) == chars@);
        assert(pieces_of(r@) + split(chars@, sep) == split(chars@, sep));
    }
    loop
        invariant_except_break
            start <= chars.len(),
            split(chars@, sep) == pieces_of(r@) + split(chars@.skip(start as int), sep),
        ensures
            pieces_of(r@) == split(chars@, sep),
        decreases chars.len() - start,
    {
        let end = find_sep(chars, sep, start);
        let mut piece: Vec<char> = Vec::new();
        let mut i = start;
        while i < end
            invariant
                start <= i <= end <= chars.len(),
                piece@ == chars@.subrange(start as int, i as int),
            decreases end - i,
        {
            piece.push(chars[i]);
            i = i + 1;
        }
        proof {
            let rest = chars@.skip(start as int);
            lemma_find_from_skip(chars@, sep, start as nat, 0);
            assert(find_from(rest, sep, 0) == end - start);
            assert(rest.take(end - start) == chars@.subrange(start as int, end as int));
            if end < chars.len() {
                assert(rest.skip(end - start + 1) == chars@.skip(end + 1));
            } else {
                assert(rest.take(end - start) == rest);
            }
        }
        let ghost before = r@;
        r.push(piece);
        assert(pieces_of(r@) == pieces_of(before) + seq![piece@]);
        if end >= chars.len() {
            break;
        }
        start = end + 1;
    }
    r
}

/// Puts the pieces from index `from` on together with one `sep` between
/// neighbours.
pub(crate) fn join_chars(pieces: &Vec<Vec<char>>, from: usize, sep: char) -> (r: Vec<char>)
    requires
        from <= pieces.len(),
    ensures
        r@ == join(pieces_of(pieces@).skip(from as int), sep),
{
    let mut r: Vec<char> = Vec::new();
    let ghost tail = pieces_of(pieces@).skip(from as int);
    let mut i = from;
    while i < pieces.len()
        invariant
            from <= i <= pieces.len(),
            tail == pieces_of(pieces@).skip(from as int),
            r@ == join(tail.take(i - from), sep),
        decreases pieces.len() - i,
    {
        let ghost before = r@;
        if i > from {
            r.push(sep);
        }
        let piece = &pieces[i];
        let ghost mid = r@;
        let mut j: usize = 0;
        while j < piece.len()
            invariant
                j <= piece.len(),
                r@ == mid + piece@.take(j as int),
            decreases piece.len() - j,
        {
            r.push(piece[j]);
            j = j + 1;
        }
        proof {
            assert(piece@.take(piece.len() as int) == piece@);
            assert(tail[i - from] == piece@);
            if i > from {
                lemma_join_push(tail, sep, i - from);
            } else {
                assert(tail.take(1).len() == 1);
                assert(join(tail.take(1), sep) == tail[0]);
                assert(before.len() == 0);
                assert(r@ =~= piece@);
            }
        }
        i = i + 1;
    }
    assert(tail.take(pieces.len() - from) == tail);
    r
}

/// Some stretch of `text` is `word`.
pub open spec fn occurs(word: Seq<char>, text: Seq<char>) -> bool {
    exists|i: int| 0 <= i <= text.len() - word.len() && #[trigger] text.subrange(
        i,
        i + word.len(),
    ) == word
}

/// Whether `word` occurs in `text`, by `str::contains` of std with a string
/// as pattern: true where the pattern matches a stretch of the text.
#[verifier::external_body]
pub(crate) fn contains_text(text: &str, word: &str) -> (r: bool)
    ensures
        r == occurs(word@, text@),
{
    text.contains(word)
}

} // verus!
