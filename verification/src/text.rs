//! Text operations on sequences of characters.
use vstd::prelude::*;

use crate::chars;
use crate::chars::CharSet;

verus! {

/// `String::push` appends one character at the end of the string.
pub assume_specification[ String::push ](s: &mut String, c: char)
    ensures
        final(s)@ == old(s)@.push(c),
;

/// The characters of each string of a list.
pub open spec fn views(list: Seq<String>) -> Seq<Seq<char>> {
    list.map_values(|t: String| t@)
}

/// The characters of an optional string.
pub open spec fn opt_view(t: Option<String>) -> Option<Seq<char>> {
    match t {
        Some(s) => Some(s@),
        None => None,
    }
}

/// Collects the characters of `s`.
pub fn to_chars(s: &str) -> (res: Vec<char>)
    ensures
        res@ == s@,
{
    let mut out: Vec<char> = Vec::new();
    for c in it: s.chars()
        invariant
            out@ == it.seq().take(it.index() as int),
            it.seq() == s@,
    {
        out.push(c);
    }
    proof {
        assert(s@.take(s@.len() as int) =~= s@);
    }
    out
}

/// Builds a string from the characters at `from..to`.
pub fn from_chars(chars: &Vec<char>, from: usize, to: usize) -> (res: String)
    requires
        from <= to <= chars@.len(),
    ensures
        res@ == chars@.subrange(from as int, to as int),
{
    let mut out = String::new();
    let mut i: usize = from;
    while i < to
        invariant
            from <= i <= to <= chars@.len(),
            out@ == chars@.subrange(from as int, i as int),
        decreases to - i,
    {
        out.push(chars[i]);
        i += 1;
    }
    out
}

/// Whether two texts hold the same characters.
pub fn same_text(a: &str, b: &str) -> (res: bool)
    ensures
        res == (a@ == b@),
{
    let x = to_chars(a);
    let y = to_chars(b);
    if x.len() != y.len() {
        return false;
    }
    let mut i: usize = 0;
    while i < x.len()
        invariant
            x@ == a@,
            y@ == b@,
            x.len() == y.len(),
            i <= x.len(),
            forall|j: int| 0 <= j < i ==> x@[j] == y@[j],
        decreases x.len() - i,
    {
        if x[i] != y[i] {
            return false;
        }
        i += 1;
    }
    assert(x@ =~= y@);
    true
}

/// `s` without the leading characters of `set`.
pub open spec fn trimmed_start(s: Seq<char>, set: CharSet) -> Seq<char>
    decreases s.len(),
{
    if s.len() > 0 && set.contains(s[0]) {
        trimmed_start(s.skip(1), set)
    } else {
        s
    }
}

/// `s` without the trailing characters of `set`.
pub open spec fn trimmed_end(s: Seq<char>, set: CharSet) -> Seq<char>
    decreases s.len(),
{
    if s.len() > 0 && set.contains(s.last()) {
        trimmed_end(s.drop_last(), set)
    } else {
        s
    }
}

/// `s` without the leading and trailing characters of `set`.
pub open spec fn trimmed(s: Seq<char>, set: CharSet) -> Seq<char> {
    trimmed_end(trimmed_start(s, set), set)
}

/// Removes the leading characters of `set`.
pub fn trim_start(s: &str, set: CharSet) -> (res: String)
    ensures
        res@ == trimmed_start(s@, set),
{
    let chars = to_chars(s);
    let mut i: usize = 0;
    assert(s@.skip(0) =~= s@);
    while i < chars.len() && set.has(chars[i])
        invariant
            chars@ == s@,
            i <= chars.len(),
            trimmed_start(s@, set) == trimmed_start(s@.skip(i as int), set),
        decreases chars.len() - i,
    {
        assert(s@.skip(i as int).skip(1) =~= s@.skip(i + 1));
        i += 1;
    }
    assert(s@.skip(i as int) =~= s@.subrange(i as int, s@.len() as int));
    from_chars(&chars, i, chars.len())
}

/// Removes the leading and trailing characters of `set`.
pub fn trim(s: &str, set: CharSet) -> (res: String)
    ensures
        res@ == trimmed(s@, set),
{
    let chars = to_chars(s);
    let mut i: usize = 0;
    assert(s@.skip(0) =~= s@);
    while i < chars.len() && set.has(chars[i])
        invariant
            chars@ == s@,
            i <= chars.len(),
            trimmed_start(s@, set) == trimmed_start(s@.skip(i as int), set),
        decreases chars.len() - i,
    {
        assert(s@.skip(i as int).skip(1) =~= s@.skip(i + 1));
        i += 1;
    }
    let mut j: usize = chars.len();
    let ghost rest = s@.skip(i as int);
    assert(rest =~= s@.subrange(i as int, j as int));
    while j > i && set.has(chars[j - 1])
        invariant
            chars@ == s@,
            i <= j <= chars.len(),
            trimmed_end(rest, set) == trimmed_end(s@.subrange(i as int, j as int), set),
        decreases j,
    {
        assert(s@.subrange(i as int, j as int).drop_last() =~= s@.subrange(i as int, j - 1));
        j -= 1;
    }
    from_chars(&chars, i, j)
}

/// The pieces of `s` between the characters of `set`, empty pieces included.
pub open spec fn split(s: Seq<char>, set: CharSet) -> Seq<Seq<char>>
    decreases s.len(),
{
    if s.len() == 0 {
        seq![Seq::empty()]
    } else if set.contains(s.last()) {
        split(s.drop_last(), set).push(Seq::empty())
    } else {
        let pieces = split(s.drop_last(), set);
        pieces.drop_last().push(pieces.last().push(s.last()))
    }
}

/// The pieces that are not empty.
pub open spec fn nonempty(pieces: Seq<Seq<char>>) -> Seq<Seq<char>> {
    pieces.filter(|p: Seq<char>| p.len() > 0)
}

/// The pieces of `s` between the characters of `set` that are not empty.
pub open spec fn words(s: Seq<char>, set: CharSet) -> Seq<Seq<char>> {
    nonempty(split(s, set))
}

pub proof fn lemma_split_nonempty(s: Seq<char>, set: CharSet)
    ensures
        split(s, set).len() > 0,
    decreases s.len(),
{
    if s.len() > 0 {
        lemma_split_nonempty(s.drop_last(), set);
    }
}

/// Splits `s` at the characters of `set`.
pub fn split_text(s: &str, set: CharSet) -> (res: Vec<String>)
    ensures
        views(res@) == split(s@, set),
{
    let chars = to_chars(s);
    let mut out: Vec<String> = Vec::new();
    let mut piece = String::new();
    let mut i: usize = 0;
    assert(views(out@).push(piece@) =~= split(s@.take(0), set));
    while i < chars.len()
        invariant
            chars@ == s@,
            i <= chars.len(),
            views(out@).push(piece@) == split(s@.take(i as int), set),
        decreases chars.len() - i,
    {
        let c = chars[i];
        let ghost done = s@.take(i as int);
        let ghost before = views(out@).push(piece@);
        assert(s@.take(i + 1).drop_last() =~= done);
        assert(before.drop_last() =~= views(out@));
        if set.has(c) {
            let ghost old_out = out@;
            out.push(piece);
            assert(views(out@) =~= before);
            piece = String::new();
        } else {
            piece.push(c);
        }
        i += 1;
        assert(views(out@).push(piece@) =~= split(s@.take(i as int), set));
    }
    assert(s@.take(s@.len() as int) =~= s@);
    let ghost before = views(out@).push(piece@);
    out.push(piece);
    assert(views(out@) =~= before);
    out
}

/// Splits `s` at the characters of `set` and drops the empty pieces.
pub fn split_words(s: &str, set: CharSet) -> (res: Vec<String>)
    ensures
        views(res@) == words(s@, set),
{
    let pieces = split_text(s, set);
    let ghost all = views(pieces@);
    let mut out: Vec<String> = Vec::new();
    let mut i: usize = 0;
    while i < pieces.len()
        invariant
            all == views(pieces@),
            i <= pieces.len(),
            views(out@) == nonempty(all.take(i as int)),
        decreases pieces.len() - i,
    {
        reveal(Seq::filter);
        assert(all.take(i + 1).drop_last() =~= all.take(i as int));
        assert(all[i as int] == pieces@[i as int]@);
        let ghost old_out = views(out@);
        if !pieces[i].as_str().is_empty() {
            out.push(pieces[i].clone());
            assert(views(out@) =~= old_out.push(pieces@[i as int]@));
        }
        i += 1;
    }
    assert(all.take(all.len() as int) =~= all);
    out
}

pub proof fn lemma_nonempty_step(
    pieces: Seq<Seq<char>>,
    f: spec_fn(Seq<char>) -> Seq<char>,
    i: int,
)
    requires
        0 <= i < pieces.len(),
    ensures
        nonempty(pieces.take(i + 1).map_values(f)) == (if f(pieces[i]).len() > 0 {
            nonempty(pieces.take(i).map_values(f)).push(f(pieces[i]))
        } else {
            nonempty(pieces.take(i).map_values(f))
        }),
{
    reveal(Seq::filter);
    assert(pieces.take(i + 1).map_values(f).drop_last() =~= pieces.take(i).map_values(f));
}

/// The pieces in order with `sep` between them.
pub open spec fn joined(pieces: Seq<Seq<char>>, sep: Seq<char>) -> Seq<char>
    decreases pieces.len(),
{
    if pieces.len() == 0 {
        Seq::empty()
    } else if pieces.len() == 1 {
        pieces[0]
    } else {
        joined(pieces.drop_last(), sep) + sep + pieces.last()
    }
}

/// Joins the pieces with `sep` between them.
pub fn join(pieces: &Vec<String>, sep: &str) -> (res: String)
    ensures
        res@ == joined(views(pieces@), sep@),
{
    let mut out = String::new();
    let ghost all = views(pieces@);
    let mut i: usize = 0;
    while i < pieces.len()
        invariant
            all == views(pieces@),
            i <= pieces.len(),
            out@ == joined(all.take(i as int), sep@),
        decreases pieces.len() - i,
    {
        assert(all.take(i + 1).drop_last() =~= all.take(i as int));
        assert(all[i as int] == pieces@[i as int]@);
        if i > 0 {
            out.append(sep);
        }
        out.append(pieces[i].as_str());
        i += 1;
        assert(out@ =~= joined(all.take(i as int), sep@));
    }
    assert(all.take(all.len() as int) =~= all);
    out
}

/// Whether `needle` stands in `s` from position `i` on.
pub open spec fn occurs_at(s: Seq<char>, needle: Seq<char>, i: int) -> bool {
    0 <= i && i + needle.len() <= s.len() && s.subrange(i, i + needle.len()) == needle
}

/// The first position from `i` on at which `needle` stands in `s`.
pub open spec fn find_from(s: Seq<char>, needle: Seq<char>, i: int) -> Option<int>
    decreases s.len() + 1 - i,
{
    if i + needle.len() > s.len() {
        None
    } else if occurs_at(s, needle, i) {
        Some(i)
    } else {
        find_from(s, needle, i + 1)
    }
}

/// Whether `needle` stands somewhere in `s`.
pub open spec fn has_text(s: Seq<char>, needle: Seq<char>) -> bool {
    find_from(s, needle, 0) is Some
}

/// Whether the characters of `needle` stand in `s` from position `i` on.
fn stands_at(s: &Vec<char>, needle: &Vec<char>, i: usize) -> (res: bool)
    requires
        i <= s.len(),
    ensures
        res == occurs_at(s@, needle@, i as int),
{
    if needle.len() > s.len() - i {
        return false;
    }
    let mut j: usize = 0;
    while j < needle.len()
        invariant
            i + needle.len() <= s.len(),
            j <= needle.len(),
            forall|k: int| 0 <= k < j ==> s@[i + k] == needle@[k],
        decreases needle.len() - j,
    {
        if s[i + j] != needle[j] {
            assert(s@.subrange(i as int, i + needle@.len())[j as int] == s@[i + j]);
            return false;
        }
        j += 1;
    }
    assert(s@.subrange(i as int, i + needle@.len()) =~= needle@);
    true
}

/// The first position at which `needle` stands in `s`.
pub fn find_text(s: &str, needle: &str) -> (res: Option<usize>)
    ensures
        match res {
            Some(i) => find_from(s@, needle@, 0) == Some(i as int) && i + needle@.len() <= s@.len(),
            None => find_from(s@, needle@, 0) is None,
        },
{
    let chars = to_chars(s);
    let pattern = to_chars(needle);
    let mut i: usize = 0;
    while pattern.len() <= chars.len() - i
        invariant
            chars@ == s@,
            pattern@ == needle@,
            i <= chars.len(),
            find_from(s@, needle@, 0) == find_from(s@, needle@, i as int),
        decreases chars.len() - i,
    {
        assert(i == chars.len() ==> s@.subrange(i as int, i + needle@.len()) =~= needle@);
        if stands_at(&chars, &pattern, i) {
            return Some(i);
        }
        i += 1;
    }
    None
}

/// Whether `needle` stands somewhere in `s`.
pub fn contains(s: &str, needle: &str) -> (res: bool)
    ensures
        res == has_text(s@, needle@),
{
    find_text(s, needle).is_some()
}

/// `s` with every occurrence of `from`, found from left to right without
/// overlap, replaced by `to`.
pub open spec fn replaced(s: Seq<char>, from: Seq<char>, to: Seq<char>) -> Seq<char>
    decreases s.len(),
{
    if from.len() == 0 || s.len() < from.len() {
        s
    } else if s.take(from.len() as int) == from {
        to + replaced(s.skip(from.len() as int), from, to)
    } else {
        seq![s[0]] + replaced(s.skip(1), from, to)
    }
}

/// Replaces every occurrence of `from` by `to`.
pub fn replace(s: &str, from: &str, to: &str) -> (res: String)
    requires
        from@.len() > 0,
    ensures
        res@ == replaced(s@, from@, to@),
{
    let chars = to_chars(s);
    let pattern = to_chars(from);
    let mut out = String::new();
    let mut i: usize = 0;
    assert(s@.skip(0) =~= s@);
    assert(out@ + replaced(s@, from@, to@) =~= replaced(s@, from@, to@));
    while i < chars.len()
        invariant
            chars@ == s@,
            pattern@ == from@,
            from@.len() > 0,
            i <= chars.len(),
            out@ + replaced(s@.skip(i as int), from@, to@) == replaced(s@, from@, to@),
        decreases chars.len() - i,
    {
        let ghost rest = s@.skip(i as int);
        let ghost before = out@;
        if stands_at(&chars, &pattern, i) {
            assert(rest.take(from@.len() as int) =~= s@.subrange(i as int, i + from@.len()));
            out.append(to);
            assert(rest.skip(from@.len() as int) =~= s@.skip(i + from@.len()));
            assert(before + replaced(rest, from@, to@) =~= out@ + replaced(
                s@.skip(i + from@.len()),
                from@,
                to@,
            ));
            i += pattern.len();
        } else {
            proof {
                if rest.len() >= from@.len() {
                    assert(rest.take(from@.len() as int) =~= s@.subrange(
                        i as int,
                        i + from@.len(),
                    ));
                }
                assert(rest.skip(1) =~= s@.skip(i + 1));
                assert(replaced(rest, from@, to@) =~= seq![rest[0]] + replaced(
                    rest.skip(1),
                    from@,
                    to@,
                )) by {
                    if rest.len() < from@.len() {
                        assert(rest.skip(1).len() < from@.len());
                        assert(rest =~= seq![rest[0]] + rest.skip(1));
                    }
                }
            }
            out.push(chars[i]);
            i += 1;
            assert(before + replaced(rest, from@, to@) =~= out@ + replaced(
                s@.skip(i as int),
                from@,
                to@,
            ));
        }
    }
    assert(s@.skip(i as int) =~= Seq::<char>::empty());
    assert(replaced(Seq::<char>::empty(), from@, to@) =~= Seq::<char>::empty());
    assert(out@ + Seq::<char>::empty() =~= out@);
    out
}

/// Whether `s` begins with `prefix`.
pub open spec fn begins_with(s: Seq<char>, prefix: Seq<char>) -> bool {
    occurs_at(s, prefix, 0)
}

/// What follows `prefix` in `s`, where `s` begins with it.
pub fn strip_prefix(s: &str, prefix: &str) -> (res: Option<String>)
    ensures
        match res {
            Some(rest) => begins_with(s@, prefix@) && rest@ == s@.skip(prefix@.len() as int),
            None => !begins_with(s@, prefix@),
        },
{
    let chars = to_chars(s);
    let pattern = to_chars(prefix);
    if stands_at(&chars, &pattern, 0) {
        assert(s@.skip(prefix@.len() as int) =~= s@.subrange(
            prefix@.len() as int,
            s@.len() as int,
        ));
        Some(from_chars(&chars, pattern.len(), chars.len()))
    } else {
        None
    }
}

/// Whether `a` stands before `b` in the order of their characters.
pub open spec fn precedes(a: Seq<char>, b: Seq<char>) -> bool
    decreases a.len(),
{
    if b.len() == 0 {
        false
    } else if a.len() == 0 {
        true
    } else if a[0] != b[0] {
        a[0] < b[0]
    } else {
        precedes(a.skip(1), b.skip(1))
    }
}

pub proof fn lemma_precedes_concat(a: Seq<char>, b: Seq<char>, x: Seq<char>, y: Seq<char>)
    requires
        a.len() == b.len(),
    ensures
        precedes(a + x, b + y) == (if a == b {
            precedes(x, y)
        } else {
            precedes(a, b)
        }),
    decreases a.len(),
{
    if a.len() == 0 {
        assert(a + x =~= x);
        assert(b + y =~= y);
        assert(a =~= b);
    } else {
        lemma_precedes_concat(a.skip(1), b.skip(1), x, y);
        assert((a + x).skip(1) =~= a.skip(1) + x);
        assert((b + y).skip(1) =~= b.skip(1) + y);
        if a[0] == b[0] && a.skip(1) == b.skip(1) {
            assert(a =~= seq![a[0]] + a.skip(1));
            assert(b =~= seq![b[0]] + b.skip(1));
        }
    }
}

pub proof fn lemma_precedes_one_way(a: Seq<char>, b: Seq<char>)
    ensures
        !(precedes(a, b) && precedes(b, a)),
        !precedes(a, b) && !precedes(b, a) ==> a == b,
    decreases a.len(),
{
    if a.len() > 0 && b.len() > 0 {
        if a[0] == b[0] {
            lemma_precedes_one_way(a.skip(1), b.skip(1));
            if a.skip(1) == b.skip(1) {
                assert(a =~= seq![a[0]] + a.skip(1));
                assert(b =~= seq![b[0]] + b.skip(1));
            }
        }
    } else if a.len() == 0 && b.len() == 0 {
        assert(a =~= b);
    }
}

pub proof fn lemma_precedes_chain(a: Seq<char>, b: Seq<char>, c: Seq<char>)
    requires
        precedes(a, b),
        precedes(b, c),
    ensures
        precedes(a, c),
    decreases a.len(),
{
    if a.len() > 0 && a[0] == b[0] && b[0] == c[0] {
        lemma_precedes_chain(a.skip(1), b.skip(1), c.skip(1));
    }
}

/// Whether `a` stands before `b` in the order of their characters.
pub fn text_precedes(a: &str, b: &str) -> (res: bool)
    ensures
        res == precedes(a@, b@),
{
    let x = to_chars(a);
    let y = to_chars(b);
    let mut i: usize = 0;
    assert(a@.skip(0) =~= a@);
    assert(b@.skip(0) =~= b@);
    while i < x.len() && i < y.len()
        invariant
            x@ == a@,
            y@ == b@,
            i <= x.len(),
            i <= y.len(),
            precedes(a@, b@) == precedes(a@.skip(i as int), b@.skip(i as int)),
        decreases x.len() - i,
    {
        if x[i] != y[i] {
            return x[i] < y[i];
        }
        assert(a@.skip(i as int).skip(1) =~= a@.skip(i + 1));
        assert(b@.skip(i as int).skip(1) =~= b@.skip(i + 1));
        i += 1;
    }
    i < y.len()
}

/// Whether every character of a text satisfies `p`.
pub open spec fn all_chars(s: Seq<char>, p: spec_fn(char) -> bool) -> bool {
    forall|i: int| 0 <= i < s.len() ==> p(#[trigger] s[i])
}

/// Whether every character of every piece satisfies `p`.
pub open spec fn all_piece_chars(pieces: Seq<Seq<char>>, p: spec_fn(char) -> bool) -> bool {
    forall|k: int| 0 <= k < pieces.len() ==> all_chars(#[trigger] pieces[k], p)
}

/// The pieces of a split hold characters of the text only, and none of the
/// characters it was split at.
pub proof fn lemma_split_chars(s: Seq<char>, set: CharSet, p: spec_fn(char) -> bool)
    requires
        all_chars(s, p),
    ensures
        split(s, set).len() > 0,
        all_piece_chars(split(s, set), p),
        all_piece_chars(split(s, set), |c: char| !set.contains(c)),
    decreases s.len(),
{
    if s.len() > 0 {
        assert(all_chars(s.drop_last(), p)) by {
            assert forall|i: int| 0 <= i < s.drop_last().len() implies p(
                #[trigger] s.drop_last()[i],
            ) by {
                assert(s.drop_last()[i] == s[i]);
            }
        }
        lemma_split_chars(s.drop_last(), set, p);
        assert(p(s[s.len() - 1]));
    }
}

/// The pieces that are not empty are among the pieces.
pub proof fn lemma_nonempty_chars(pieces: Seq<Seq<char>>, p: spec_fn(char) -> bool)
    requires
        all_piece_chars(pieces, p),
    ensures
        all_piece_chars(nonempty(pieces), p),
        forall|k: int| 0 <= k < nonempty(pieces).len() ==> (#[trigger] nonempty(pieces)[k]).len() > 0,
    decreases pieces.len(),
{
    reveal(Seq::filter);
    if pieces.len() > 0 {
        assert(all_piece_chars(pieces.drop_last(), p)) by {
            assert forall|k: int| 0 <= k < pieces.drop_last().len() implies all_chars(
                #[trigger] pieces.drop_last()[k],
                p,
            ) by {
                assert(pieces.drop_last()[k] == pieces[k]);
            }
        }
        lemma_nonempty_chars(pieces.drop_last(), p);
        assert(all_chars(pieces[pieces.len() - 1], p));
    }
}

/// A joined text holds characters of its pieces and of the separator only.
pub proof fn lemma_joined_chars(pieces: Seq<Seq<char>>, sep: Seq<char>, p: spec_fn(char) -> bool)
    requires
        all_piece_chars(pieces, p),
        all_chars(sep, p),
    ensures
        all_chars(joined(pieces, sep), p),
    decreases pieces.len(),
{
    if pieces.len() == 1 {
        assert(all_chars(pieces[0], p));
    } else if pieces.len() > 1 {
        let rest = pieces.drop_last();
        assert(all_piece_chars(rest, p)) by {
            assert forall|k: int| 0 <= k < rest.len() implies all_chars(#[trigger] rest[k], p) by {
                assert(rest[k] == pieces[k]);
            }
        }
        lemma_joined_chars(rest, sep, p);
        assert(all_chars(pieces[pieces.len() - 1], p));
    }
}

/// White space in a text is one blank at a time, between other characters.
pub open spec fn spaced_once(s: Seq<char>) -> bool {
    &&& forall|i: int| 0 <= i < s.len() && chars::is_space(#[trigger] s[i]) ==> s[i] == ' '
    &&& s.len() > 0 ==> !chars::is_space(s[0]) && !chars::is_space(s.last())
    &&& forall|i: int, j: int|
        0 <= i < j < s.len() && j == i + 1 && chars::is_space(#[trigger] s[i]) ==> !chars::is_space(
            #[trigger] s[j],
        )
}

proof fn lemma_joined_spaced_once(pieces: Seq<Seq<char>>)
    requires
        all_piece_chars(pieces, |c: char| !chars::is_space(c)),
        forall|k: int| 0 <= k < pieces.len() ==> (#[trigger] pieces[k]).len() > 0,
    ensures
        spaced_once(joined(pieces, seq![' '])),
        pieces.len() > 0 ==> joined(pieces, seq![' ']).len() > 0,
    decreases pieces.len(),
{
    let no_space = |c: char| !chars::is_space(c);
    if pieces.len() == 1 {
        assert(all_chars(pieces[0], no_space));
        assert forall|i: int| 0 <= i < pieces[0].len() implies !chars::is_space(
            #[trigger] pieces[0][i],
        ) by {
            assert(no_space(pieces[0][i]));
        }
    } else if pieces.len() > 1 {
        let rest = pieces.drop_last();
        let last = pieces.last();
        assert forall|k: int| 0 <= k < rest.len() implies all_chars(#[trigger] rest[k], no_space)
            && rest[k].len() > 0 by {
            assert(rest[k] == pieces[k]);
        }
        lemma_joined_spaced_once(rest);
        assert(all_chars(pieces[pieces.len() - 1], no_space));
        let head = joined(rest, seq![' ']);
        let whole = joined(pieces, seq![' ']);
        assert(whole =~= head + seq![' '] + last);
        assert forall|i: int| 0 <= i < last.len() implies !chars::is_space(#[trigger] last[i]) by {
            assert(no_space(last[i]));
        }
        assert(whole[0] == head[0]);
        assert(whole.last() == last.last());
        assert forall|i: int| 0 <= i < whole.len() && chars::is_space(
            #[trigger] whole[i],
        ) implies whole[i] == ' ' by {
            if i < head.len() {
                assert(whole[i] == head[i]);
            } else if i > head.len() {
                assert(whole[i] == last[i - head.len() - 1]);
            }
        }
        assert forall|i: int, j: int|
            0 <= i < j < whole.len() && j == i + 1 && chars::is_space(
                #[trigger] whole[i],
            ) implies !chars::is_space(#[trigger] whole[j]) by {
            if j < head.len() {
                assert(whole[i] == head[i] && whole[j] == head[j]);
            } else if j == head.len() {
                assert(whole[i] == head.last());
            } else {
                assert(whole[j] == last[j - head.len() - 1]);
            }
        }
    }
}

/// Words joined by blanks are one blank apart, with nothing around them, and
/// hold characters of the text only.
pub proof fn lemma_collapsed(s: Seq<char>, p: spec_fn(char) -> bool)
    requires
        all_chars(s, p),
        p(' '),
    ensures
        spaced_once(joined(words(s, CharSet::Space), " "@)),
        all_chars(joined(words(s, CharSet::Space), " "@), p),
{
    reveal_strlit(" ");
    assert(" "@ =~= seq![' ']);
    let pieces = split(s, CharSet::Space);
    let no_space = |c: char| !chars::is_space(c);
    lemma_split_chars(s, CharSet::Space, p);
    assert(all_piece_chars(pieces, no_space)) by {
        let other = |c: char| !CharSet::Space.contains(c);
        assert forall|k: int| 0 <= k < pieces.len() implies all_chars(
            #[trigger] pieces[k],
            no_space,
        ) by {
            assert(all_chars(pieces[k], other));
            assert forall|i: int| 0 <= i < pieces[k].len() implies no_space(
                #[trigger] pieces[k][i],
            ) by {
                assert(other(pieces[k][i]));
            }
        }
    }
    lemma_nonempty_chars(pieces, p);
    lemma_nonempty_chars(pieces, no_space);
    lemma_joined_chars(words(s, CharSet::Space), " "@, p);
    lemma_joined_spaced_once(words(s, CharSet::Space));
}

/// Trimming keeps a part of the text, with no character of the set at its ends.
pub proof fn lemma_trimmed(s: Seq<char>, set: CharSet)
    ensures
        exists|i: int, j: int|
            0 <= i <= j <= s.len() && trimmed(s, set) == #[trigger] s.subrange(i, j),
        trimmed(s, set).len() > 0 ==> !set.contains(trimmed(s, set)[0]) && !set.contains(
            trimmed(s, set).last(),
        ),
{
    lemma_trimmed_start(s, set);
    let i = choose|i: int| 0 <= i <= s.len() && trimmed_start(s, set) == #[trigger] s.skip(i);
    let rest = trimmed_start(s, set);
    lemma_trimmed_end(rest, set);
    let j = choose|j: int| 0 <= j <= rest.len() && trimmed_end(rest, set) == #[trigger] rest.take(j);
    assert(rest.take(j) =~= s.subrange(i, i + j));
    if j > 0 {
        assert(rest.take(j)[0] == rest[0]);
    }
}

/// Trimming keeps to the characters of the text.
pub proof fn lemma_trimmed_chars(s: Seq<char>, set: CharSet, p: spec_fn(char) -> bool)
    requires
        all_chars(s, p),
    ensures
        all_chars(trimmed(s, set), p),
{
    lemma_trimmed(s, set);
    let (i, j) = choose|i: int, j: int|
        0 <= i <= j <= s.len() && trimmed(s, set) == #[trigger] s.subrange(i, j);
    assert forall|k: int| 0 <= k < trimmed(s, set).len() implies p(#[trigger] trimmed(s, set)[k]) by {
        assert(trimmed(s, set)[k] == s[i + k]);
    }
}

/// White space that is one blank at a time stays so when white space around
/// any part of the text is trimmed.
pub proof fn lemma_trimmed_spaced_once(s: Seq<char>, set: CharSet)
    requires
        spaced_once(s),
    ensures
        spaced_once(trimmed(trimmed(s, set), CharSet::Space)),
{
    let inner = trimmed(s, set);
    let out = trimmed(inner, CharSet::Space);
    lemma_trimmed(s, set);
    lemma_trimmed(inner, CharSet::Space);
    let (a, b) = choose|i: int, j: int|
        0 <= i <= j <= s.len() && inner == #[trigger] s.subrange(i, j);
    let (c, d) = choose|i: int, j: int|
        0 <= i <= j <= inner.len() && out == #[trigger] inner.subrange(i, j);
    assert forall|i: int| 0 <= i < out.len() implies #[trigger] out[i] == s[a + c + i] by {}
}

proof fn lemma_trimmed_start(s: Seq<char>, set: CharSet)
    ensures
        exists|i: int| 0 <= i <= s.len() && trimmed_start(s, set) == #[trigger] s.skip(i),
        trimmed_start(s, set).len() > 0 ==> !set.contains(trimmed_start(s, set)[0]),
    decreases s.len(),
{
    if s.len() > 0 && set.contains(s[0]) {
        lemma_trimmed_start(s.skip(1), set);
        let i = choose|i: int|
            0 <= i <= s.skip(1).len() && trimmed_start(s.skip(1), set) == #[trigger] s.skip(1).skip(
                i,
            );
        assert(s.skip(1).skip(i) =~= s.skip(i + 1));
    } else {
        assert(s.skip(0) =~= s);
    }
}

proof fn lemma_trimmed_end(s: Seq<char>, set: CharSet)
    ensures
        exists|j: int| 0 <= j <= s.len() && trimmed_end(s, set) == #[trigger] s.take(j),
        trimmed_end(s, set).len() > 0 ==> !set.contains(trimmed_end(s, set).last()),
    decreases s.len(),
{
    if s.len() > 0 && set.contains(s.last()) {
        lemma_trimmed_end(s.drop_last(), set);
        let j = choose|j: int|
            0 <= j <= s.drop_last().len() && trimmed_end(s.drop_last(), set)
                == #[trigger] s.drop_last().take(j);
        assert(s.drop_last().take(j) =~= s.take(j));
    } else {
        assert(s.take(s.len() as int) =~= s);
    }
}

/// A text with no character of the set at its ends is left as it is.
pub proof fn lemma_trimmed_fixed(s: Seq<char>, set: CharSet)
    requires
        s.len() > 0 ==> !set.contains(s[0]) && !set.contains(s.last()),
    ensures
        trimmed(s, set) == s,
{
}

proof fn lemma_trimmed_start_push(s: Seq<char>, c: char, set: CharSet)
    ensures
        trimmed_start(s.push(c), set) == (if trimmed_start(s, set).len() > 0 {
            trimmed_start(s, set).push(c)
        } else if set.contains(c) {
            Seq::empty()
        } else {
            seq![c]
        }),
    decreases s.len(),
{
    let all = s.push(c);
    if s.len() == 0 {
        assert(all =~= seq![c]);
        assert(all.skip(1) =~= Seq::empty());
        assert(trimmed_start(Seq::<char>::empty(), set) =~= Seq::empty());
        assert(trimmed_start(s, set) =~= Seq::empty());
    } else {
        assert(all[0] == s[0]);
        if set.contains(s[0]) {
            lemma_trimmed_start_push(s.skip(1), c, set);
            assert(all.skip(1) =~= s.skip(1).push(c));
        }
    }
}

proof fn lemma_trimmed_after_start(s: Seq<char>, inner: CharSet, outer: CharSet)
    requires
        forall|i: int|
            0 <= i < s.len() && inner.contains(#[trigger] s[i]) ==> outer.contains(s[i]),
    ensures
        trimmed_start(trimmed_start(s, inner), outer) == trimmed_start(s, outer),
    decreases s.len(),
{
    if s.len() > 0 && inner.contains(s[0]) {
        let rest = s.skip(1);
        assert forall|i: int| 0 <= i < rest.len() && inner.contains(#[trigger] rest[i]) implies
            outer.contains(rest[i]) by {
            assert(rest[i] == s[i + 1]);
        }
        lemma_trimmed_after_start(rest, inner, outer);
    }
}

proof fn lemma_trimmed_after_end(s: Seq<char>, inner: CharSet, outer: CharSet)
    requires
        forall|i: int|
            0 <= i < s.len() && inner.contains(#[trigger] s[i]) ==> outer.contains(s[i]),
    ensures
        trimmed(trimmed_end(s, inner), outer) == trimmed(s, outer),
    decreases s.len(),
{
    if s.len() > 0 && inner.contains(s.last()) {
        let front = s.drop_last();
        assert(inner.contains(s[s.len() - 1]));
        assert forall|i: int| 0 <= i < front.len() && inner.contains(#[trigger] front[i]) implies
            outer.contains(front[i]) by {
            assert(front[i] == s[i]);
        }
        lemma_trimmed_after_end(front, inner, outer);
        lemma_trimmed_start_push(front, s.last(), outer);
        assert(front.push(s.last()) =~= s);
        let start = trimmed_start(front, outer);
        if start.len() > 0 {
            assert(start.push(s.last()).drop_last() =~= start);
        } else {
            assert(start =~= Seq::empty());
        }
    }
}

/// Trimming some characters first makes no difference where they are trimmed
/// with others afterwards.
pub proof fn lemma_trimmed_after_trimmed(s: Seq<char>, inner: CharSet, outer: CharSet)
    requires
        forall|i: int|
            0 <= i < s.len() && inner.contains(#[trigger] s[i]) ==> outer.contains(s[i]),
    ensures
        trimmed(trimmed(s, inner), outer) == trimmed(s, outer),
{
    let start = trimmed_start(s, inner);
    lemma_trimmed_start(s, inner);
    let k = choose|k: int| 0 <= k <= s.len() && start == #[trigger] s.skip(k);
    assert forall|i: int| 0 <= i < start.len() && inner.contains(#[trigger] start[i]) implies
        outer.contains(start[i]) by {
        assert(start[i] == s[k + i]);
    }
    lemma_trimmed_after_end(start, inner, outer);
    lemma_trimmed_after_start(s, inner, outer);
}

/// A text whose white space is one blank at a time is its words joined by blanks.
pub proof fn lemma_collapsed_fixed(s: Seq<char>)
    requires
        spaced_once(s),
    ensures
        joined(words(s, CharSet::Space), " "@) == s,
{
    reveal_strlit(" ");
    assert(" "@ =~= seq![' ']);
    reveal(Seq::filter);
    assert forall|i: int| 0 <= i < s.len() && CharSet::Space.contains(#[trigger] s[i]) implies s[i]
        == ' ' by {
        assert(chars::is_space(s[i]));
    }
    lemma_split_rejoins(s, CharSet::Space, ' ');
    let pieces = split(s, CharSet::Space);
    if s.len() == 0 {
        assert(pieces =~= seq![Seq::empty()]);
        assert(pieces.drop_last() =~= Seq::empty());
        assert(nonempty(Seq::empty()) =~= Seq::empty());
        assert(nonempty(pieces) =~= Seq::empty());
    } else {
        assert(!chars::is_space(s[0]));
        assert(!chars::is_space(s[s.len() - 1]));
        lemma_split_gaps(s);
        lemma_filter_keeps(pieces);
    }
}

pub proof fn lemma_filter_keeps(pieces: Seq<Seq<char>>)
    requires
        forall|k: int| 0 <= k < pieces.len() ==> (#[trigger] pieces[k]).len() > 0,
    ensures
        nonempty(pieces) == pieces,
    decreases pieces.len(),
{
    reveal(Seq::filter);
    if pieces.len() > 0 {
        assert forall|k: int| 0 <= k < pieces.drop_last().len() implies (
        #[trigger] pieces.drop_last()[k]).len() > 0 by {
            assert(pieces.drop_last()[k] == pieces[k]);
        }
        lemma_filter_keeps(pieces.drop_last());
        assert(pieces[pieces.len() - 1].len() > 0);
        assert(nonempty(pieces) =~= pieces);
    } else {
        assert(nonempty(pieces) =~= pieces);
    }
}

/// A text is its pieces joined again by the one character that it was split at.
pub proof fn lemma_split_rejoins(s: Seq<char>, set: CharSet, sep: char)
    requires
        forall|i: int| 0 <= i < s.len() && set.contains(#[trigger] s[i]) ==> s[i] == sep,
    ensures
        split(s, set).len() > 0,
        joined(split(s, set), seq![sep]) == s,
    decreases s.len(),
{
    let pieces = split(s, set);
    if s.len() == 0 {
        assert(pieces[0] =~= s);
    } else {
        let front = s.drop_last();
        assert forall|i: int| 0 <= i < front.len() && set.contains(#[trigger] front[i]) implies
            front[i] == sep by {
            assert(front[i] == s[i]);
        }
        lemma_split_rejoins(front, set, sep);
        let before = split(front, set);
        if set.contains(s.last()) {
            assert(set.contains(s[s.len() - 1]));
            assert(pieces.drop_last() =~= before);
            assert(joined(pieces, seq![sep]) =~= front + seq![sep] + Seq::<char>::empty());
            assert(s =~= front + seq![sep] + Seq::<char>::empty());
        } else {
            assert(pieces.drop_last() =~= before.drop_last());
            assert(pieces.len() == before.len());
            assert(s =~= front.push(s.last()));
            if before.len() == 1 {
                assert(pieces[0] == before.last().push(s.last()));
            } else {
                let head = joined(before.drop_last(), seq![sep]) + seq![sep];
                assert(joined(pieces, seq![sep]) == head + before.last().push(s.last()));
                assert(head + before.last().push(s.last()) =~= (head + before.last()).push(
                    s.last(),
                ));
            }
        }
    }
}

proof fn lemma_split_behind(a: Seq<char>, b: Seq<char>, set: CharSet)
    requires
        all_chars(b, |c: char| !set.contains(c)),
    ensures
        split(a, set).len() > 0,
        split(a + b, set) == split(a, set).drop_last().push(split(a, set).last() + b),
    decreases b.len(),
{
    lemma_split_nonempty(a, set);
    let pieces = split(a, set);
    if b.len() == 0 {
        assert(a + b =~= a);
        assert(pieces.last() + b =~= pieces.last());
        assert(pieces.drop_last().push(pieces.last()) =~= pieces);
    } else {
        let other = |c: char| !set.contains(c);
        let front = b.drop_last();
        assert forall|i: int| 0 <= i < front.len() implies other(#[trigger] front[i]) by {
            assert(front[i] == b[i]);
            assert(other(b[i]));
        }
        lemma_split_behind(a, front, set);
        assert(other(b[b.len() - 1]));
        assert((a + b).drop_last() =~= a + front);
        assert((a + b).last() == b.last());
        let before = split(a + front, set);
        assert(before.drop_last() =~= pieces.drop_last());
        assert((pieces.last() + front).push(b.last()) =~= pieces.last() + b);
    }
}

/// Pieces that hold none of the characters come back when their join is split.
pub proof fn lemma_split_joined(pieces: Seq<Seq<char>>, set: CharSet, sep: char)
    requires
        pieces.len() > 0,
        set.contains(sep),
        all_piece_chars(pieces, |c: char| !set.contains(c)),
    ensures
        split(joined(pieces, seq![sep]), set) == pieces,
    decreases pieces.len(),
{
    let other = |c: char| !set.contains(c);
    assert(all_chars(pieces[pieces.len() - 1], other));
    if pieces.len() == 1 {
        let none = Seq::<char>::empty();
        lemma_split_behind(none, pieces[0], set);
        assert(none + pieces[0] =~= pieces[0]);
        assert(split(none, set) =~= seq![none]);
        assert(seq![none].drop_last().push(none + pieces[0]) =~= pieces);
    } else {
        let front = pieces.drop_last();
        assert forall|k: int| 0 <= k < front.len() implies all_chars(#[trigger] front[k], other) by {
            assert(front[k] == pieces[k]);
        }
        lemma_split_joined(front, set, sep);
        let head = joined(front, seq![sep]) + seq![sep];
        assert(head.drop_last() =~= joined(front, seq![sep]));
        assert(split(head, set) == front.push(Seq::empty()));
        lemma_split_behind(head, pieces.last(), set);
        assert(front.push(Seq::empty()).drop_last() =~= front);
        assert(Seq::<char>::empty() + pieces.last() =~= pieces.last());
        assert(front.push(pieces.last()) =~= pieces);
    }
}

proof fn lemma_split_gaps(s: Seq<char>)
    requires
        s.len() > 0,
        !chars::is_space(s[0]),
        forall|i: int, j: int|
            0 <= i < j < s.len() && j == i + 1 && chars::is_space(
                #[trigger] s[i],
            ) ==> !chars::is_space(#[trigger] s[j]),
    ensures
        forall|k: int|
            0 <= k < split(s, CharSet::Space).len() - 1 ==> (#[trigger] split(
                s,
                CharSet::Space,
            )[k]).len() > 0,
        !chars::is_space(s.last()) ==> split(s, CharSet::Space).last().len() > 0,
    decreases s.len(),
{
    let pieces = split(s, CharSet::Space);
    let front = s.drop_last();
    let before = split(front, CharSet::Space);
    lemma_split_nonempty(front, CharSet::Space);
    if s.len() == 1 {
        assert(before =~= seq![Seq::empty()]);
    } else {
        assert(front[0] == s[0]);
        assert forall|i: int, j: int|
            0 <= i < j < front.len() && j == i + 1 && chars::is_space(
                #[trigger] front[i],
            ) implies !chars::is_space(#[trigger] front[j]) by {
            assert(front[i] == s[i] && front[j] == s[j]);
        }
        lemma_split_gaps(front);
        assert(front.last() == s[s.len() - 2]);
        assert(s.last() == s[s.len() - 1]);
        assert forall|k: int| 0 <= k < pieces.len() - 1 implies (#[trigger] pieces[k]).len() > 0 by {
            if CharSet::Space.contains(s.last()) {
                assert(pieces[k] == before[k]);
                if k == before.len() - 1 {
                    assert(!chars::is_space(s[s.len() - 2]));
                }
            } else {
                assert(pieces[k] == before[k]);
            }
        }
    }
}

/// Replacing one character removes it, where the replacement does not hold it.
pub proof fn lemma_replaced_char(s: Seq<char>, from: char, to: Seq<char>, p: spec_fn(char) -> bool)
    requires
        forall|i: int| 0 <= i < s.len() && s[i] != from ==> p(#[trigger] s[i]),
        all_chars(to, p),
    ensures
        all_chars(replaced(s, seq![from], to), p),
    decreases s.len(),
{
    if s.len() > 0 {
        let rest = s.skip(1);
        assert forall|i: int| 0 <= i < rest.len() && rest[i] != from implies p(#[trigger] rest[i]) by {
            assert(rest[i] == s[i + 1]);
        }
        lemma_replaced_char(rest, from, to, p);
        if s[0] == from {
            assert(s.take(1) =~= seq![from]);
        } else {
            assert(s.take(1)[0] == s[0]);
            assert(p(s[0]));
        }
    }
}

/// Replacing a character that is not there changes nothing.
pub proof fn lemma_replaced_absent(s: Seq<char>, from: char, to: Seq<char>)
    requires
        forall|i: int| 0 <= i < s.len() ==> #[trigger] s[i] != from,
    ensures
        replaced(s, seq![from], to) == s,
    decreases s.len(),
{
    if s.len() > 0 {
        let rest = s.skip(1);
        assert forall|i: int| 0 <= i < rest.len() implies #[trigger] rest[i] != from by {
            assert(rest[i] == s[i + 1]);
        }
        lemma_replaced_absent(rest, from, to);
        assert(s.take(1)[0] == s[0]);
        assert(seq![s[0]] + rest =~= s);
    }
}

/// Replacing keeps to the characters of the text and of the replacement.
pub proof fn lemma_replaced_chars(
    s: Seq<char>,
    from: Seq<char>,
    to: Seq<char>,
    p: spec_fn(char) -> bool,
)
    requires
        all_chars(s, p),
        all_chars(to, p),
    ensures
        all_chars(replaced(s, from, to), p),
    decreases s.len(),
{
    if from.len() == 0 || s.len() < from.len() {
    } else if s.take(from.len() as int) == from {
        let rest = s.skip(from.len() as int);
        assert forall|i: int| 0 <= i < rest.len() implies p(#[trigger] rest[i]) by {
            assert(rest[i] == s[i + from.len()]);
        }
        lemma_replaced_chars(rest, from, to, p);
    } else {
        let rest = s.skip(1);
        assert forall|i: int| 0 <= i < rest.len() implies p(#[trigger] rest[i]) by {
            assert(rest[i] == s[i + 1]);
        }
        lemma_replaced_chars(rest, from, to, p);
        assert(p(s[0]));
    }
}

/// Trimming takes off what belongs to the set at both ends, and nothing else.
pub proof fn law_trimming_takes_the_ends_off(
    left: Seq<char>,
    core: Seq<char>,
    right: Seq<char>,
    set: CharSet,
)
    requires
        forall|i: int| 0 <= i < left.len() ==> set.contains(#[trigger] left[i]),
        forall|i: int| 0 <= i < right.len() ==> set.contains(#[trigger] right[i]),
        core.len() > 0 ==> !set.contains(core[0]) && !set.contains(core.last()),
    ensures
        trimmed(left + core + right, set) == core,
        core.len() > 0 ==> trimmed_start(left + core + right, set) == core + right,
        trimmed_start(left, set) == Seq::<char>::empty(),
{
    let all = left + core + right;
    lemma_trimmed_start_skips(left, core + right, set);
    lemma_trimmed_start_skips(left, Seq::empty(), set);
    assert(left + Seq::<char>::empty() =~= left);
    assert(all =~= left + (core + right));
    if core.len() > 0 {
        assert((core + right)[0] == core[0]);
        lemma_trimmed_end_drops(core, right, set);
    } else {
        assert(core + right =~= right);
        lemma_trimmed_start_skips(right, Seq::empty(), set);
        assert(right + Seq::<char>::empty() =~= right);
        assert(core =~= Seq::<char>::empty());
    }
}

proof fn lemma_trimmed_start_skips(left: Seq<char>, rest: Seq<char>, set: CharSet)
    requires
        forall|i: int| 0 <= i < left.len() ==> set.contains(#[trigger] left[i]),
    ensures
        trimmed_start(left + rest, set) == trimmed_start(rest, set),
    decreases left.len(),
{
    if left.len() == 0 {
        assert(left + rest =~= rest);
    } else {
        let tail = left.skip(1);
        assert forall|i: int| 0 <= i < tail.len() implies set.contains(#[trigger] tail[i]) by {
            assert(tail[i] == left[i + 1]);
        }
        assert((left + rest).skip(1) =~= tail + rest);
        assert(set.contains(left[0]));
        lemma_trimmed_start_skips(tail, rest, set);
    }
}

proof fn lemma_trimmed_end_drops(core: Seq<char>, right: Seq<char>, set: CharSet)
    requires
        forall|i: int| 0 <= i < right.len() ==> set.contains(#[trigger] right[i]),
        core.len() > 0,
        !set.contains(core.last()),
    ensures
        trimmed_end(core + right, set) == core,
    decreases right.len(),
{
    if right.len() == 0 {
        assert(core + right =~= core);
    } else {
        let front = right.drop_last();
        assert forall|i: int| 0 <= i < front.len() implies set.contains(#[trigger] front[i]) by {
            assert(front[i] == right[i]);
        }
        assert((core + right).drop_last() =~= core + front);
        assert(set.contains(right[right.len() - 1]));
        lemma_trimmed_end_drops(core, front, set);
    }
}

/// A text is split at each character of the set: the pieces before it and those
/// behind it follow each other. A text without such a character is one piece.
pub proof fn law_texts_are_split_at_the_set(a: Seq<char>, c: char, b: Seq<char>, set: CharSet)
    ensures
        set.contains(c) ==> split(a.push(c) + b, set) == split(a, set) + split(b, set),
        (forall|i: int| 0 <= i < a.len() ==> !set.contains(#[trigger] a[i])) ==> split(a, set)
            == seq![a],
        set.contains(c) ==> words(a.push(c) + b, set) == words(a, set) + words(b, set),
        (forall|i: int| 0 <= i < a.len() ==> !set.contains(#[trigger] a[i])) && a.len() > 0
            ==> words(a, set) == seq![a],
        words(Seq::empty(), set) == Seq::<Seq<char>>::empty(),
{
    if set.contains(c) {
        lemma_split_at(a, c, b, set);
        lemma_nonempty_concat(split(a, set), split(b, set));
    }
    let none = Seq::<char>::empty();
    assert(split(none, set) =~= seq![none]);
    reveal(Seq::filter);
    assert(seq![none].drop_last() =~= Seq::empty());
    assert(nonempty(Seq::empty()) =~= Seq::<Seq<char>>::empty());
    assert(nonempty(seq![none]) =~= Seq::<Seq<char>>::empty());
    if forall|i: int| 0 <= i < a.len() ==> !set.contains(#[trigger] a[i]) {
        let other = |c: char| !set.contains(c);
        assert(all_chars(a, other));
        lemma_split_behind(none, a, set);
        assert(none + a =~= a);
        assert(split(a, set) =~= seq![a]);
        if a.len() > 0 {
            lemma_filter_keeps(seq![a]);
        }
    }
}

proof fn lemma_split_at(a: Seq<char>, c: char, b: Seq<char>, set: CharSet)
    requires
        set.contains(c),
    ensures
        split(a.push(c) + b, set) == split(a, set) + split(b, set),
    decreases b.len(),
{
    let all = a.push(c) + b;
    if b.len() == 0 {
        assert(all =~= a.push(c));
        assert(a.push(c).drop_last() =~= a);
        assert(split(all, set) =~= split(a, set) + split(b, set));
    } else {
        let front = b.drop_last();
        lemma_split_at(a, c, front, set);
        lemma_split_nonempty(front, set);
        assert(all.drop_last() =~= a.push(c) + front);
        assert(all.last() == b.last());
        assert(split(all, set) =~= split(a, set) + split(b, set));
    }
}

pub proof fn lemma_nonempty_concat(a: Seq<Seq<char>>, b: Seq<Seq<char>>)
    ensures
        nonempty(a + b) == nonempty(a) + nonempty(b),
    decreases b.len(),
{
    reveal(Seq::filter);
    if b.len() == 0 {
        assert(a + b =~= a);
        assert(nonempty(b) =~= Seq::empty());
        assert(nonempty(a) + nonempty(b) =~= nonempty(a));
    } else {
        lemma_nonempty_concat(a, b.drop_last());
        assert((a + b).drop_last() =~= a + b.drop_last());
        assert(nonempty(a + b) =~= nonempty(a) + nonempty(b));
    }
}

/// Joining puts the separator between two pieces, and nowhere else.
pub proof fn law_joining_separates_pieces(a: Seq<Seq<char>>, b: Seq<Seq<char>>, sep: Seq<char>)
    ensures
        a.len() > 0 && b.len() > 0 ==> joined(a + b, sep) == joined(a, sep) + sep + joined(b, sep),
        a.len() == 1 ==> joined(a, sep) == a[0],
        a.len() == 0 ==> joined(a, sep) == Seq::<char>::empty(),
    decreases b.len(),
{
    if a.len() > 0 && b.len() > 0 {
        let all = a + b;
        let front = b.drop_last();
        assert(all.drop_last() =~= a + front);
        assert(all.last() == b.last());
        if b.len() == 1 {
            assert(a + front =~= a);
        } else {
            law_joining_separates_pieces(a, front, sep);
            assert(joined(all, sep) =~= joined(a, sep) + sep + joined(b, sep));
        }
    }
}

/// A text in which the searched text stands nowhere is left as it is; otherwise
/// its first occurrence is replaced, and then the occurrences behind it.
pub proof fn law_each_occurrence_is_replaced(
    a: Seq<char>,
    b: Seq<char>,
    from: Seq<char>,
    to: Seq<char>,
)
    requires
        from.len() > 0,
    ensures
        (forall|i: int| !#[trigger] occurs_at(a, from, i)) ==> replaced(a, from, to) == a,
        (forall|i: int| 0 <= i < a.len() ==> !#[trigger] occurs_at(a + from + b, from, i))
            ==> replaced(a + from + b, from, to) == a + to + replaced(b, from, to),
{
    if forall|i: int| !#[trigger] occurs_at(a, from, i) {
        lemma_replaced_nowhere(a, from, to);
    }
    if forall|i: int| 0 <= i < a.len() ==> !#[trigger] occurs_at(a + from + b, from, i) {
        lemma_replaced_first(a, b, from, to);
    }
}

proof fn lemma_occurs_in_tail(s: Seq<char>, from: Seq<char>, i: int)
    requires
        s.len() > 0,
        0 <= i,
    ensures
        occurs_at(s.skip(1), from, i) == occurs_at(s, from, i + 1),
{
    if i + 1 + from.len() <= s.len() {
        assert(s.subrange(i + 1, i + 1 + from.len()) =~= s.skip(1).subrange(i, i + from.len()));
    }
}

pub proof fn lemma_replaced_nowhere(a: Seq<char>, from: Seq<char>, to: Seq<char>)
    requires
        from.len() > 0,
        forall|i: int| !#[trigger] occurs_at(a, from, i),
    ensures
        replaced(a, from, to) == a,
    decreases a.len(),
{
    if a.len() >= from.len() {
        let tail = a.skip(1);
        assert forall|i: int| !#[trigger] occurs_at(tail, from, i) by {
            if 0 <= i {
                lemma_occurs_in_tail(a, from, i);
                assert(!occurs_at(a, from, i + 1));
            }
        }
        lemma_replaced_nowhere(tail, from, to);
        assert(!occurs_at(a, from, 0));
        assert(a.take(from.len() as int) =~= a.subrange(0, from.len() as int));
        assert(seq![a[0]] + tail =~= a);
    }
}

pub proof fn lemma_replaced_first(a: Seq<char>, b: Seq<char>, from: Seq<char>, to: Seq<char>)
    requires
        from.len() > 0,
        forall|i: int| 0 <= i < a.len() ==> !#[trigger] occurs_at(a + from + b, from, i),
    ensures
        replaced(a + from + b, from, to) == a + to + replaced(b, from, to),
    decreases a.len(),
{
    let all = a + from + b;
    if a.len() == 0 {
        assert(all.take(from.len() as int) =~= from);
        assert(all.skip(from.len() as int) =~= b);
        assert(a + to + replaced(b, from, to) =~= to + replaced(b, from, to));
    } else {
        let tail = a.skip(1);
        let rest = tail + from + b;
        assert(all.skip(1) =~= rest);
        assert forall|i: int| 0 <= i < tail.len() implies !#[trigger] occurs_at(rest, from, i) by {
            lemma_occurs_in_tail(all, from, i);
            assert(!occurs_at(all, from, i + 1));
        }
        lemma_replaced_first(tail, b, from, to);
        assert(!occurs_at(all, from, 0));
        assert(all.take(from.len() as int) =~= all.subrange(0, from.len() as int));
        assert(all[0] == a[0]);
        assert(replaced(all, from, to) == seq![a[0]] + replaced(rest, from, to));
        assert(seq![a[0]] + (tail + to + replaced(b, from, to)) =~= a + to + replaced(b, from, to));
    }
}

/// A text stands in another at a position just where it follows that many
/// characters; it is found at the first such position.
pub proof fn law_texts_are_found_where_they_stand(
    before: Seq<char>,
    needle: Seq<char>,
    after: Seq<char>,
)
    ensures
        occurs_at(before + needle + after, needle, before.len() as int),
        begins_with(needle + after, needle),
        has_text(before + needle + after, needle),
        find_from(before + needle + after, needle, 0) matches Some(i) && i <= before.len() && (
        before + needle + after).subrange(i, i + needle.len()) == needle,
        find_from(before, needle, 0) matches Some(i) ==> before.subrange(i, i + needle.len())
            == needle && forall|j: int| 0 <= j < i ==> !#[trigger] occurs_at(before, needle, j),
        find_from(before, needle, 0) is None ==> forall|j: int|
            !#[trigger] occurs_at(before, needle, j),
        begins_with(before, needle) ==> before == needle + before.skip(needle.len() as int),
{
    let all = before + needle + after;
    assert(all.subrange(before.len() as int, (before.len() + needle.len()) as int) =~= needle);
    assert((needle + after).subrange(0, needle.len() as int) =~= needle);
    lemma_found_first(all, needle, 0);
    lemma_found_first(before, needle, 0);
    if begins_with(before, needle) {
        assert(before =~= needle + before.skip(needle.len() as int)) by {
            assert(before.subrange(0, needle.len() as int) == needle);
            assert forall|i: int| 0 <= i < needle.len() implies before[i] == needle[i] by {
                assert(before.subrange(0, needle.len() as int)[i] == before[i]);
            }
        }
    }
}

pub proof fn lemma_found_first(s: Seq<char>, needle: Seq<char>, from: int)
    requires
        0 <= from,
    ensures
        match find_from(s, needle, from) {
            Some(i) => from <= i && occurs_at(s, needle, i) && forall|j: int|
                from <= j < i ==> !#[trigger] occurs_at(s, needle, j),
            None => forall|j: int| from <= j ==> !#[trigger] occurs_at(s, needle, j),
        },
    decreases s.len() + 1 - from,
{
    if from + needle.len() <= s.len() && !occurs_at(s, needle, from) {
        lemma_found_first(s, needle, from + 1);
    }
}

/// Two texts are in the order of the first characters in which they differ, and
/// a text stands before its continuations.
pub proof fn law_texts_are_in_dictionary_order(
    common: Seq<char>,
    x: char,
    a: Seq<char>,
    y: char,
    b: Seq<char>,
)
    ensures
        x != y ==> (precedes(common.push(x) + a, common.push(y) + b) <==> x < y),
        precedes(common, common.push(y) + b),
        !precedes(common.push(x) + a, common),
        !precedes(common, common),
{
    let none = Seq::<char>::empty();
    let left = seq![x] + a;
    let right = seq![y] + b;
    assert(common.push(x) + a =~= common + left);
    assert(common.push(y) + b =~= common + right);
    assert(common + none =~= common);
    lemma_precedes_concat(common, common, left, right);
    lemma_precedes_concat(common, common, none, right);
    lemma_precedes_concat(common, common, left, none);
    lemma_precedes_concat(common, common, none, none);
}

/// Collapsing the white space of a text keeps what stands at its ends.
pub proof fn lemma_collapsed_ends(s: Seq<char>)
    requires
        s.len() > 0,
        !chars::is_space(s[0]),
        !chars::is_space(s.last()),
    ensures
        words(s, CharSet::Space).len() > 0,
        joined(words(s, CharSet::Space), " "@).len() > 0,
        joined(words(s, CharSet::Space), " "@)[0] == s[0],
        joined(words(s, CharSet::Space), " "@).last() == s.last(),
{
    let pieces = split(s, CharSet::Space);
    lemma_split_ends(s, CharSet::Space);
    lemma_nonempty_ends(pieces);
    lemma_joined_ends(nonempty(pieces), " "@);
}

proof fn lemma_split_ends(s: Seq<char>, set: CharSet)
    requires
        s.len() > 0,
        !set.contains(s[0]),
    ensures
        split(s, set).len() > 0,
        split(s, set)[0].len() > 0,
        split(s, set)[0][0] == s[0],
        !set.contains(s.last()) ==> split(s, set).last().len() > 0 && split(s, set).last().last()
            == s.last(),
    decreases s.len(),
{
    let front = s.drop_last();
    lemma_split_nonempty(front, set);
    let pieces = split(front, set);
    if front.len() == 0 {
        assert(pieces =~= seq![Seq::<char>::empty()]);
    } else {
        lemma_split_ends(front, set);
    }
}

proof fn lemma_nonempty_ends(pieces: Seq<Seq<char>>)
    requires
        pieces.len() > 0,
        pieces[0].len() > 0,
    ensures
        nonempty(pieces).len() > 0,
        nonempty(pieces)[0] == pieces[0],
        pieces.last().len() > 0 ==> nonempty(pieces).last() == pieces.last(),
        forall|k: int| 0 <= k < nonempty(pieces).len() ==> (#[trigger] nonempty(pieces)[k]).len() > 0,
    decreases pieces.len(),
{
    reveal(Seq::filter);
    let front = pieces.drop_last();
    if front.len() == 0 {
        assert(nonempty(front) =~= Seq::empty());
    } else {
        lemma_nonempty_ends(front);
    }
}

proof fn lemma_joined_ends(pieces: Seq<Seq<char>>, sep: Seq<char>)
    requires
        pieces.len() > 0,
        forall|k: int| 0 <= k < pieces.len() ==> (#[trigger] pieces[k]).len() > 0,
    ensures
        joined(pieces, sep).len() > 0,
        joined(pieces, sep)[0] == pieces[0][0],
        joined(pieces, sep).last() == pieces.last().last(),
    decreases pieces.len(),
{
    assert(pieces[pieces.len() - 1].len() > 0);
    if pieces.len() > 1 {
        let front = pieces.drop_last();
        assert forall|k: int| 0 <= k < front.len() implies (#[trigger] front[k]).len() > 0 by {
            assert(front[k] == pieces[k]);
        }
        lemma_joined_ends(front, sep);
    }
}

/// Collapsed texts follow each other where white space stands between them.
pub proof fn lemma_collapsed_concat(a: Seq<char>, c: char, b: Seq<char>)
    requires
        words(a, CharSet::Space).len() > 0,
        words(b, CharSet::Space).len() > 0,
        chars::is_space(c),
    ensures
        joined(words(a.push(c) + b, CharSet::Space), " "@) == joined(words(a, CharSet::Space), " "@)
            + " "@ + joined(words(b, CharSet::Space), " "@),
{
    law_texts_are_split_at_the_set(a, c, b, CharSet::Space);
    law_joining_separates_pieces(words(a, CharSet::Space), words(b, CharSet::Space), " "@);
}

/// A character of the set behind a text makes no difference to its trimmed form.
pub proof fn lemma_trimmed_behind(s: Seq<char>, c: char, set: CharSet)
    requires
        set.contains(c),
    ensures
        trimmed(s.push(c), set) == trimmed(s, set),
{
    lemma_trimmed_start_push(s, c, set);
    let start = trimmed_start(s, set);
    if start.len() > 0 {
        assert(start.push(c).drop_last() =~= start);
    } else {
        assert(start =~= Seq::empty());
    }
}

/// Replacing one character by another changes that character wherever it stands.
pub proof fn lemma_replaced_one(s: Seq<char>, from: char, to: char)
    ensures
        replaced(s, seq![from], seq![to]) == s.map_values(
            |c: char|
                if c == from {
                    to
                } else {
                    c
                },
        ),
    decreases s.len(),
{
    let after = s.map_values(
        |c: char|
            if c == from {
                to
            } else {
                c
            },
    );
    if s.len() > 0 {
        lemma_replaced_one(s.skip(1), from, to);
        assert(s.take(1) =~= seq![s[0]]);
        if s[0] != from {
            assert(s.take(1)[0] != seq![from][0]);
        }
        assert(replaced(s, seq![from], seq![to]) =~= after);
    } else {
        assert(after =~= s);
    }
}

/// A text that begins with something other than white space has a word.
pub proof fn lemma_has_words(s: Seq<char>)
    requires
        s.len() > 0,
        !chars::is_space(s[0]),
    ensures
        words(s, CharSet::Space).len() > 0,
{
    lemma_split_ends(s, CharSet::Space);
    lemma_nonempty_ends(split(s, CharSet::Space));
}

/// Dots before a text that begins with something else are trimmed off.
pub proof fn lemma_dots_before(dots: Seq<char>, rest: Seq<char>)
    requires
        forall|i: int| 0 <= i < dots.len() ==> CharSet::Dot.contains(#[trigger] dots[i]),
        rest.len() > 0,
        rest[0] != '.',
    ensures
        trimmed_start(dots + rest, CharSet::Dot) == rest,
{
    lemma_trimmed_start_skips(dots, rest, CharSet::Dot);
}

} // verus!
