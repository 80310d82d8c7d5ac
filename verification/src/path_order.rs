//! The order of paths, component by component.
use vstd::prelude::*;

use crate::chars::CharSet;
use crate::model::{MediaPath, PathView};
use crate::text;

verus! {

/// The components of a path: an empty one for the root, the directories, and
/// the file name.
pub open spec fn components(p: PathView) -> Seq<Seq<char>> {
    let dirs = text::words(p.directory, CharSet::Slash);
    let rooted = if p.directory.len() > 0 && p.directory[0] == '/' {
        seq![Seq::<char>::empty()] + dirs
    } else {
        dirs
    };
    rooted.push(p.name)
}

/// The root stands before the current directory, that before the parent
/// directory, and that before every other name.
pub open spec fn component_rank(c: Seq<char>) -> int {
    if c.len() == 0 {
        0
    } else if c == "."@ {
        1
    } else if c == ".."@ {
        2
    } else {
        3
    }
}

/// Whether one component stands before another.
pub open spec fn component_before(a: Seq<char>, b: Seq<char>) -> bool {
    if component_rank(a) != component_rank(b) {
        component_rank(a) < component_rank(b)
    } else {
        text::precedes(a, b)
    }
}

/// Whether one list of components stands before another: by the first
/// component in which they differ, and a shorter list before its extensions.
pub open spec fn list_before(a: Seq<Seq<char>>, b: Seq<Seq<char>>) -> bool
    decreases a.len(),
{
    if b.len() == 0 {
        false
    } else if a.len() == 0 {
        true
    } else if a[0] != b[0] {
        component_before(a[0], b[0])
    } else {
        list_before(a.skip(1), b.skip(1))
    }
}

/// Whether one path stands before another.
pub open spec fn path_before(a: PathView, b: PathView) -> bool {
    list_before(components(a), components(b))
}

proof fn lemma_list_before_one_way(a: Seq<Seq<char>>, b: Seq<Seq<char>>)
    ensures
        !(list_before(a, b) && list_before(b, a)),
        !list_before(a, b) && !list_before(b, a) ==> a == b,
    decreases a.len(),
{
    if a.len() > 0 && b.len() > 0 {
        text::lemma_precedes_one_way(a[0], b[0]);
        if a[0] == b[0] {
            lemma_list_before_one_way(a.skip(1), b.skip(1));
            if a.skip(1) == b.skip(1) {
                assert(a =~= seq![a[0]] + a.skip(1));
                assert(b =~= seq![b[0]] + b.skip(1));
            }
        }
    } else if a.len() == 0 && b.len() == 0 {
        assert(a =~= b);
    }
}

proof fn lemma_list_before_chain(a: Seq<Seq<char>>, b: Seq<Seq<char>>, c: Seq<Seq<char>>)
    requires
        list_before(a, b),
        list_before(b, c),
    ensures
        list_before(a, c),
    decreases a.len(),
{
    if a.len() > 0 {
        if a[0] == b[0] && b[0] == c[0] {
            lemma_list_before_chain(a.skip(1), b.skip(1), c.skip(1));
        } else if a[0] != b[0] && b[0] != c[0] {
            if component_rank(a[0]) == component_rank(b[0]) && component_rank(b[0])
                == component_rank(c[0]) {
                text::lemma_precedes_chain(a[0], b[0], c[0]);
            }
            text::lemma_precedes_one_way(a[0], b[0]);
        }
    }
}

/// Paths are in a strict order: no path stands before itself, of two paths at
/// most one stands before the other, what stands before a path stands before
/// all that follow it, and two paths that neither way stand before each other
/// have the same components.
pub proof fn law_paths_are_in_order(a: PathView, b: PathView, c: PathView)
    ensures
        !path_before(a, a),
        !(path_before(a, b) && path_before(b, a)),
        path_before(a, b) && path_before(b, c) ==> path_before(a, c),
        !path_before(a, b) && !path_before(b, a) ==> components(a) == components(b),
{
    lemma_list_before_one_way(components(a), components(a));
    lemma_list_before_one_way(components(a), components(b));
    if path_before(a, b) && path_before(b, c) {
        lemma_list_before_chain(components(a), components(b), components(c));
    }
}

/// The components of a path, as texts.
pub fn components_of(p: &MediaPath) -> (res: Vec<String>)
    ensures
        text::views(res@) == components(p@),
{
    let dirs = text::split_words(p.directory.as_str(), CharSet::Slash);
    let ghost words = text::views(dirs@);
    let letters = text::to_chars(p.directory.as_str());
    let mut out: Vec<String> = Vec::new();
    if letters.len() > 0 && letters[0] == '/' {
        out.push(String::new());
    }
    let ghost head = text::views(out@);
    assert(head =~= if p.directory@.len() > 0 && p.directory@[0] == '/' {
        seq![Seq::<char>::empty()]
    } else {
        Seq::empty()
    });
    let mut i: usize = 0;
    assert(head + words.take(0) =~= head);
    while i < dirs.len()
        invariant
            i <= dirs.len(),
            words == text::views(dirs@),
            text::views(out@) == head + words.take(i as int),
        decreases dirs.len() - i,
    {
        let ghost before = text::views(out@);
        out.push(dirs[i].clone());
        assert(words[i as int] == dirs@[i as int]@);
        assert(text::views(out@) =~= before.push(words[i as int]));
        assert(head + words.take(i + 1) =~= before.push(words[i as int]));
        i += 1;
    }
    assert(words.take(words.len() as int) =~= words);
    assert(Seq::<Seq<char>>::empty() + words =~= words);
    let ghost before = text::views(out@);
    out.push(p.name.clone());
    assert(text::views(out@) =~= before.push(p.name@));
    out
}

fn rank_of(c: &str) -> (res: u8)
    ensures
        res == component_rank(c@),
{
    if c.is_empty() {
        0
    } else if text::same_text(c, ".") {
        1
    } else if text::same_text(c, "..") {
        2
    } else {
        3
    }
}

/// Whether one list of components stands before another.
pub fn components_before(a: &Vec<String>, b: &Vec<String>) -> (res: bool)
    ensures
        res == list_before(text::views(a@), text::views(b@)),
{
    let ghost x = text::views(a@);
    let ghost y = text::views(b@);
    let mut i: usize = 0;
    assert(x.skip(0) =~= x);
    assert(y.skip(0) =~= y);
    while i < a.len() && i < b.len()
        invariant
            i <= a.len(),
            i <= b.len(),
            x == text::views(a@),
            y == text::views(b@),
            list_before(x, y) == list_before(x.skip(i as int), y.skip(i as int)),
        decreases a.len() - i,
    {
        assert(x.skip(i as int)[0] == a@[i as int]@);
        assert(y.skip(i as int)[0] == b@[i as int]@);
        if !text::same_text(a[i].as_str(), b[i].as_str()) {
            let ra = rank_of(a[i].as_str());
            let rb = rank_of(b[i].as_str());
            if ra != rb {
                return ra < rb;
            }
            return text::text_precedes(a[i].as_str(), b[i].as_str());
        }
        assert(x.skip(i as int).skip(1) =~= x.skip(i + 1));
        assert(y.skip(i as int).skip(1) =~= y.skip(i + 1));
        i += 1;
    }
    i < b.len()
}

/// The views of a list of paths.
pub open spec fn path_views(list: Seq<MediaPath>) -> Seq<PathView> {
    list.map_values(|p: MediaPath| p@)
}

/// Whether the path at one index comes before the path at another: in the order
/// of the paths, and by the index where the paths have the same components.
pub open spec fn index_before(paths: Seq<PathView>, i: int, j: int) -> bool {
    path_before(paths[i], paths[j]) || (!path_before(paths[j], paths[i]) && i < j)
}

/// Whether the indices of a list lead through the paths in order.
pub open spec fn in_order(paths: Seq<PathView>, list: Seq<usize>) -> bool {
    forall|i: int, j: int|
        0 <= i < j < list.len() ==> !index_before(
            paths,
            #[trigger] list[j] as int,
            #[trigger] list[i] as int,
        )
}

/// Whether every entry of a list is an index of a list of `n` items.
pub open spec fn indices_below(list: Seq<usize>, n: int) -> bool {
    forall|i: int| 0 <= i < list.len() ==> #[trigger] list[i] < n
}

proof fn lemma_not_after_chain(paths: Seq<PathView>, i: int, j: int, k: int)
    requires
        !index_before(paths, j, i),
        !index_before(paths, k, j),
    ensures
        !index_before(paths, k, i),
{
    law_paths_are_in_order(paths[i], paths[j], paths[k]);
    law_paths_are_in_order(paths[k], paths[i], paths[j]);
    law_paths_are_in_order(paths[j], paths[k], paths[i]);
    law_paths_are_in_order(paths[k], paths[j], paths[i]);
    law_paths_are_in_order(paths[j], paths[i], paths[k]);
    law_paths_are_in_order(paths[i], paths[k], paths[j]);
}

proof fn lemma_none_before(paths: Seq<PathView>, list: Seq<usize>, start: int, next: int)
    requires
        0 <= start < list.len(),
        in_order(paths, list),
        !index_before(paths, list[start] as int, next),
    ensures
        forall|k: int|
            start <= k < list.len() ==> !index_before(paths, #[trigger] list[k] as int, next),
{
    assert forall|k: int| start <= k < list.len() implies !index_before(
        paths,
        #[trigger] list[k] as int,
        next,
    ) by {
        if k > start {
            lemma_not_after_chain(paths, next, list[start] as int, list[k] as int);
        }
    }
}

fn comes_before(
    keys: &Vec<Vec<String>>,
    i: usize,
    j: usize,
    Ghost(paths): Ghost<Seq<PathView>>,
) -> (res: bool)
    requires
        i < keys.len(),
        j < keys.len(),
        keys_of(keys@, paths),
    ensures
        res == index_before(paths, i as int, j as int),
{
    assert(text::views(keys@[i as int]@) == components(paths[i as int]));
    assert(text::views(keys@[j as int]@) == components(paths[j as int]));
    components_before(&keys[i], &keys[j]) || (!components_before(&keys[j], &keys[i]) && i < j)
}

/// The component lists of a list of paths.
spec fn keys_of(keys: Seq<Vec<String>>, paths: Seq<PathView>) -> bool {
    &&& keys.len() == paths.len()
    &&& forall|i: int|
        0 <= i < keys.len() ==> text::views((#[trigger] keys[i])@) == components(paths[i])
}

fn merge(
    keys: &Vec<Vec<String>>,
    a: Vec<usize>,
    b: Vec<usize>,
    Ghost(paths): Ghost<Seq<PathView>>,
) -> (res: Vec<usize>)
    requires
        keys_of(keys@, paths),
        indices_below(a@, keys@.len() as int),
        indices_below(b@, keys@.len() as int),
        in_order(paths, a@),
        in_order(paths, b@),
        a@.len() + b@.len() <= usize::MAX,
    ensures
        res@.to_multiset() == a@.to_multiset().add(b@.to_multiset()),
        res@.len() == a@.len() + b@.len(),
        indices_below(res@, keys@.len() as int),
        in_order(paths, res@),
{
    let mut out: Vec<usize> = Vec::new();
    let mut i: usize = 0;
    let mut j: usize = 0;
    proof {
        assert(a@.take(0) =~= Seq::<usize>::empty());
        assert(b@.take(0) =~= Seq::<usize>::empty());
        a@.take(0).to_multiset_ensures();
        b@.take(0).to_multiset_ensures();
        assert(out@.to_multiset() =~= a@.take(0).to_multiset().add(b@.take(0).to_multiset()));
    }
    while i < a.len() || j < b.len()
        invariant
            i <= a.len(),
            j <= b.len(),
            a@.len() + b@.len() <= usize::MAX,
            keys_of(keys@, paths),
            indices_below(a@, keys@.len() as int),
            indices_below(b@, keys@.len() as int),
            in_order(paths, a@),
            in_order(paths, b@),
            out@.len() == i + j,
            out@.to_multiset() == a@.take(i as int).to_multiset().add(
                b@.take(j as int).to_multiset(),
            ),
            indices_below(out@, keys@.len() as int),
            in_order(paths, out@),
            forall|x: int, y: int|
                0 <= x < out@.len() && i <= y < a@.len() ==> !index_before(
                    paths,
                    #[trigger] a@[y] as int,
                    #[trigger] out@[x] as int,
                ),
            forall|x: int, y: int|
                0 <= x < out@.len() && j <= y < b@.len() ==> !index_before(
                    paths,
                    #[trigger] b@[y] as int,
                    #[trigger] out@[x] as int,
                ),
        decreases a.len() - i + b.len() - j,
    {
        let take_b = i >= a.len() || (j < b.len() && comes_before(keys, b[j], a[i], Ghost(paths)));
        let ghost before = out@;
        let next = if take_b {
            b[j]
        } else {
            a[i]
        };
        proof {
            law_paths_are_in_order(
                paths[next as int],
                paths[next as int],
                paths[next as int],
            );
            if i < a@.len() {
                law_paths_are_in_order(
                    paths[next as int],
                    paths[a@[i as int] as int],
                    paths[next as int],
                );
                lemma_none_before(paths, a@, i as int, next as int);
            }
            if j < b@.len() {
                law_paths_are_in_order(
                    paths[next as int],
                    paths[b@[j as int] as int],
                    paths[next as int],
                );
                lemma_none_before(paths, b@, j as int, next as int);
            }
            before.to_multiset_ensures();
            a@.take(i as int).to_multiset_ensures();
            b@.take(j as int).to_multiset_ensures();
            if take_b {
                assert(b@.take(j + 1) =~= b@.take(j as int).push(next));
            } else {
                assert(a@.take(i + 1) =~= a@.take(i as int).push(next));
            }
        }
        out.push(next);
        if take_b {
            j += 1;
        } else {
            i += 1;
        }
        assert(out@.to_multiset() =~= a@.take(i as int).to_multiset().add(
            b@.take(j as int).to_multiset(),
        ));
    }
    assert(a@.take(a@.len() as int) =~= a@);
    assert(b@.take(b@.len() as int) =~= b@);
    out
}

fn sort_keys(
    keys: &Vec<Vec<String>>,
    list: &Vec<usize>,
    from: usize,
    to: usize,
    Ghost(paths): Ghost<Seq<PathView>>,
) -> (res: Vec<usize>)
    requires
        from <= to <= list@.len(),
        keys_of(keys@, paths),
        indices_below(list@, keys@.len() as int),
    ensures
        res@.to_multiset() == list@.subrange(from as int, to as int).to_multiset(),
        res@.len() == to - from,
        indices_below(res@, keys@.len() as int),
        in_order(paths, res@),
    decreases to - from,
{
    let mut out: Vec<usize> = Vec::new();
    if to - from == 0 {
        assert(list@.subrange(from as int, to as int) =~= out@);
        return out;
    }
    if to - from == 1 {
        out.push(list[from]);
        assert(list@.subrange(from as int, to as int) =~= out@);
        return out;
    }
    let middle: usize = from + (to - from) / 2;
    let first = sort_keys(keys, list, from, middle, Ghost(paths));
    let second = sort_keys(keys, list, middle, to, Ghost(paths));
    proof {
        let x = list@.subrange(from as int, middle as int);
        let y = list@.subrange(middle as int, to as int);
        assert(list@.subrange(from as int, to as int) =~= x + y);
        vstd::seq_lib::lemma_multiset_commutative(x, y);
    }
    merge(keys, first, second, Ghost(paths))
}

proof fn lemma_same_entries(list: Seq<usize>, sorted: Seq<usize>)
    requires
        sorted.to_multiset() == list.to_multiset(),
    ensures
        forall|i: usize| #[trigger] sorted.contains(i) <==> list.contains(i),
        list.no_duplicates() ==> sorted.no_duplicates(),
{
    list.to_multiset_ensures();
    sorted.to_multiset_ensures();
    assert forall|i: usize| #[trigger] sorted.contains(i) <==> list.contains(i) by {
        assert(sorted.contains(i) <==> sorted.to_multiset().count(i) > 0);
        assert(list.contains(i) <==> list.to_multiset().count(i) > 0);
    }
    if list.no_duplicates() {
        list.lemma_multiset_has_no_duplicates();
        sorted.lemma_multiset_has_no_duplicates_conv();
    }
}

/// Puts a list of indices in the order of the paths they stand for.
pub fn sort_indices(paths: &Vec<MediaPath>, list: &Vec<usize>) -> (res: Vec<usize>)
    requires
        indices_below(list@, paths@.len() as int),
    ensures
        res@.to_multiset() == list@.to_multiset(),
        res@.len() == list@.len(),
        indices_below(res@, paths@.len() as int),
        in_order(path_views(paths@), res@),
        forall|i: usize| #[trigger] res@.contains(i) <==> list@.contains(i),
        list@.no_duplicates() ==> res@.no_duplicates(),
{
    let mut keys: Vec<Vec<String>> = Vec::new();
    let mut i: usize = 0;
    let ghost views = path_views(paths@);
    while i < paths.len()
        invariant
            i <= paths.len(),
            views == path_views(paths@),
            keys@.len() == i,
            forall|k: int|
                0 <= k < i ==> text::views((#[trigger] keys@[k])@) == components(views[k]),
        decreases paths.len() - i,
    {
        keys.push(components_of(&paths[i]));
        i += 1;
    }
    assert(list@.subrange(0, list@.len() as int) =~= list@);
    let res = sort_keys(&keys, list, 0, list.len(), Ghost(views));
    proof {
        lemma_same_entries(list@, res@);
    }
    res
}

/// A list of indices leads once through all paths, in order.
pub open spec fn is_sorting(paths: Seq<PathView>, order: Seq<usize>) -> bool {
    &&& order.len() == paths.len()
    &&& indices_below(order, paths.len() as int)
    &&& order.no_duplicates()
    &&& forall|i: usize| 0 <= i < paths.len() ==> #[trigger] order.contains(i)
    &&& in_order(paths, order)
}

/// There is one order only in which a list of paths stands.
pub proof fn law_sorting_is_unique(paths: Seq<PathView>, a: Seq<usize>, b: Seq<usize>)
    requires
        is_sorting(paths, a),
        is_sorting(paths, b),
    ensures
        a == b,
{
    lemma_same_start(paths, a, b, paths.len() as int);
    assert(a =~= b);
}

proof fn lemma_same_start(paths: Seq<PathView>, a: Seq<usize>, b: Seq<usize>, n: int)
    requires
        is_sorting(paths, a),
        is_sorting(paths, b),
        0 <= n <= paths.len(),
    ensures
        forall|k: int| 0 <= k < n ==> a[k] == b[k],
    decreases n,
{
    if n > 0 {
        let m = n - 1;
        lemma_same_start(paths, a, b, m);
        let i = a[m];
        let j = b[m];
        if i != j {
            assert(b.contains(i) && a.contains(j));
            let x = choose|x: int| 0 <= x < b.len() && b[x] == i;
            let y = choose|y: int| 0 <= y < a.len() && a[y] == j;
            assert(x > m) by {
                if x < m {
                    assert(a[x] == b[x]);
                }
            }
            assert(y > m) by {
                if y < m {
                    assert(a[y] == b[y]);
                }
            }
            assert(!index_before(paths, b[x] as int, b[m] as int));
            assert(!index_before(paths, a[y] as int, a[m] as int));
            law_paths_are_in_order(paths[i as int], paths[j as int], paths[i as int]);
        }
    }
}

/// The order in which the paths stand, as a list of their indices.
pub fn sort_order(paths: &Vec<MediaPath>) -> (res: Vec<usize>)
    ensures
        is_sorting(path_views(paths@), res@),
{
    let mut all: Vec<usize> = Vec::new();
    let mut i: usize = 0;
    while i < paths.len()
        invariant
            i <= paths.len(),
            all@.len() == i,
            forall|k: int| 0 <= k < i ==> #[trigger] all@[k] == k,
        decreases paths.len() - i,
    {
        all.push(i);
        i += 1;
    }
    let order = sort_indices(paths, &all);
    assert forall|i: usize| 0 <= i < paths@.len() implies #[trigger] order@.contains(i) by {
        assert(all@.contains(all@[i as int]));
    }
    order
}

/// Two files of one directory stand in the order of their names; of two lists of
/// names the first that differ decide, and a list stands before those that
/// continue it.
pub proof fn law_first_difference_orders_paths(
    common: Seq<Seq<char>>,
    x: Seq<char>,
    a: Seq<Seq<char>>,
    y: Seq<char>,
    b: Seq<Seq<char>>,
)
    ensures
        x != y ==> (list_before(common.push(x) + a, common.push(y) + b) <==> component_before(x, y)),
        list_before(common, common.push(y) + b),
        !list_before(common.push(x) + a, common),
        !list_before(common, common),
    decreases common.len(),
{
    let left = common.push(x) + a;
    let right = common.push(y) + b;
    if common.len() == 0 {
        assert(left[0] == x);
        assert(right[0] == y);
    } else {
        let rest = common.skip(1);
        law_first_difference_orders_paths(rest, x, a, y, b);
        assert(left.skip(1) =~= rest.push(x) + a);
        assert(right.skip(1) =~= rest.push(y) + b);
        assert(left[0] == common[0]);
        assert(right[0] == common[0]);
    }
}

/// Names stand in the order of their characters, behind the root, the current
/// directory and the parent directory, which stand in this order.
pub proof fn law_names_are_in_dictionary_order(a: Seq<char>, b: Seq<char>)
    requires
        a.len() > 0 && b.len() > 0,
        a != seq!['.'] && a != seq!['.', '.'],
        b != seq!['.'] && b != seq!['.', '.'],
    ensures
        component_before(a, b) <==> text::precedes(a, b),
        component_before(Seq::empty(), seq!['.']),
        component_before(seq!['.'], seq!['.', '.']),
        component_before(seq!['.', '.'], a),
        !component_before(a, seq!['.', '.']),
{
    reveal_strlit(".");
    reveal_strlit("..");
    assert("."@ =~= seq!['.']);
    assert(".."@ =~= seq!['.', '.']);
    assert(seq!['.'].len() != seq!['.', '.'].len());
}

/// The components of a path are its directories, the name last, and the root
/// before them where the path begins with a slash.
pub proof fn law_paths_are_lists_of_names(dir: Seq<char>, sub: Seq<char>, name: Seq<char>)
    requires
        dir.len() > 0,
        sub.len() > 0,
        forall|i: int| 0 <= i < sub.len() ==> #[trigger] sub[i] != '/',
    ensures
        components(PathView { directory: dir.push('/') + sub, name }) == components(
            PathView { directory: dir, name: sub },
        ).push(name),
        components(PathView { directory: Seq::empty(), name }) == seq![name],
        components(PathView { directory: sub, name }) == seq![sub, name],
        components(PathView { directory: seq!['/'] + sub, name }) == seq![Seq::empty(), sub, name],
{
    lemma_deeper_components(dir, sub, name);
    lemma_flat_components(sub, name);
}

proof fn lemma_one_word(sub: Seq<char>)
    requires
        sub.len() > 0,
        forall|i: int| 0 <= i < sub.len() ==> #[trigger] sub[i] != '/',
    ensures
        text::words(sub, CharSet::Slash) == seq![sub],
{
    assert forall|i: int| 0 <= i < sub.len() implies !CharSet::Slash.contains(
        #[trigger] sub[i],
    ) by {
        assert(sub[i] != '/');
    }
    text::law_texts_are_split_at_the_set(sub, '/', Seq::empty(), CharSet::Slash);
}

proof fn lemma_deeper_components(dir: Seq<char>, sub: Seq<char>, name: Seq<char>)
    requires
        dir.len() > 0,
        sub.len() > 0,
        forall|i: int| 0 <= i < sub.len() ==> #[trigger] sub[i] != '/',
    ensures
        components(PathView { directory: dir.push('/') + sub, name }) == components(
            PathView { directory: dir, name: sub },
        ).push(name),
{
    lemma_one_word(sub);
    text::law_texts_are_split_at_the_set(dir, '/', sub, CharSet::Slash);
    assert((dir.push('/') + sub)[0] == dir[0]);
    let ws = text::words(dir, CharSet::Slash);
    let root = seq![Seq::<char>::empty()];
    assert(ws + seq![sub] =~= ws.push(sub));
    assert(root + ws.push(sub) =~= (root + ws).push(sub));
}

proof fn lemma_flat_components(sub: Seq<char>, name: Seq<char>)
    requires
        sub.len() > 0,
        forall|i: int| 0 <= i < sub.len() ==> #[trigger] sub[i] != '/',
    ensures
        components(PathView { directory: Seq::empty(), name }) == seq![name],
        components(PathView { directory: sub, name }) == seq![sub, name],
        components(PathView { directory: seq!['/'] + sub, name }) == seq![Seq::empty(), sub, name],
{
    let none = Seq::<char>::empty();
    lemma_one_word(sub);
    text::law_texts_are_split_at_the_set(none, '/', sub, CharSet::Slash);
    assert(sub[0] != '/');
    assert(none.push('/') + sub =~= seq!['/'] + sub);
    let no_words = Seq::<Seq<char>>::empty();
    assert(no_words.push(name) =~= seq![name]);
    assert(no_words + seq![sub] =~= seq![sub]);
    assert(seq![sub].push(name) =~= seq![sub, name]);
    assert((seq![none] + seq![sub]).push(name) =~= seq![none, sub, name]);
}

/// Paths with the same components keep the order in which they were given.
pub proof fn law_equal_paths_keep_their_order(paths: Seq<PathView>, i: int, j: int)
    requires
        0 <= i < paths.len(),
        0 <= j < paths.len(),
    ensures
        components(paths[i]) == components(paths[j]) ==> (index_before(paths, i, j) <==> i < j),
        path_before(paths[i], paths[j]) ==> index_before(paths, i, j) && !index_before(paths, j, i),
        path_before(paths[i], paths[j]) <==> list_before(components(paths[i]), components(paths[j])),
{
    law_paths_are_in_order(paths[i], paths[j], paths[i]);
    law_paths_are_in_order(paths[j], paths[i], paths[j]);
}

/// A sorting leads through every path once, and of two paths the one that stands
/// before the other comes first.
pub proof fn law_sortings_lead_through_all_paths(
    paths: Seq<PathView>,
    order: Seq<usize>,
    i: int,
    j: int,
)
    requires
        is_sorting(paths, order),
        0 <= i < order.len(),
        0 <= j < order.len(),
        paths.len() <= usize::MAX,
    ensures
        order.len() == paths.len(),
        order[i] < paths.len(),
        i != j ==> order[i] != order[j],
        forall|k: int| 0 <= k < paths.len() ==> order.contains(#[trigger] (k as usize)),
        list_before(
            components(paths[order[i] as int]),
            components(paths[order[j] as int]),
        ) ==> i < j,
{
    if path_before(paths[order[i] as int], paths[order[j] as int]) && j < i {
        assert(!index_before(paths, order[i] as int, order[j] as int));
    }
    if path_before(paths[order[i] as int], paths[order[j] as int]) && j == i {
        law_paths_are_in_order(paths[order[i] as int], paths[order[i] as int], paths[0]);
    }
}

} // verus!
