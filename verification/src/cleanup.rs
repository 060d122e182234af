//! The order in which the directories of the patch store are tried for
//! removal after a sync: deepest first, so that a directory left empty by
//! the removal of its subdirectories goes too.
use vstd::prelude::*;

use crate::patch::{patches_dir, PATCHES_DIR};
use crate::text::{chars_of, same_chars};

verus! {

/// A `.` segment starts at index `i` of `p`.
pub open spec fn dot_segment_at(p: Seq<char>, i: int) -> bool {
    p[i] == '.' && (i + 1 == p.len() || p[i + 1] == '/')
}

/// A component that `Path::components` yields starts at index `i` of
/// `p`: a segment between separators that is not empty, and not `.`
/// unless it is the first one; a leading separator is the root component.
pub open spec fn component_at(p: Seq<char>, i: int) -> bool {
    if i == 0 {
        true
    } else {
        p[i] != '/' && p[i - 1] == '/' && !dot_segment_at(p, i)
    }
}

/// Number of components among the first `n` characters' starts.
pub open spec fn count_components(p: Seq<char>, n: int) -> nat
    decreases n,
{
    if n <= 0 {
        0
    } else {
        count_components(p, n - 1) + if component_at(p, n - 1) {
            1nat
        } else {
            0nat
        }
    }
}

/// Number of components of a `/`-separated path, as
/// `Path::components().count()` gives it.
pub open spec fn path_depth(p: Seq<char>) -> nat {
    count_components(p, p.len() as int)
}

/// The directories of `dirs` other than the store's root, of depth `d`,
/// in their order.
pub open spec fn at_depth(dirs: Seq<Seq<char>>, d: int) -> Seq<Seq<char>> {
    dirs.filter(|p: Seq<char>| path_depth(p) == d && p != patches_dir())
}

/// The directories of `dirs` other than the store's root with depth at
/// most `d`: deepest first, and in their order among equal depths.
pub open spec fn deepest_first(dirs: Seq<Seq<char>>, d: int) -> Seq<Seq<char>>
    decreases d + 1,
{
    if d < 0 {
        seq![]
    } else {
        at_depth(dirs, d) + deepest_first(dirs, d - 1)
    }
}

/// The greatest depth among `dirs` (0 when there are none).
pub open spec fn max_depth(dirs: Seq<Seq<char>>) -> nat
    decreases dirs.len(),
{
    if dirs.len() == 0 {
        0
    } else {
        let m = max_depth(dirs.drop_last());
        let d = path_depth(dirs.last());
        if d > m {
            d
        } else {
            m
        }
    }
}

/// Number of components of `p`.
fn depth_of(p: &str) -> (res: usize)
    ensures
        res == path_depth(p@),
{
    let chars = chars_of(p);
    let n = chars.len();
    let mut count: usize = 0;
    for i in 0..n
        invariant
            n == chars.len(),
            count == count_components(chars@, i as int),
            count <= i,
    {
        let starts = if i == 0 {
            true
        } else {
            chars[i] != '/' && chars[i - 1] == '/' && !(chars[i] == '.' && (i + 1 == n
                || chars[i + 1] == '/'))
        };
        assert(starts == component_at(chars@, i as int));
        if starts {
            count = count + 1;
        }
    }
    count
}

/// Every directory of `dirs` is at most `max_depth(dirs)` deep.
proof fn lemma_max_depth(dirs: Seq<Seq<char>>, i: int)
    requires
        0 <= i < dirs.len(),
    ensures
        path_depth(dirs[i]) <= max_depth(dirs),
    decreases dirs.len(),
{
    if i < dirs.len() - 1 {
        lemma_max_depth(dirs.drop_last(), i);
        assert(dirs.drop_last()[i] == dirs[i]);
    }
}

/// The positions in `dirs` of the directories of the store (as a walk
/// reports them) other than its root, deepest first, and in walk order
/// among equal depths.
pub fn removal_order(dirs: &Vec<String>) -> (res: Vec<usize>)
    ensures
        forall|k: int| 0 <= k < res.len() ==> #[trigger] res[k] < dirs.len(),
        res@.map_values(|i: usize| dirs@[i as int]@) == deepest_first(
            dirs@.map_values(|s: String| s@),
            max_depth(dirs@.map_values(|s: String| s@)) as int,
        ),
{
    let ghost ds = dirs@.map_values(|s: String| s@);
    proof {
        reveal_strlit("patches");
    }
    let root = chars_of(PATCHES_DIR);
    assert(root@ =~= patches_dir());
    let mut depths: Vec<usize> = Vec::new();
    let mut max: usize = 0;
    for i in 0..dirs.len()
        invariant
            ds == dirs@.map_values(|s: String| s@),
            depths.len() == i,
            forall|k: int| 0 <= k < i ==> depths[k] == path_depth(#[trigger] ds[k]),
            max == max_depth(ds.take(i as int)),
    {
        let d = depth_of(dirs[i].as_str());
        proof {
            let t = ds.take(i + 1);
            assert(t.drop_last() =~= ds.take(i as int));
            assert(t.last() == ds[i as int]);
        }
        depths.push(d);
        if d > max {
            max = d;
        }
    }
    assert(ds.take(dirs.len() as int) =~= ds);
    let mut out: Vec<usize> = Vec::new();
    let mut d: usize = max;
    let ghost mut level: int = max as int;
    assert(deepest_first(ds, max as int) =~= Seq::<Seq<char>>::empty() + deepest_first(ds, max as int));
    loop
        invariant
            ds == dirs@.map_values(|s: String| s@),
            depths.len() == dirs.len(),
            forall|k: int| 0 <= k < dirs.len() ==> depths[k] == path_depth(#[trigger] ds[k]),
            root@ == patches_dir(),
            max == max_depth(ds),
            level == d as int,
            d <= max,
            deepest_first(ds, max as int) == out@.map_values(|i: usize| dirs@[i as int]@) + deepest_first(ds, level),
            forall|k: int| 0 <= k < out.len() ==> #[trigger] out[k] < dirs.len(),
        decreases d,
    {
        let ghost before = out@.map_values(|i: usize| dirs@[i as int]@);
        let ghost pred = |p: Seq<char>| path_depth(p) == level && p != patches_dir();
        for i in 0..dirs.len()
            invariant
                ds == dirs@.map_values(|s: String| s@),
                depths.len() == dirs.len(),
                forall|k: int| 0 <= k < dirs.len() ==> depths[k] == path_depth(#[trigger] ds[k]),
                root@ == patches_dir(),
                level == d as int,
                pred == (|p: Seq<char>| path_depth(p) == level && p != patches_dir()),
                out@.map_values(|i: usize| dirs@[i as int]@) == before + ds.take(i as int).filter(pred),
                forall|k: int| 0 <= k < out.len() ==> #[trigger] out[k] < dirs.len(),
        {
            proof {
                assert(ds.take(i + 1) =~= ds.take(i as int).push(ds[i as int]));
                ds.take(i as int).lemma_filter_push(ds[i as int], pred);
            }
            let name = chars_of(dirs[i].as_str());
            let is_root = same_chars(&name, &root);
            if depths[i] == d && !is_root {
                let ghost old_out = out@;
                out.push(i);
                assert(out@.map_values(|i: usize| dirs@[i as int]@) =~= old_out.map_values(|i: usize| dirs@[i as int]@).push(
                    ds[i as int],
                ));
            }
        }
        proof {
            assert(ds.take(dirs.len() as int) =~= ds);
            assert(deepest_first(ds, level) == at_depth(ds, level) + deepest_first(ds, level - 1));
            assert(at_depth(ds, level) == ds.filter(pred));
        }
        if d == 0 {
            proof {
                assert(deepest_first(ds, -1) =~= Seq::<Seq<char>>::empty());
            }
            assert(out@.map_values(|i: usize| dirs@[i as int]@) =~= deepest_first(ds, max as int));
            return out;
        }
        d = d - 1;
        proof {
            level = level - 1;
        }
    }
}

/// Removal law: the order lists the deeper directories first, and lists
/// exactly the directories other than the store's root.
pub proof fn lemma_deepest_first_order(dirs: Seq<Seq<char>>, d: int)
    ensures
        forall|i: int, j: int|
            0 <= i < j < deepest_first(dirs, d).len() ==> path_depth(
                #[trigger] deepest_first(dirs, d)[i],
            ) >= path_depth(#[trigger] deepest_first(dirs, d)[j]),
        forall|p: Seq<char>|
            #![trigger deepest_first(dirs, d).contains(p)]
            deepest_first(dirs, d).contains(p) <==> (dirs.contains(p) && p != patches_dir()
                && path_depth(p) <= d),
    decreases d + 1,
{
    broadcast use vstd::seq_lib::group_filter_ensures;

    if d >= 0 {
        lemma_deepest_first_order(dirs, d - 1);
        let a = at_depth(dirs, d);
        let b = deepest_first(dirs, d - 1);
        let all = deepest_first(dirs, d);
        assert(all == a + b);
        assert forall|i: int, j: int| 0 <= i < j < all.len() implies path_depth(#[trigger] all[i])
            >= path_depth(#[trigger] all[j]) by {
            if j < a.len() {
                assert(all[i] == a[i]);
                assert(all[j] == a[j]);
            } else if i < a.len() {
                assert(all[i] == a[i]);
                assert(all[j] == b[j - a.len()]);
                assert(b.contains(b[j - a.len()]));
            } else {
                assert(all[i] == b[i - a.len()]);
                assert(all[j] == b[j - a.len()]);
            }
        }
        assert forall|p: Seq<char>| all.contains(p) <==> (dirs.contains(p) && p != patches_dir()
            && path_depth(p) <= d) by {
            if all.contains(p) {
                let k = choose|k: int| 0 <= k < all.len() && all[k] == p;
                if k < a.len() {
                    assert(a[k] == p);
                    assert(a.contains(p));
                    dirs.lemma_filter_contains_rev(
                        |q: Seq<char>| path_depth(q) == d && q != patches_dir(),
                        p,
                    );
                } else {
                    assert(b[k - a.len()] == p);
                    assert(b.contains(p));
                }
            }
            if dirs.contains(p) && p != patches_dir() && path_depth(p) <= d {
                if path_depth(p) == d {
                    let k = choose|k: int| 0 <= k < dirs.len() && dirs[k] == p;
                    assert(a.contains(dirs[k]));
                    let m = choose|m: int| 0 <= m < a.len() && a[m] == p;
                    assert(all[m] == p);
                } else {
                    assert(b.contains(p));
                    let m = choose|m: int| 0 <= m < b.len() && b[m] == p;
                    assert(all[a.len() + m] == p);
                }
            }
        }
    }
}

/// Removal law, for the order `removal_order` gives: deeper directories
/// come first, and every directory of the store but its root is tried.
pub proof fn lemma_removal_order(dirs: Seq<Seq<char>>)
    ensures
        forall|i: int, j: int|
            0 <= i < j < deepest_first(dirs, max_depth(dirs) as int).len() ==> path_depth(
                #[trigger] deepest_first(dirs, max_depth(dirs) as int)[i],
            ) >= path_depth(#[trigger] deepest_first(dirs, max_depth(dirs) as int)[j]),
        forall|p: Seq<char>|
            #![trigger deepest_first(dirs, max_depth(dirs) as int).contains(p)]
            deepest_first(dirs, max_depth(dirs) as int).contains(p) <==> (dirs.contains(p) && p
                != patches_dir()),
{
    lemma_deepest_first_order(dirs, max_depth(dirs) as int);
    assert forall|p: Seq<char>| dirs.contains(p) implies path_depth(p) <= max_depth(dirs) by {
        let k = choose|k: int| 0 <= k < dirs.len() && dirs[k] == p;
        lemma_max_depth(dirs, k);
    }
}

/// Directory `x` lies strictly inside directory `y`: its path is `y`'s,
/// a separator, and a further component (neither empty nor `.`).
pub open spec fn lies_inside(x: Seq<char>, y: Seq<char>) -> bool {
    &&& y.len() > 0
    &&& x.len() > y.len() + 1
    &&& x.take(y.len() as int) == y
    &&& x[y.len() as int] == '/'
    &&& x[y.len() + 1int] != '/'
    &&& !(x[y.len() + 1int] == '.' && (y.len() + 2 == x.len() || x[y.len() + 2int] == '/'))
}

/// The components counted among the first `n` characters never decrease
/// as `n` grows.
proof fn lemma_count_monotone(p: Seq<char>, a: int, b: int)
    requires
        a <= b,
    ensures
        count_components(p, a) <= count_components(p, b),
    decreases b - a,
{
    if a < b {
        lemma_count_monotone(p, a, b - 1);
    }
}

/// Up to the end of `y`, a path inside `y` starts the same components.
proof fn lemma_count_prefix(x: Seq<char>, y: Seq<char>, n: int)
    requires
        lies_inside(x, y),
        0 <= n <= y.len(),
    ensures
        count_components(x, n) == count_components(y, n),
    decreases n,
{
    if n > 0 {
        lemma_count_prefix(x, y, n - 1);
        let i = n - 1;
        assert(x[i] == x.take(y.len() as int)[i]);
        if i > 0 {
            assert(x[i - 1] == x.take(y.len() as int)[i - 1]);
        }
        if i + 1 < y.len() {
            assert(x[i + 1] == x.take(y.len() as int)[i + 1]);
        }
        assert(component_at(x, i) == component_at(y, i));
    }
}

/// Depth law: a directory strictly inside another has more components,
/// however deep the two are.
pub proof fn lemma_inside_is_deeper(x: Seq<char>, y: Seq<char>)
    requires
        lies_inside(x, y),
    ensures
        path_depth(x) > path_depth(y),
{
    let n = y.len() as int;
    lemma_count_prefix(x, y, n);
    assert(component_at(x, n + 1));
    lemma_count_monotone(x, n, n + 1);
    lemma_count_monotone(x, n + 2, x.len() as int);
}

/// Components counted over a stretch without component starts stay put.
proof fn lemma_count_flat(p: Seq<char>, a: int, b: int)
    requires
        0 <= a <= b <= p.len(),
        forall|i: int| a <= i < b ==> !component_at(p, i),
    ensures
        count_components(p, b) == count_components(p, a),
    decreases b - a,
{
    if a < b {
        lemma_count_flat(p, a, b - 1);
    }
}

/// Depth law: a path of one component (no separator) has depth one.
pub proof fn lemma_single_component_depth(p: Seq<char>)
    requires
        p.len() > 0,
        forall|j: int| 0 <= j < p.len() ==> p[j] != '/',
    ensures
        path_depth(p) == 1,
{
    assert(component_at(p, 0));
    assert(count_components(p, 0) == 0);
    assert(count_components(p, 1) == 1);
    assert forall|i: int| 1 <= i < p.len() implies !component_at(p, i) by {
        assert(p[i - 1] != '/');
    }
    lemma_count_flat(p, 1, p.len() as int);
}

/// Depth law: naming a subdirectory (one component, neither empty nor
/// `.`) adds exactly one to the depth, however deep the parent is.
pub proof fn lemma_child_depth(y: Seq<char>, c: Seq<char>)
    requires
        y.len() > 0,
        c.len() > 0,
        forall|j: int| 0 <= j < c.len() ==> c[j] != '/',
        c != seq!['.'],
    ensures
        path_depth(y + seq!['/'] + c) == path_depth(y) + 1,
{
    let x = y + seq!['/'] + c;
    let n = y.len() as int;
    assert(x.take(n) =~= y);
    assert(x[n] == '/');
    assert(x[n + 1] == c[0]);
    if c.len() > 1 {
        assert(x[n + 2] == c[1]);
    } else {
        assert(c =~= seq![c[0]]);
    }
    assert(lies_inside(x, y));
    lemma_count_prefix(x, y, n);
    assert(!component_at(x, n));
    assert(component_at(x, n + 1));
    assert(count_components(x, n + 1) == count_components(x, n));
    assert(count_components(x, n + 2) == count_components(x, n + 1) + 1);
    assert forall|i: int| n + 2 <= i < x.len() implies !component_at(x, i) by {
        assert(x[i - 1] == c[i - 1 - (n + 1)]);
    }
    lemma_count_flat(x, n + 2, x.len() as int);
}

/// Removal law: in the removal order, a directory that lies strictly
/// inside another comes before it, so a directory emptied by the removal
/// of those inside it is tried after them.
pub proof fn lemma_inner_removed_first(dirs: Seq<Seq<char>>)
    ensures
        forall|a: int, b: int|
            0 <= a < b < deepest_first(dirs, max_depth(dirs) as int).len() ==> !lies_inside(
                #[trigger] deepest_first(dirs, max_depth(dirs) as int)[b],
                #[trigger] deepest_first(dirs, max_depth(dirs) as int)[a],
            ),
{
    let order = deepest_first(dirs, max_depth(dirs) as int);
    lemma_removal_order(dirs);
    assert forall|a: int, b: int| 0 <= a < b < order.len() implies !lies_inside(
        #[trigger] order[b],
        #[trigger] order[a],
    ) by {
        if lies_inside(order[b], order[a]) {
            lemma_inside_is_deeper(order[b], order[a]);
            assert(path_depth(order[a]) >= path_depth(order[b]));
        }
    }
}

} // verus!
