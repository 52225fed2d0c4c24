//! A model of a run against a filesystem, in which each path names a file
//! by its identity, and the laws that runs obey.
use vstd::prelude::*;
use crate::paths::underscored;
use crate::rename::{
    applied_spec, believed, probed_spec, recorded, start_spec, Phase, RenameOptions, RenamerView,
};

verus! {

/// `t` with `k` underscores put before its file name.
pub open spec fn prefixed(t: Seq<char>, k: nat) -> Seq<char>
    decreases k,
{
    if k == 0 {
        t
    } else {
        underscored(prefixed(t, (k - 1) as nat))
    }
}

/// Whether `k` is the fewest underscores that make `t` free in `names`.
pub open spec fn is_free_index(names: Set<Seq<char>>, t: Seq<char>, k: nat) -> bool {
    &&& !names.contains(prefixed(t, k))
    &&& forall|i: nat| i < k ==> names.contains(#[trigger] prefixed(t, i))
}

/// The fewest underscores that make `t` free in `names`.
pub open spec fn free_index(names: Set<Seq<char>>, t: Seq<char>) -> nat {
    choose|k: nat| is_free_index(names, t, k)
}

/// The target on which collision avoidance settles: the first of `t`,
/// `_t`, `__t`, ... that names no file.
pub open spec fn free_target(fs: Map<Seq<char>, nat>, t: Seq<char>) -> Seq<char> {
    prefixed(t, free_index(fs.dom(), t))
}

/// A filesystem, the filesystem as the run believes it to be (the same in a
/// live run; with the simulated renames in a dry run), the rename map so
/// far, and whether a rename failed.
pub struct World {
    pub fs: Map<Seq<char>, nat>,
    pub seen: Map<Seq<char>, nat>,
    pub map: Seq<(Seq<char>, Seq<char>)>,
    pub with_err: bool,
}

/// The target for `output` in `fs`.
pub open spec fn target_of(options: RenameOptions, fs: Map<Seq<char>, nat>, output: Seq<char>) -> Seq<char> {
    if options.overwrite {
        output
    } else {
        free_target(fs, output)
    }
}

/// One pair processed: a pair whose input is its output is only recorded;
/// otherwise the input is renamed to its target, chosen against the
/// believed filesystem, which fails where the input names no file. A
/// simulated rename changes the believed filesystem only.
pub open spec fn run_pair(options: RenameOptions, w: World, input: Seq<char>, output: Seq<char>) -> World {
    if input == output {
        World { map: recorded(options, w.map, output, input), ..w }
    } else {
        let t = target_of(options, w.seen, output);
        if w.seen.contains_key(input) {
            let seen = w.seen.remove(input).insert(t, w.seen[input]);
            World {
                fs: if options.dry_run {
                    w.fs
                } else {
                    seen
                },
                seen,
                map: recorded(options, w.map, t, input),
                ..w
            }
        } else {
            World { with_err: true, ..w }
        }
    }
}

/// The pairs processed in order.
pub open spec fn run(options: RenameOptions, w: World, pairs: Seq<(Seq<char>, Seq<char>)>) -> World
    decreases pairs.len(),
{
    if pairs.len() == 0 {
        w
    } else {
        run_pair(options, run(options, w, pairs.drop_last()), pairs.last().0, pairs.last().1)
    }
}

pub open spec fn fresh(fs: Map<Seq<char>, nat>) -> World {
    World { fs, seen: fs, map: Seq::empty(), with_err: false }
}

proof fn lemma_prefixed_len(t: Seq<char>, k: nat)
    ensures
        prefixed(t, k).len() == t.len() + k,
    decreases k,
{
    if k > 0 {
        lemma_prefixed_len(t, (k - 1) as nat);
        crate::paths::lemma_underscored_len(prefixed(t, (k - 1) as nat));
    }
}

/// Underscore variants of one name with different counts differ.
proof fn lemma_prefixed_distinct(t: Seq<char>, i: nat, j: nat)
    requires
        i != j,
    ensures
        prefixed(t, i) != prefixed(t, j),
{
    lemma_prefixed_len(t, i);
    lemma_prefixed_len(t, j);
}

/// Where `k` is the fewest underscores that free `t`, collision avoidance
/// settles on `k` underscores.
proof fn lemma_free_index_is(names: Set<Seq<char>>, t: Seq<char>, k: nat)
    requires
        is_free_index(names, t, k),
    ensures
        free_index(names, t) == k,
{
    let c = free_index(names, t);
    assert(is_free_index(names, t, c));
    if c < k {
        assert(names.contains(prefixed(t, c)));
    } else if c > k {
        assert(names.contains(prefixed(t, k)));
    }
}

proof fn lemma_run_take(options: RenameOptions, w: World, pairs: Seq<(Seq<char>, Seq<char>)>, n: int)
    requires
        0 <= n < pairs.len(),
    ensures
        run(options, w, pairs.take(n + 1)) == run_pair(
            options,
            run(options, w, pairs.take(n)),
            pairs[n].0,
            pairs[n].1,
        ),
{
    assert(pairs.take(n + 1).drop_last() =~= pairs.take(n));
}

/// The options of a live run without overwrite that keeps a map.
pub open spec fn avoiding(options: RenameOptions) -> bool {
    !options.dry_run && !options.overwrite && options.need_map
}

proof fn lemma_same_output_prefix(
    options: RenameOptions,
    fs: Map<Seq<char>, nat>,
    pairs: Seq<(Seq<char>, Seq<char>)>,
    o: Seq<char>,
    n: nat,
)
    requires
        avoiding(options),
        n <= pairs.len(),
        forall|i: int| 0 <= i < pairs.len() ==> (#[trigger] pairs[i]).1 == o,
        forall|i: int, j: int| 0 <= i < j < pairs.len() ==> pairs[i].0 != pairs[j].0,
        forall|i: int| 0 <= i < pairs.len() ==> fs.contains_key(#[trigger] pairs[i].0),
        forall|i: int, k: nat|
            0 <= i < pairs.len() && k < pairs.len() ==> #[trigger] pairs[i].0 != #[trigger] prefixed(o, k),
        forall|k: nat| k < pairs.len() ==> !fs.contains_key(#[trigger] prefixed(o, k)),
    ensures
        ({
            let w = run(options, fresh(fs), pairs.take(n as int));
            &&& !w.with_err
            &&& w.seen == w.fs
            &&& w.map.len() == n
            &&& forall|i: int| 0 <= i < n ==> #[trigger] w.map[i] == (prefixed(o, i as nat), pairs[i].0)
            &&& forall|x: Seq<char>| #[trigger]
                w.fs.contains_key(x) <==> ((fs.contains_key(x) && forall|i: int|
                    0 <= i < n ==> x != #[trigger] pairs[i].0) || exists|i: nat|
                    i < n && x == #[trigger] prefixed(o, i))
        }),
    decreases n,
{
    if n == 0 {
        assert(pairs.take(0) =~= Seq::<(Seq<char>, Seq<char>)>::empty());
    } else {
        let m = (n - 1) as nat;
        lemma_same_output_prefix(options, fs, pairs, o, m);
        lemma_run_take(options, fresh(fs), pairs, m as int);
        let w = run(options, fresh(fs), pairs.take(m as int));
        let input = pairs[m as int].0;
        assert(pairs[m as int].1 == o);
        assert(input != prefixed(o, 0));
        assert(is_free_index(w.fs.dom(), o, m)) by {
            assert forall|i: nat| i < m implies w.fs.dom().contains(#[trigger] prefixed(o, i)) by {
                assert(w.fs.contains_key(prefixed(o, i)));
            }
            if w.fs.contains_key(prefixed(o, m)) {
                assert(!fs.contains_key(prefixed(o, m)));
                let i = choose|i: nat| i < m && prefixed(o, m) == #[trigger] prefixed(o, i);
                lemma_prefixed_distinct(o, i, m);
            }
        }
        lemma_free_index_is(w.fs.dom(), o, m);
        assert(w.fs.contains_key(input)) by {
            assert forall|i: int| 0 <= i < m implies input != #[trigger] pairs[i].0 by {}
        }
        let w2 = run(options, fresh(fs), pairs.take(n as int));
        assert(w2.fs == w.fs.remove(input).insert(prefixed(o, m), w.fs[input]));
        assert forall|i: int| 0 <= i < n implies #[trigger] w2.map[i] == (
            prefixed(o, i as nat),
            pairs[i].0,
        ) by {
            if i < m {
                assert(w2.map[i] == w.map[i]);
            }
        }
        assert forall|x: Seq<char>| #[trigger]
            w2.fs.contains_key(x) <==> ((fs.contains_key(x) && forall|i: int|
                0 <= i < n ==> x != #[trigger] pairs[i].0) || exists|i: nat|
                i < n && x == #[trigger] prefixed(o, i)) by {
            if x == prefixed(o, m) {
                assert(exists|i: nat| i < n && x == #[trigger] prefixed(o, i));
            } else if x == input {
                assert(!w2.fs.contains_key(x));
                assert(!(forall|i: int| 0 <= i < n ==> x != #[trigger] pairs[i].0)) by {
                    assert(x == pairs[m as int].0);
                }
                assert forall|i: nat| i < n implies x != #[trigger] prefixed(o, i) by {}
            } else {
                if exists|i: nat| i < n && x == #[trigger] prefixed(o, i) {
                    let i = choose|i: nat| i < n && x == #[trigger] prefixed(o, i);
                    if i < m {
                        assert(exists|j: nat| j < m && x == #[trigger] prefixed(o, j));
                    }
                }
                if fs.contains_key(x) && forall|i: int| 0 <= i < m ==> x != #[trigger] pairs[i].0 {
                    assert(forall|i: int| 0 <= i < n ==> x != #[trigger] pairs[i].0);
                }
            }
        }
    }
}

/// Collision avoidance: when N files are renamed to one name of which no
/// variant with fewer than N underscores exists or is among the inputs,
/// without overwrite, the first gets the bare name and each next one more `_`
/// before it, so that every target is new and no two are equal.
pub proof fn lemma_collision_avoidance(
    options: RenameOptions,
    fs: Map<Seq<char>, nat>,
    pairs: Seq<(Seq<char>, Seq<char>)>,
    o: Seq<char>,
)
    requires
        avoiding(options),
        forall|i: int| 0 <= i < pairs.len() ==> (#[trigger] pairs[i]).1 == o,
        forall|i: int, j: int| 0 <= i < j < pairs.len() ==> pairs[i].0 != pairs[j].0,
        forall|i: int| 0 <= i < pairs.len() ==> fs.contains_key(#[trigger] pairs[i].0),
        forall|i: int, k: nat|
            0 <= i < pairs.len() && k < pairs.len() ==> #[trigger] pairs[i].0 != #[trigger] prefixed(o, k),
        forall|k: nat| k < pairs.len() ==> !fs.contains_key(#[trigger] prefixed(o, k)),
    ensures
        ({
            let w = run(options, fresh(fs), pairs);
            &&& !w.with_err
            &&& w.map.len() == pairs.len()
            &&& forall|i: int|
                0 <= i < pairs.len() ==> #[trigger] w.map[i] == (prefixed(o, i as nat), pairs[i].0)
            &&& forall|i: int, j: int| 0 <= i < j < pairs.len() ==> w.map[i].0 != w.map[j].0
            &&& forall|i: int| 0 <= i < pairs.len() ==> !fs.contains_key(#[trigger] w.map[i].0)
        }),
{
    lemma_same_output_prefix(options, fs, pairs, o, pairs.len());
    assert(pairs.take(pairs.len() as int) =~= pairs);
    let w = run(options, fresh(fs), pairs);
    assert forall|i: int, j: int| 0 <= i < j < pairs.len() implies w.map[i].0 != w.map[j].0 by {
        assert(w.map[i] == (prefixed(o, i as nat), pairs[i].0));
        assert(w.map[j] == (prefixed(o, j as nat), pairs[j].0));
        lemma_prefixed_distinct(o, i as nat, j as nat);
    }
    assert forall|i: int| 0 <= i < pairs.len() implies !fs.contains_key(#[trigger] w.map[i].0) by {
        assert(w.map[i] == (prefixed(o, i as nat), pairs[i].0));
    }
}

proof fn lemma_least_free(names: Set<Seq<char>>, t: Seq<char>, k0: nat)
    requires
        !names.contains(prefixed(t, k0)),
    ensures
        exists|k: nat| is_free_index(names, t, k),
    decreases k0,
{
    if forall|i: nat| i < k0 ==> names.contains(#[trigger] prefixed(t, i)) {
        assert(is_free_index(names, t, k0));
    } else {
        let i = choose|i: nat| i < k0 && !names.contains(#[trigger] prefixed(t, i));
        lemma_least_free(names, t, i);
    }
}

/// Among finitely many names, some number of underscores always frees a
/// name, so collision avoidance always settles.
pub proof fn lemma_free_index_exists(names: Set<Seq<char>>, t: Seq<char>)
    requires
        names.finite(),
    ensures
        is_free_index(names, t, free_index(names, t)),
{
    let n = names.len();
    let chain = Seq::new(n + 1, |i: int| prefixed(t, i as nat));
    assert(chain.no_duplicates()) by {
        assert forall|i: int, j: int| 0 <= i < chain.len() && 0 <= j < chain.len() && i != j
            implies chain[i] != chain[j] by {
            lemma_prefixed_distinct(t, i as nat, j as nat);
        }
    }
    chain.unique_seq_to_set();
    if forall|i: nat| i <= n ==> names.contains(#[trigger] prefixed(t, i)) {
        assert(chain.to_set().subset_of(names)) by {
            assert forall|x: Seq<char>| chain.to_set().contains(x) implies names.contains(x) by {
                let i = choose|i: int| 0 <= i < chain.len() && chain[i] == x;
                assert(names.contains(prefixed(t, i as nat)));
            }
        }
        vstd::set_lib::lemma_len_subset(chain.to_set(), names);
        assert(false);
    } else {
        let k0 = choose|i: nat| i <= n && !names.contains(#[trigger] prefixed(t, i));
        lemma_least_free(names, t, k0);
    }
}

/// Without overwrite a rename never lands on an existing path, whatever
/// came before: the target is free in the filesystem as it stands at that
/// rename, and every other file keeps its name and identity.
pub proof fn lemma_no_clobber(options: RenameOptions, w: World, input: Seq<char>, output: Seq<char>)
    requires
        !options.overwrite,
        w.seen.dom().finite(),
        input != output,
        w.seen.contains_key(input),
    ensures
        ({
            let t = target_of(options, w.seen, output);
            let w2 = run_pair(options, w, input, output);
            &&& !w.seen.contains_key(t)
            &&& w2.seen.contains_key(t) && w2.seen[t] == w.seen[input]
            &&& !w2.seen.contains_key(input)
            &&& forall|x: Seq<char>|
                x != input && #[trigger] w.seen.contains_key(x) ==> w2.seen.contains_key(x)
                    && w2.seen[x] == w.seen[x]
        }),
{
    lemma_free_index_exists(w.seen.dom(), output);
}

/// Inputs are pairwise distinct.
pub open spec fn distinct_inputs(pairs: Seq<(Seq<char>, Seq<char>)>) -> bool {
    forall|i: int, j: int| 0 <= i < j < pairs.len() ==> pairs[i].0 != pairs[j].0
}

/// Every input names a file.
pub open spec fn inputs_exist(fs: Map<Seq<char>, nat>, pairs: Seq<(Seq<char>, Seq<char>)>) -> bool {
    forall|i: int| 0 <= i < pairs.len() ==> fs.contains_key(#[trigger] pairs[i].0)
}

/// No output, with any number of underscores, is one of the inputs: no
/// rename feeds another.
pub open spec fn no_chains(pairs: Seq<(Seq<char>, Seq<char>)>) -> bool {
    forall|i: int, j: int, k: nat|
        0 <= i < pairs.len() && 0 <= j < pairs.len() ==> #[trigger] pairs[i].0 != #[trigger] prefixed(
            pairs[j].1,
            k,
        )
}

/// Whether `x` is `o` with some number of underscores.
pub open spec fn is_variant(x: Seq<char>, o: Seq<char>) -> bool {
    exists|k: nat| x == #[trigger] prefixed(o, k)
}

pub open spec fn is_input(pairs: Seq<(Seq<char>, Seq<char>)>, n: int, x: Seq<char>) -> bool {
    exists|i: int| 0 <= i < n && #[trigger] pairs[i].0 == x
}

pub open spec fn is_target(map: Seq<(Seq<char>, Seq<char>)>, x: Seq<char>) -> bool {
    exists|i: int| 0 <= i < map.len() && #[trigger] map[i].0 == x
}

/// What holds after the first `n` pairs of a live run without overwrite
/// whose inputs exist, are distinct and are fed by no output.
pub open spec fn live_invariant(
    fs: Map<Seq<char>, nat>,
    pairs: Seq<(Seq<char>, Seq<char>)>,
    n: int,
    w: World,
) -> bool {
    &&& !w.with_err
    &&& w.seen == w.fs
    &&& w.map.len() == n
    &&& w.fs.dom().finite()
    &&& forall|i: int| 0 <= i < n ==> (#[trigger] w.map[i]).1 == pairs[i].0
    &&& forall|i: int| 0 <= i < n ==> is_variant((#[trigger] w.map[i]).0, pairs[i].1)
    &&& forall|i: int| 0 <= i < n ==> !fs.contains_key(#[trigger] w.map[i].0)
    &&& forall|i: int, j: int| 0 <= i < j < n ==> w.map[i].0 != w.map[j].0
    &&& forall|x: Seq<char>| #[trigger]
        w.fs.contains_key(x) <==> ((fs.contains_key(x) && !is_input(pairs, n, x)) || is_target(
            w.map,
            x,
        ))
    &&& forall|i: int| 0 <= i < n ==> w.fs[#[trigger] w.map[i].0] == fs[pairs[i].0]
    &&& forall|x: Seq<char>|
        w.fs.contains_key(x) && !is_target(w.map, x) ==> #[trigger] w.fs[x] == fs[x]
}

proof fn lemma_live_run(
    options: RenameOptions,
    fs: Map<Seq<char>, nat>,
    pairs: Seq<(Seq<char>, Seq<char>)>,
    n: int,
)
    requires
        avoiding(options),
        fs.dom().finite(),
        distinct_inputs(pairs),
        inputs_exist(fs, pairs),
        no_chains(pairs),
        0 <= n <= pairs.len(),
    ensures
        live_invariant(fs, pairs, n, run(options, fresh(fs), pairs.take(n))),
    decreases n,
{
    if n == 0 {
        assert(pairs.take(0) =~= Seq::<(Seq<char>, Seq<char>)>::empty());
    } else {
        let m = n - 1;
        lemma_live_run(options, fs, pairs, m);
        lemma_run_take(options, fresh(fs), pairs, m);
        let w = run(options, fresh(fs), pairs.take(m));
        let w2 = run(options, fresh(fs), pairs.take(n));
        let input = pairs[m].0;
        let output = pairs[m].1;
        assert(input != prefixed(output, 0));
        lemma_free_index_exists(w.fs.dom(), output);
        let k = free_index(w.fs.dom(), output);
        let t = prefixed(output, k);
        assert(!w.fs.contains_key(t));
        assert(t != input);
        assert(!is_input(pairs, m, input));
        assert(!is_target(w.map, input)) by {
            if is_target(w.map, input) {
                let i = choose|i: int| 0 <= i < w.map.len() && #[trigger] w.map[i].0 == input;
                assert(is_variant(w.map[i].0, pairs[i].1));
                let kk = choose|kk: nat| w.map[i].0 == #[trigger] prefixed(pairs[i].1, kk);
                assert(pairs[m].0 != prefixed(pairs[i].1, kk));
            }
        }
        assert(w.fs.contains_key(input));
        assert(!is_input(pairs, n, t)) by {
            if is_input(pairs, n, t) {
                let i = choose|i: int| 0 <= i < n && #[trigger] pairs[i].0 == t;
                assert(pairs[i].0 != prefixed(pairs[m].1, k));
            }
        }
        assert(!fs.contains_key(t));
        assert(w2.fs == w.fs.remove(input).insert(t, w.fs[input]));
        assert(w2.map == w.map.push((t, input)));
        assert forall|i: int| 0 <= i < n implies is_variant((#[trigger] w2.map[i]).0, pairs[i].1) by {
            if i < m {
                assert(w2.map[i] == w.map[i]);
            } else {
                assert(w2.map[i].0 == prefixed(pairs[i].1, k));
            }
        }
        assert forall|i: int, j: int| 0 <= i < j < n implies w2.map[i].0 != w2.map[j].0 by {
            if j == m {
                assert(w.fs.contains_key(w.map[i].0));
            }
        }
        assert forall|x: Seq<char>| is_target(w2.map, x) <==> (is_target(w.map, x) || x == t) by {
            if is_target(w2.map, x) {
                let i = choose|i: int| 0 <= i < w2.map.len() && #[trigger] w2.map[i].0 == x;
                if i < m {
                    assert(w.map[i].0 == x);
                }
            }
            if is_target(w.map, x) {
                let i = choose|i: int| 0 <= i < w.map.len() && #[trigger] w.map[i].0 == x;
                assert(w2.map[i].0 == x);
            }
            if x == t {
                assert(w2.map[m].0 == x);
            }
        }
        assert forall|x: Seq<char>| is_input(pairs, n, x) <==> (is_input(pairs, m, x) || x == input) by {
            if is_input(pairs, n, x) {
                let i = choose|i: int| 0 <= i < n && #[trigger] pairs[i].0 == x;
                if i < m {
                    assert(is_input(pairs, m, x));
                }
            }
            if is_input(pairs, m, x) {
                let i = choose|i: int| 0 <= i < m && #[trigger] pairs[i].0 == x;
                assert(pairs[i].0 == x);
            }
            if x == input {
                assert(pairs[m].0 == x);
            }
        }
        assert forall|x: Seq<char>| #[trigger]
            w2.fs.contains_key(x) <==> ((fs.contains_key(x) && !is_input(pairs, n, x)) || is_target(
                w2.map,
                x,
            )) by {}
        assert forall|i: int| 0 <= i < n implies w2.fs[#[trigger] w2.map[i].0] == fs[pairs[i].0] by {
            if i < m {
                assert(w2.map[i] == w.map[i]);
                assert(w.fs.contains_key(w.map[i].0));
            } else {
                assert(!is_target(w.map, input));
            }
        }
        assert forall|x: Seq<char>|
            w2.fs.contains_key(x) && !is_target(w2.map, x) implies #[trigger] w2.fs[x] == fs[x] by {}
        assert(w2.fs.dom() =~= w.fs.dom().remove(input).insert(t));
        assert(!w2.with_err);
        assert(w2.map.len() == n);
        assert(w2.fs.dom().finite());
        assert(forall|i: int| 0 <= i < n ==> (#[trigger] w2.map[i]).1 == pairs[i].0);
        assert(forall|i: int| 0 <= i < n ==> !fs.contains_key(#[trigger] w2.map[i].0));
    }
}

proof fn lemma_live_whole(options: RenameOptions, fs: Map<Seq<char>, nat>, pairs: Seq<(Seq<char>, Seq<char>)>)
    requires
        avoiding(options),
        fs.dom().finite(),
        distinct_inputs(pairs),
        inputs_exist(fs, pairs),
        no_chains(pairs),
    ensures
        live_invariant(fs, pairs, pairs.len() as int, run(options, fresh(fs), pairs)),
{
    lemma_live_run(options, fs, pairs, pairs.len() as int);
    assert(pairs.take(pairs.len() as int) =~= pairs);
}

/// The options of `options` with only a simulation asked for.
pub open spec fn simulated(options: RenameOptions) -> RenameOptions {
    RenameOptions { dry_run: true, ..options }
}

/// A dry run never changes the filesystem, and it records the same map,
/// and the same failures, as a live run over the same pairs: it checks
/// each target against the filesystem with its own simulated renames.
pub proof fn lemma_dry_run_matches_live(
    options: RenameOptions,
    fs: Map<Seq<char>, nat>,
    pairs: Seq<(Seq<char>, Seq<char>)>,
)
    requires
        !options.dry_run,
    ensures
        run(simulated(options), fresh(fs), pairs).fs == fs,
        run(simulated(options), fresh(fs), pairs).map == run(options, fresh(fs), pairs).map,
        run(simulated(options), fresh(fs), pairs).with_err == run(options, fresh(fs), pairs).with_err,
        run(simulated(options), fresh(fs), pairs).seen == run(options, fresh(fs), pairs).seen,
    decreases pairs.len(),
{
    if pairs.len() > 0 {
        lemma_dry_run_matches_live(options, fs, pairs.drop_last());
    }
}

/// What holds after the first `n` pairs of the undo run, which replays the
/// map of a live run.
pub open spec fn undo_invariant(
    pairs: Seq<(Seq<char>, Seq<char>)>,
    w1: World,
    n: int,
    w: World,
) -> bool {
    &&& !w.with_err
    &&& w.seen == w.fs
    &&& w.map.len() == n
    &&& w.fs.dom().finite()
    &&& forall|i: int| 0 <= i < n ==> #[trigger] w.map[i] == (pairs[i].0, w1.map[i].0)
    &&& forall|x: Seq<char>| #[trigger]
        w.fs.contains_key(x) <==> ((w1.fs.contains_key(x) && !is_input(w1.map, n, x))
            || is_target(w.map, x))
    &&& forall|i: int| 0 <= i < n ==> w.fs[#[trigger] pairs[i].0] == w1.fs[w1.map[i].0]
    &&& forall|x: Seq<char>|
        w.fs.contains_key(x) && !is_target(w.map, x) ==> #[trigger] w.fs[x] == w1.fs[x]
}

proof fn lemma_undo_run(
    options: RenameOptions,
    fs: Map<Seq<char>, nat>,
    pairs: Seq<(Seq<char>, Seq<char>)>,
    n: int,
)
    requires
        avoiding(options),
        fs.dom().finite(),
        distinct_inputs(pairs),
        inputs_exist(fs, pairs),
        no_chains(pairs),
        0 <= n <= pairs.len(),
    ensures
        ({
            let w1 = run(options, fresh(fs), pairs);
            undo_invariant(pairs, w1, n, run(options, fresh(w1.fs), w1.map.take(n)))
        }),
    decreases n,
{
    lemma_live_whole(options, fs, pairs);
    let w1 = run(options, fresh(fs), pairs);
    let total = pairs.len() as int;
    if n == 0 {
        assert(w1.map.take(0) =~= Seq::<(Seq<char>, Seq<char>)>::empty());
    } else {
        let m = n - 1;
        lemma_undo_run(options, fs, pairs, m);
        lemma_run_take(options, fresh(w1.fs), w1.map, m);
        let w = run(options, fresh(w1.fs), w1.map.take(m));
        let w2 = run(options, fresh(w1.fs), w1.map.take(n));
        let t = w1.map[m].0;
        let back = pairs[m].0;
        assert(w1.map[m].1 == back);
        assert(is_variant(t, pairs[m].1));
        let k = choose|k: nat| t == #[trigger] prefixed(pairs[m].1, k);
        assert(pairs[m].0 != prefixed(pairs[m].1, k));
        assert(t != back);
        assert(!w1.fs.contains_key(back)) by {
            assert(is_input(pairs, total, back)) by {
                assert(pairs[m].0 == back);
            }
            if is_target(w1.map, back) {
                let i = choose|i: int| 0 <= i < w1.map.len() && #[trigger] w1.map[i].0 == back;
                assert(is_variant(w1.map[i].0, pairs[i].1));
                let kk = choose|kk: nat| w1.map[i].0 == #[trigger] prefixed(pairs[i].1, kk);
                assert(pairs[m].0 != prefixed(pairs[i].1, kk));
            }
        }
        assert(!is_target(w.map, back)) by {
            if is_target(w.map, back) {
                let i = choose|i: int| 0 <= i < w.map.len() && #[trigger] w.map[i].0 == back;
                assert(w.map[i] == (pairs[i].0, w1.map[i].0));
            }
        }
        assert(!w.fs.contains_key(back));
        assert(is_free_index(w.fs.dom(), back, 0));
        lemma_free_index_is(w.fs.dom(), back, 0);
        assert(w1.fs.contains_key(t)) by {
            assert(is_target(w1.map, t)) by {
                assert(w1.map[m].0 == t);
            }
        }
        assert(!is_input(w1.map, m, t)) by {
            if is_input(w1.map, m, t) {
                let i = choose|i: int| 0 <= i < m && #[trigger] w1.map[i].0 == t;
                assert(w1.map[i].0 != w1.map[m].0);
            }
        }
        assert(!is_target(w.map, t)) by {
            if is_target(w.map, t) {
                let i = choose|i: int| 0 <= i < w.map.len() && #[trigger] w.map[i].0 == t;
                assert(w.map[i] == (pairs[i].0, w1.map[i].0));
                assert(pairs[i].0 != prefixed(pairs[m].1, k));
            }
        }
        assert(w.fs.contains_key(t));
        assert(w2.fs == w.fs.remove(t).insert(back, w.fs[t]));
        assert(w2.map == w.map.push((back, t)));
        assert forall|x: Seq<char>| is_target(w2.map, x) <==> (is_target(w.map, x) || x == back) by {
            if is_target(w2.map, x) {
                let i = choose|i: int| 0 <= i < w2.map.len() && #[trigger] w2.map[i].0 == x;
                if i < m {
                    assert(w.map[i].0 == x);
                }
            }
            if is_target(w.map, x) {
                let i = choose|i: int| 0 <= i < w.map.len() && #[trigger] w.map[i].0 == x;
                assert(w2.map[i].0 == x);
            }
            if x == back {
                assert(w2.map[m].0 == x);
            }
        }
        assert forall|x: Seq<char>| is_input(w1.map, n, x) <==> (is_input(w1.map, m, x) || x == t) by {
            if is_input(w1.map, n, x) {
                let i = choose|i: int| 0 <= i < n && #[trigger] w1.map[i].0 == x;
                if i < m {
                    assert(is_input(w1.map, m, x));
                }
            }
            if is_input(w1.map, m, x) {
                let i = choose|i: int| 0 <= i < m && #[trigger] w1.map[i].0 == x;
                assert(w1.map[i].0 == x);
            }
            if x == t {
                assert(w1.map[m].0 == x);
            }
        }
        assert forall|i: int| 0 <= i < n implies #[trigger] w2.map[i] == (pairs[i].0, w1.map[i].0) by {
            if i < m {
                assert(w2.map[i] == w.map[i]);
            }
        }
        assert forall|i: int| 0 <= i < n implies w2.fs[#[trigger] pairs[i].0] == w1.fs[w1.map[i].0] by {
            if i < m {
                assert(w.map[i] == (pairs[i].0, w1.map[i].0));
                assert(w.map[i].0 == pairs[i].0);
                assert(is_target(w.map, pairs[i].0));
                assert(pairs[i].0 != back);
            }
        }
        assert forall|x: Seq<char>|
            w2.fs.contains_key(x) && !is_target(w2.map, x) implies #[trigger] w2.fs[x] == w1.fs[x] by {}
        assert(w2.fs.dom() =~= w.fs.dom().remove(t).insert(back));
    }
}

/// Undo: renaming by the map that a live run without overwrite recorded,
/// with its entries as pairs in the same order, puts every file back under
/// its original name, where the first run's inputs are distinct files and
/// no output (with underscores) is an input.
pub proof fn lemma_map_undo(
    options: RenameOptions,
    fs: Map<Seq<char>, nat>,
    pairs: Seq<(Seq<char>, Seq<char>)>,
)
    requires
        avoiding(options),
        fs.dom().finite(),
        distinct_inputs(pairs),
        inputs_exist(fs, pairs),
        no_chains(pairs),
    ensures
        ({
            let w1 = run(options, fresh(fs), pairs);
            let w2 = run(options, fresh(w1.fs), w1.map);
            &&& !w1.with_err
            &&& !w2.with_err
            &&& w2.fs == fs
        }),
{
    lemma_live_whole(options, fs, pairs);
    let w1 = run(options, fresh(fs), pairs);
    let total = pairs.len() as int;
    lemma_undo_run(options, fs, pairs, total);
    assert(w1.map.take(total) =~= w1.map);
    let w2 = run(options, fresh(w1.fs), w1.map);
    assert forall|x: Seq<char>| is_input(w1.map, total, x) == is_target(w1.map, x) by {}
    assert forall|x: Seq<char>| is_target(w2.map, x) == is_input(pairs, total, x) by {
        if is_target(w2.map, x) {
            let i = choose|i: int| 0 <= i < w2.map.len() && #[trigger] w2.map[i].0 == x;
            assert(w2.map[i] == (pairs[i].0, w1.map[i].0));
            assert(pairs[i].0 == x);
        }
        if is_input(pairs, total, x) {
            let i = choose|i: int| 0 <= i < total && #[trigger] pairs[i].0 == x;
            assert(w2.map[i] == (pairs[i].0, w1.map[i].0));
            assert(w2.map[i].0 == x);
        }
    }
    assert forall|x: Seq<char>| is_target(w1.map, x) implies !fs.contains_key(x) by {
        let i = choose|i: int| 0 <= i < w1.map.len() && #[trigger] w1.map[i].0 == x;
    }
    assert forall|x: Seq<char>| is_input(pairs, total, x) implies fs.contains_key(x) by {
        let i = choose|i: int| 0 <= i < total && #[trigger] pairs[i].0 == x;
    }
    assert(w2.fs.dom() =~= fs.dom());
    assert forall|x: Seq<char>| #[trigger] w2.fs.contains_key(x) implies w2.fs[x] == fs[x] by {
        if is_input(pairs, total, x) {
            let i = choose|i: int| 0 <= i < total && #[trigger] pairs[i].0 == x;
            assert(w2.fs[pairs[i].0] == w1.fs[w1.map[i].0]);
        }
    }
    assert(w2.fs =~= fs);
}

/// The planner after `k` probes of its target, answered from `on_disk`.
pub open spec fn after_probes(s: RenamerView, on_disk: Set<Seq<char>>, k: nat) -> RenamerView
    decreases k,
{
    if k == 0 {
        s
    } else {
        let p = after_probes(s, on_disk, (k - 1) as nat);
        probed_spec(p, on_disk.contains(p.target)).0
    }
}

/// The paths that the planner takes to exist when the filesystem holds
/// `on_disk`.
pub open spec fn believed_set(s: RenamerView, on_disk: Set<Seq<char>>) -> Set<Seq<char>> {
    Set::new(|x: Seq<char>| believed(s, x, on_disk.contains(x)))
}

/// The planner handed the pair `(input, output)`, with every probe answered
/// from `on_disk`, probing its target until it is free, and a performed
/// rename reported as succeeding exactly where the input is in `on_disk`.
pub open spec fn drive(s: RenamerView, on_disk: Set<Seq<char>>, input: Seq<char>, output: Seq<char>) -> RenamerView {
    let s1 = start_spec(s, input, output).0;
    if input == output {
        s1
    } else {
        let s2 = if s.options.overwrite {
            s1
        } else {
            let sk = after_probes(s1, on_disk, free_index(believed_set(s, on_disk), output));
            probed_spec(sk, on_disk.contains(sk.target)).0
        };
        if s.options.dry_run {
            let s3 = probed_spec(s2, on_disk.contains(input)).0;
            if s3.phase == Phase::Applying {
                applied_spec(s3, true)
            } else {
                s3
            }
        } else {
            applied_spec(s2, on_disk.contains(input))
        }
    }
}

proof fn lemma_after_probes(s: RenamerView, on_disk: Set<Seq<char>>, k: nat)
    requires
        s.phase == Phase::Probing,
        forall|i: nat| i < k ==> believed(s, #[trigger] prefixed(s.target, i), on_disk.contains(prefixed(s.target, i))),
    ensures
        after_probes(s, on_disk, k) == (RenamerView { target: prefixed(s.target, k), ..s }),
    decreases k,
{
    if k > 0 {
        lemma_after_probes(s, on_disk, (k - 1) as nat);
        let p = after_probes(s, on_disk, (k - 1) as nat);
        assert(believed(s, prefixed(s.target, (k - 1) as nat), on_disk.contains(prefixed(s.target, (k - 1) as nat))));
    }
}

/// The planner follows the model: handed a pair while what it believes
/// matches the model's believed filesystem, and answered by a filesystem
/// `on_disk` (the on_disk one of a live run, which the model's believed one
/// equals; the untouched one of a dry run), it records what `run_pair`
/// records, fails where `run_pair` fails, and its beliefs match the
/// model's afterwards.
pub proof fn lemma_planner_follows_model(
    s: RenamerView,
    on_disk: Set<Seq<char>>,
    w: World,
    input: Seq<char>,
    output: Seq<char>,
)
    requires
        s.phase == Phase::Idle,
        w.seen.dom().finite(),
        w.map == s.map,
        w.with_err == s.with_err,
        forall|x: Seq<char>| #[trigger] w.seen.contains_key(x) == believed(s, x, on_disk.contains(x)),
    ensures
        ({
            let d = drive(s, on_disk, input, output);
            let w2 = run_pair(s.options, w, input, output);
            let on_disk2 = if s.options.dry_run {
                on_disk
            } else {
                w2.seen.dom()
            };
            &&& d.phase == Phase::Idle
            &&& d.options == s.options
            &&& d.map == w2.map
            &&& d.with_err == w2.with_err
            &&& forall|x: Seq<char>| #[trigger] w2.seen.contains_key(x) == believed(d, x, on_disk2.contains(x))
        }),
{
    let options = s.options;
    assert(believed_set(s, on_disk) =~= w.seen.dom());
    if input != output {
        let s1 = start_spec(s, input, output).0;
        let t = target_of(options, w.seen, output);
        let s2 = if options.overwrite {
            s1
        } else {
            let k = free_index(believed_set(s, on_disk), output);
            lemma_free_index_exists(w.seen.dom(), output);
            assert(is_free_index(w.seen.dom(), output, k));
            assert forall|i: nat| i < k implies believed(s1, #[trigger] prefixed(s1.target, i), on_disk.contains(prefixed(s1.target, i))) by {
                assert(w.seen.contains_key(prefixed(output, i)));
            }
            lemma_after_probes(s1, on_disk, k);
            let sk = after_probes(s1, on_disk, k);
            assert(!w.seen.contains_key(prefixed(output, k)));
            probed_spec(sk, on_disk.contains(sk.target)).0
        };
        assert(s2.target == t && s2.input == input && s2.overrides == s.overrides);
        let d = drive(s, on_disk, input, output);
        let w2 = run_pair(options, w, input, output);
        if w.seen.contains_key(input) && options.dry_run {
            if !options.overwrite {
                lemma_free_index_exists(w.seen.dom(), output);
                assert(!w.seen.contains_key(t));
            }
            assert(t != input);
            assert forall|x: Seq<char>| #[trigger] w2.seen.contains_key(x) == believed(d, x, on_disk.contains(x)) by {
                assert(w.seen.contains_key(x) == believed(s, x, on_disk.contains(x)));
            }
        }
    }
}

} // verus!
