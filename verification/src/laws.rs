use crate::record::FileRec;
use crate::record::abs_of;
use crate::record::dir_join;
use crate::record::keep_dir;
use crate::record::parse_at;
use crate::record::walk;
use crate::record::walk_children;
use vstd::prelude::*;
use vstd::seq_lib::group_to_multiset_ensures;

verus! {

// General facts about the walk model that the public contracts lean on, and
// the laws the library promises beyond single-call contracts: pruning
// soundness, lookup counting, corruption containment, and determinism.

/// The predicate a filtered walk applies to a file: its absolute path is
/// exactly the target.
pub open spec fn matches_path(t: Seq<char>) -> spec_fn(FileRec) -> bool {
    |fr: FileRec| abs_of(fr) == t
}

proof fn lemma_prefix_transitive(p: Seq<char>, q: Seq<char>, r: Seq<char>)
    requires
        p.is_prefix_of(q),
        q.is_prefix_of(r),
    ensures
        p.is_prefix_of(r),
{
    assert forall|k: int| 0 <= k < p.len() implies p[k] == r.subrange(0, p.len() as int)[k] by {
        assert(p[k] == q.subrange(0, p.len() as int)[k]);
        assert(q[k] == r.subrange(0, q.len() as int)[k]);
    }
    assert(p =~= r.subrange(0, p.len() as int));
}

proof fn lemma_prefix_of_concat(a: Seq<char>, b: Seq<char>)
    ensures
        a.is_prefix_of(a + b),
{
    assert(a =~= (a + b).subrange(0, a.len() as int));
}

proof fn lemma_base_prefix_of_dir_join(base: Seq<char>, name: Seq<char>)
    ensures
        base.is_prefix_of(dir_join(base, name)),
{
    if base.len() == 0 {
        assert(base =~= dir_join(base, name).subrange(0, 0));
    } else {
        assert(base + seq!['/'] + name =~= base + (seq!['/'] + name));
        lemma_prefix_of_concat(base, seq!['/'] + name);
    }
}

proof fn lemma_path_prefix_of_abs(fr: FileRec)
    ensures
        fr.path.is_prefix_of(abs_of(fr)),
{
    assert(fr.path + seq!['/'] + fr.name =~= fr.path + (seq!['/'] + fr.name));
    lemma_prefix_of_concat(fr.path, seq!['/'] + fr.name);
}

/// Every file a walk collects sits at or below the walk's base path.
proof fn lemma_walk_extends_base(
    d: Seq<u8>,
    utf32: bool,
    off: int,
    base: Seq<char>,
    filt: Option<Seq<char>>,
    fuel: nat,
)
    ensures
        forall|k: int|
            0 <= k < walk(d, utf32, off, base, filt, fuel).len() ==> base.is_prefix_of(
                (#[trigger] walk(d, utf32, off, base, filt, fuel)[k]).path,
            ),
    decreases fuel, 0nat,
{
    let w0 = walk(d, utf32, off, base, filt, fuel);
    if fuel == 0 {
        assert(w0.len() == 0);
    } else {
        match parse_at(d, off, utf32) {
            crate::record::Rec::Fail => {
                assert(w0.len() == 0);
            },
            crate::record::Rec::Free => {
                assert(w0.len() == 0);
            },
            crate::record::Rec::Root { children } => {
                lemma_walk_children_extends_base(d, utf32, children, base, filt, (fuel - 1) as nat);
                let w = walk_children(d, utf32, children, base, filt, (fuel - 1) as nat);
                assert(w0 == w);
                assert forall|k: int| 0 <= k < w0.len() implies base.is_prefix_of(
                    (#[trigger] w0[k]).path,
                ) by {
                    assert(w0[k] == w[k]);
                }
            },
            crate::record::Rec::Dir { name, children } => {
                let path = dir_join(base, name);
                if keep_dir(path, filt) {
                    lemma_walk_children_extends_base(
                        d,
                        utf32,
                        children,
                        path,
                        filt,
                        (fuel - 1) as nat,
                    );
                    let w = walk_children(d, utf32, children, path, filt, (fuel - 1) as nat);
                    assert(w0 == w);
                    assert forall|k: int| 0 <= k < w0.len() implies base.is_prefix_of(
                        (#[trigger] w0[k]).path,
                    ) by {
                        assert(w0[k] == w[k]);
                        assert(path.is_prefix_of(w[k].path));
                        lemma_base_prefix_of_dir_join(base, name);
                        lemma_prefix_transitive(base, path, w[k].path);
                    }
                } else {
                    assert(w0.len() == 0);
                }
            },
            crate::record::Rec::File { name, signature, begin, bytes } => {
                assert forall|k: int| 0 <= k < w0.len() implies base.is_prefix_of(
                    (#[trigger] w0[k]).path,
                ) by {
                    assert(w0[k].path == base);
                    assert(base =~= base.subrange(0, base.len() as int));
                }
            },
        }
    }
}

/// Every file the walks of a child list collect sits at or below the base.
proof fn lemma_walk_children_extends_base(
    d: Seq<u8>,
    utf32: bool,
    children: Seq<int>,
    base: Seq<char>,
    filt: Option<Seq<char>>,
    fuel: nat,
)
    ensures
        forall|k: int|
            0 <= k < walk_children(d, utf32, children, base, filt, fuel).len()
                ==> base.is_prefix_of(
                (#[trigger] walk_children(d, utf32, children, base, filt, fuel)[k]).path,
            ),
    decreases fuel, children.len() + 1,
{
    if children.len() == 0 {
    } else {
        lemma_walk_extends_base(d, utf32, children[0], base, filt, fuel);
        lemma_walk_children_extends_base(d, utf32, children.drop_first(), base, filt, fuel);
        let a = walk(d, utf32, children[0], base, filt, fuel);
        let b = walk_children(d, utf32, children.drop_first(), base, filt, fuel);
        assert forall|k: int|
            0 <= k < walk_children(d, utf32, children, base, filt, fuel).len() implies base
            .is_prefix_of(
            (#[trigger] walk_children(d, utf32, children, base, filt, fuel)[k]).path,
        ) by {
            if k < a.len() {
                assert((a + b)[k] == a[k]);
            } else {
                assert((a + b)[k] == b[k - a.len()]);
            }
        }
    }
}

proof fn lemma_filter_all_false<A>(s: Seq<A>, pred: spec_fn(A) -> bool)
    requires
        forall|k: int| 0 <= k < s.len() ==> !pred(#[trigger] s[k]),
    ensures
        s.filter(pred) == Seq::<A>::empty(),
    decreases s.len(),
{
    reveal(Seq::filter);
    if s.len() == 0 {
        assert(s =~= Seq::<A>::empty());
    } else {
        lemma_filter_all_false(s.drop_last(), pred);
        assert(!pred(s.last()));
    }
}

/// Pruning is sound and complete for exact lookup: a walk filtered for
/// target `t` collects exactly the files of the unfiltered walk whose
/// absolute path is `t`. Pruned subtrees never hold a qualifying file.
pub proof fn lemma_pruning_preserves_matches(
    d: Seq<u8>,
    utf32: bool,
    off: int,
    base: Seq<char>,
    t: Seq<char>,
    fuel: nat,
)
    ensures
        walk(d, utf32, off, base, Some(t), fuel) == walk(d, utf32, off, base, None, fuel).filter(
            matches_path(t),
        ),
    decreases fuel, 0nat,
{
    reveal(Seq::filter);
    let pred = matches_path(t);
    let lhs = walk(d, utf32, off, base, Some(t), fuel);
    let w = walk(d, utf32, off, base, None, fuel);
    if fuel == 0 {
        assert(w.filter(pred) =~= Seq::<FileRec>::empty());
    } else {
        match parse_at(d, off, utf32) {
            crate::record::Rec::Fail => {
                assert(w.filter(pred) =~= Seq::<FileRec>::empty());
            },
            crate::record::Rec::Free => {
                assert(w.filter(pred) =~= Seq::<FileRec>::empty());
            },
            crate::record::Rec::Root { children } => {
                lemma_pruning_preserves_matches_children(
                    d,
                    utf32,
                    children,
                    base,
                    t,
                    (fuel - 1) as nat,
                );
            },
            crate::record::Rec::Dir { name, children } => {
                let path = dir_join(base, name);
                if keep_dir(path, Some(t)) {
                    lemma_pruning_preserves_matches_children(
                        d,
                        utf32,
                        children,
                        path,
                        t,
                        (fuel - 1) as nat,
                    );
                } else {
                    // The pruned subtree holds no file whose absolute path
                    // is the target: every file in it sits below this
                    // directory's path, which is not a prefix of the target.
                    assert(lhs =~= Seq::<FileRec>::empty());
                    lemma_walk_children_extends_base(
                        d,
                        utf32,
                        children,
                        path,
                        None,
                        (fuel - 1) as nat,
                    );
                    let wc = walk_children(d, utf32, children, path, None, (fuel - 1) as nat);
                    assert(w == wc);
                    assert forall|k: int| 0 <= k < wc.len() implies !pred(#[trigger] wc[k]) by {
                        assert(path.is_prefix_of(wc[k].path));
                        lemma_path_prefix_of_abs(wc[k]);
                        lemma_prefix_transitive(path, wc[k].path, abs_of(wc[k]));
                        if abs_of(wc[k]) == t {
                            assert(path.is_prefix_of(t));
                        }
                    }
                    lemma_filter_all_false(wc, pred);
                }
            },
            crate::record::Rec::File { name, signature, begin, bytes } => {
                let fr = FileRec { name, path: base, signature, begin, bytes };
                assert(w =~= seq![fr]);
                assert(seq![fr].drop_last() =~= Seq::<FileRec>::empty());
                assert(Seq::<FileRec>::empty().filter(pred) =~= Seq::<FileRec>::empty());
                if crate::record::keep_file(crate::record::abs_join(base, name), Some(t)) {
                    assert(pred(fr));
                    assert(w.filter(pred) =~= Seq::<FileRec>::empty().push(fr));
                    assert(lhs =~= Seq::<FileRec>::empty().push(fr));
                } else {
                    assert(!pred(fr));
                    assert(w.filter(pred) =~= Seq::<FileRec>::empty());
                    assert(lhs =~= Seq::<FileRec>::empty());
                }
            },
        }
    }
}

proof fn lemma_pruning_preserves_matches_children(
    d: Seq<u8>,
    utf32: bool,
    children: Seq<int>,
    base: Seq<char>,
    t: Seq<char>,
    fuel: nat,
)
    ensures
        walk_children(d, utf32, children, base, Some(t), fuel) == walk_children(
            d,
            utf32,
            children,
            base,
            None,
            fuel,
        ).filter(matches_path(t)),
    decreases fuel, children.len() + 1,
{
    reveal(Seq::filter);
    let pred = matches_path(t);
    if children.len() == 0 {
        assert(walk_children(d, utf32, children, base, None, fuel).filter(pred) =~= Seq::<
            FileRec,
        >::empty());
    } else {
        lemma_pruning_preserves_matches(d, utf32, children[0], base, t, fuel);
        lemma_pruning_preserves_matches_children(
            d,
            utf32,
            children.drop_first(),
            base,
            t,
            fuel,
        );
        Seq::filter_distributes_over_add(
            walk(d, utf32, children[0], base, None, fuel),
            walk_children(d, utf32, children.drop_first(), base, None, fuel),
            pred,
        );
    }
}

/// In any descriptor list, the number of files whose absolute path is `t`
/// equals the multiplicity of `t` among the list's absolute paths.
proof fn lemma_match_count(s: Seq<FileRec>, t: Seq<char>)
    ensures
        s.filter(matches_path(t)).len() == crate::record::paths_of(s).to_multiset().count(t),
    decreases s.len(),
{
    reveal(Seq::filter);
    broadcast use group_to_multiset_ensures;
    broadcast use vstd::multiset::group_multiset_axioms;

    let pred = matches_path(t);
    if s.len() == 0 {
        assert(crate::record::paths_of(s) =~= Seq::<Seq<char>>::empty());
        assert(crate::record::paths_of(s).to_multiset().count(t) == 0);
    } else {
        lemma_match_count(s.drop_last(), t);
        let pd = crate::record::paths_of(s.drop_last());
        assert(pd =~= crate::record::paths_of(s).drop_last());
        assert(crate::record::paths_of(s) =~= pd.push(abs_of(s.last())));
        assert(pd.push(abs_of(s.last())).to_multiset() =~= pd.to_multiset().insert(
            abs_of(s.last()),
        ));
        if pred(s.last()) {
            assert(abs_of(s.last()) == t);
        } else {
            assert(abs_of(s.last()) != t);
        }
    }
}

/// An exact lookup finds as many descriptors as the unfiltered listing
/// holds copies of the target path, and each of them recombines to exactly
/// that path.
pub proof fn lemma_lookup_counts_matches(d: Seq<u8>, utf32: bool, t: Seq<char>)
    ensures
        crate::record::archive_walk(d, utf32, Some(t)).len() == crate::record::paths_of(
            crate::record::archive_walk(d, utf32, None),
        ).to_multiset().count(t),
        forall|k: int|
            0 <= k < crate::record::archive_walk(d, utf32, Some(t)).len() ==> abs_of(
                #[trigger] crate::record::archive_walk(d, utf32, Some(t))[k],
            ) == t,
{
    lemma_pruning_preserves_matches(d, utf32, 0, Seq::empty(), t, d.len());
    let w = crate::record::archive_walk(d, utf32, None);
    lemma_match_count(w, t);
    broadcast use vstd::seq_lib::group_filter_ensures;

    let m = crate::record::archive_walk(d, utf32, Some(t));
    assert(m == w.filter(matches_path(t)));
    assert forall|k: int| 0 <= k < m.len() implies abs_of(#[trigger] m[k]) == t by {
        assert(matches_path(t)(w.filter(matches_path(t))[k]));
    }
}

/// A path the listing holds exactly once is resolvable: the lookup walk for
/// it finds exactly one descriptor, whose directory path and name recombine
/// to that path.
pub proof fn lemma_listed_path_resolves(d: Seq<u8>, utf32: bool, t: Seq<char>)
    requires
        crate::record::paths_of(crate::record::archive_walk(d, utf32, None)).to_multiset().count(t)
            == 1,
    ensures
        crate::record::archive_walk(d, utf32, Some(t)).len() == 1,
        abs_of(crate::record::archive_walk(d, utf32, Some(t))[0]) == t,
{
    lemma_lookup_counts_matches(d, utf32, t);
}

/// Corruption is contained: a child whose record is malformed (for example,
/// its offset points past the end of the archive) contributes nothing, and
/// the remaining children yield exactly what they would yield without it.
pub proof fn lemma_corrupt_child_dropped(
    d: Seq<u8>,
    utf32: bool,
    children: Seq<int>,
    i: int,
    base: Seq<char>,
    filt: Option<Seq<char>>,
    fuel: nat,
)
    requires
        0 <= i < children.len(),
        parse_at(d, children[i], utf32) is Fail,
    ensures
        walk_children(d, utf32, children, base, filt, fuel) == walk_children(
            d,
            utf32,
            children.remove(i),
            base,
            filt,
            fuel,
        ),
    decreases children.len(),
{
    if i == 0 {
        assert(walk(d, utf32, children[0], base, filt, fuel) == Seq::<FileRec>::empty());
        assert(children.remove(0) =~= children.drop_first());
        assert(Seq::<FileRec>::empty() + walk_children(
            d,
            utf32,
            children.drop_first(),
            base,
            filt,
            fuel,
        ) =~= walk_children(d, utf32, children.drop_first(), base, filt, fuel));
    } else {
        lemma_corrupt_child_dropped(d, utf32, children.drop_first(), i - 1, base, filt, fuel);
        assert(children.remove(i).drop_first() =~= children.drop_first().remove(i - 1));
        assert(children.remove(i)[0] == children[0]);
        assert(children.remove(i).len() > 0);
    }
}

/// Listing is deterministic in its multiset of paths: any two results that
/// meet the listing contract hold exactly the same paths with the same
/// multiplicities, however the parallel walk interleaved them.
pub proof fn lemma_listing_deterministic(
    d: Seq<u8>,
    utf32: bool,
    r1: Seq<Seq<char>>,
    r2: Seq<Seq<char>>,
)
    requires
        r1.to_multiset() == crate::record::paths_of(
            crate::record::archive_walk(d, utf32, None),
        ).to_multiset(),
        r2.to_multiset() == crate::record::paths_of(
            crate::record::archive_walk(d, utf32, None),
        ).to_multiset(),
    ensures
        r1.to_multiset() == r2.to_multiset(),
{
}

/// Mapping a function over two sequences that hold the same elements (as
/// multisets) yields sequences that again hold the same elements: collecting
/// results in any order and then projecting them commutes with projecting
/// first.
pub proof fn lemma_map_preserves_multiset<A, B>(s1: Seq<A>, s2: Seq<A>, f: spec_fn(A) -> B)
    requires
        s1.to_multiset() == s2.to_multiset(),
    ensures
        s1.map_values(f).to_multiset() == s2.map_values(f).to_multiset(),
    decreases s1.len(),
{
    broadcast use group_to_multiset_ensures;
    broadcast use vstd::multiset::group_multiset_axioms;

    if s1.len() == 0 {
        assert(s1.to_multiset().len() == 0);
        assert(s2.to_multiset().len() == 0);
        assert(s2.len() == 0);
        assert(s1.map_values(f) =~= Seq::<B>::empty());
        assert(s2.map_values(f) =~= Seq::<B>::empty());
    } else {
        let a = s1[0];
        assert(s1.contains(a));
        assert(s1.to_multiset().count(a) > 0);
        assert(s2.to_multiset().count(a) > 0);
        assert(s2.contains(a));
        let i = choose|i: int| 0 <= i < s2.len() && s2[i] == a;
        assert(s1.remove(0).to_multiset() == s1.to_multiset().remove(a));
        assert(s2.remove(i).to_multiset() == s2.to_multiset().remove(a));
        lemma_map_preserves_multiset(s1.remove(0), s2.remove(i), f);
        assert(s1.remove(0).map_values(f) =~= s1.map_values(f).remove(0));
        assert(s2.remove(i).map_values(f) =~= s2.map_values(f).remove(i));
        assert(s1.map_values(f).remove(0).to_multiset() == s1.map_values(f).to_multiset().remove(
            f(a),
        ));
        assert(s2.map_values(f).remove(i).to_multiset() == s2.map_values(f).to_multiset().remove(
            f(a),
        ));
        assert(s1.map_values(f).to_multiset().count(f(a)) > 0) by {
            assert(s1.map_values(f)[0] == f(a));
            assert(s1.map_values(f).contains(f(a)));
        }
        assert(s2.map_values(f).to_multiset().count(f(a)) > 0) by {
            assert(s2.map_values(f)[i] == f(a));
            assert(s2.map_values(f).contains(f(a)));
        }
        assert(s1.map_values(f).to_multiset() =~= s1.map_values(f).to_multiset().remove(
            f(a),
        ).insert(f(a)));
        assert(s2.map_values(f).to_multiset() =~= s2.map_values(f).to_multiset().remove(
            f(a),
        ).insert(f(a)));
    }
}

} // verus!
