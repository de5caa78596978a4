//! The directories a local knot creates for a batch of directories: the
//! paths in the order of their components, then, from the last one back,
//! each one kept unless the one kept just before lies under it.
use vstd::prelude::*;

use crate::configuration::strings_view;
use crate::knot::ssh_commands::lemma_starts_with_itself;
use crate::paths::{
    comps_view, components_of, path_components, path_starts_with, starts_with_path, Comp,
    PathComponent,
};
use crate::text::{chars_eq, chars_of, lex_less, lex_lt};

verus! {

/// The place of a kind of component in the order of components: the root,
/// then `.`, then `..`, then names.
pub open spec fn comp_rank(c: Comp) -> nat {
    match c {
        Comp::RootDir => 1,
        Comp::CurDir => 2,
        Comp::ParentDir => 3,
        Comp::Normal(_) => 4,
    }
}

/// The order of two components: by kind, and names by their characters.
pub open spec fn comp_lt(a: Comp, b: Comp) -> bool {
    comp_rank(a) < comp_rank(b) || (match (a, b) {
        (Comp::Normal(x), Comp::Normal(y)) => lex_lt(x, y),
        _ => false,
    })
}

/// The order of paths: component by component, a path before the paths
/// under it.
pub open spec fn comps_lt(a: Seq<Comp>, b: Seq<Comp>) -> bool
    decreases a.len(),
{
    if b.len() == 0 {
        false
    } else if a.len() == 0 {
        true
    } else if a[0] != b[0] {
        comp_lt(a[0], b[0])
    } else {
        comps_lt(a.drop_first(), b.drop_first())
    }
}

pub open spec fn path_lt(a: Seq<char>, b: Seq<char>) -> bool {
    comps_lt(path_components(a), path_components(b))
}

/// `x` put into `s` before the first path it comes before (after the paths
/// equal to it).
pub open spec fn insert_sorted(x: Seq<char>, s: Seq<Seq<char>>) -> Seq<Seq<char>>
    decreases s.len(),
{
    if s.len() == 0 {
        seq![x]
    } else if path_lt(x, s[0]) {
        seq![x] + s
    } else {
        seq![s[0]] + insert_sorted(x, s.drop_first())
    }
}

/// The paths in order, equal paths in the order given.
pub open spec fn sorted_paths(s: Seq<Seq<char>>) -> Seq<Seq<char>>
    decreases s.len(),
{
    if s.len() == 0 {
        s
    } else {
        insert_sorted(s.last(), sorted_paths(s.drop_last()))
    }
}

/// The directories kept, taken from the last one back: one is left out
/// when the one kept just before lies under it.
pub open spec fn kept_from_end(s: Seq<Seq<char>>) -> Seq<Seq<char>>
    decreases s.len(),
{
    if s.len() == 0 {
        s
    } else {
        let prev = kept_from_end(s.drop_first());
        if prev.len() > 0 && path_starts_with(prev.last(), s[0]) {
            prev
        } else {
            prev.push(s[0])
        }
    }
}

/// The directories created for a batch.
pub open spec fn local_mkdir_targets(dirs: Seq<Seq<char>>) -> Seq<Seq<char>> {
    kept_from_end(sorted_paths(dirs))
}

fn same_component(a: &PathComponent, b: &PathComponent) -> (r: bool)
    ensures
        r == (a@ == b@),
{
    match (a, b) {
        (PathComponent::RootDir, PathComponent::RootDir) => true,
        (PathComponent::CurDir, PathComponent::CurDir) => true,
        (PathComponent::ParentDir, PathComponent::ParentDir) => true,
        (PathComponent::Normal(x), PathComponent::Normal(y)) => chars_eq(x.as_slice(), y.as_slice()),
        _ => false,
    }
}

fn rank_of(c: &PathComponent) -> (r: u8)
    ensures
        r == comp_rank(c@),
{
    match c {
        PathComponent::RootDir => 1,
        PathComponent::CurDir => 2,
        PathComponent::ParentDir => 3,
        PathComponent::Normal(_) => 4,
    }
}

fn component_less(a: &PathComponent, b: &PathComponent) -> (r: bool)
    ensures
        r == comp_lt(a@, b@),
{
    if rank_of(a) < rank_of(b) {
        return true;
    }
    match (a, b) {
        (PathComponent::Normal(x), PathComponent::Normal(y)) => lex_less(x.as_slice(), y.as_slice()),
        _ => false,
    }
}

fn components_less(a: &Vec<PathComponent>, b: &Vec<PathComponent>) -> (r: bool)
    ensures
        r == comps_lt(comps_view(a@), comps_view(b@)),
{
    let ghost av = comps_view(a@);
    let ghost bv = comps_view(b@);
    let mut i: usize = 0;
    proof {
        assert(av.skip(0) =~= av);
        assert(bv.skip(0) =~= bv);
    }
    while i < a.len() && i < b.len()
        invariant
            i <= a@.len(),
            i <= b@.len(),
            av == comps_view(a@),
            bv == comps_view(b@),
            comps_lt(av, bv) == comps_lt(av.skip(i as int), bv.skip(i as int)),
        decreases a@.len() - i,
    {
        proof {
            assert(av.skip(i as int)[0] == a@[i as int]@);
            assert(bv.skip(i as int)[0] == b@[i as int]@);
        }
        if !same_component(&a[i], &b[i]) {
            return component_less(&a[i], &b[i]);
        }
        proof {
            assert(av.skip(i as int).drop_first() =~= av.skip(i + 1));
            assert(bv.skip(i as int).drop_first() =~= bv.skip(i + 1));
        }
        i = i + 1;
    }
    i < b.len()
}

fn path_less(a: &String, b: &String) -> (r: bool)
    ensures
        r == path_lt(a@, b@),
{
    components_less(&components_of(&chars_of(a.as_str())), &components_of(&chars_of(b.as_str())))
}

proof fn lemma_insert_sorted_at(x: Seq<char>, s: Seq<Seq<char>>, j: int)
    requires
        0 <= j <= s.len(),
        forall|k: int| 0 <= k < j ==> !path_lt(x, #[trigger] s[k]),
        j < s.len() ==> path_lt(x, s[j]),
    ensures
        insert_sorted(x, s) == s.take(j) + seq![x] + s.skip(j),
    decreases s.len(),
{
    if s.len() == 0 {
        assert(s.take(j) + seq![x] + s.skip(j) =~= seq![x]);
    } else if j == 0 {
        assert(s.take(j) + seq![x] + s.skip(j) =~= seq![x] + s);
    } else {
        lemma_insert_sorted_at(x, s.drop_first(), j - 1);
        assert(s.take(j) + seq![x] + s.skip(j) =~= seq![s[0]] + (s.drop_first().take(j - 1)
            + seq![x] + s.drop_first().skip(j - 1)));
    }
}

/// The knot adapter of local folders; the decisions of its operations.
pub struct LocalAdapter;

impl LocalAdapter {
    /// The directories a local knot creates for `dirs`, in the order it creates
    /// them.
    pub fn mkdir_batch_targets(dirs: &Vec<String>) -> (r: Vec<String>)
        ensures
            strings_view(r@) == local_mkdir_targets(strings_view(dirs@)),
    {
        let mut sorted: Vec<String> = Vec::new();
        let mut k: usize = 0;
        while k < dirs.len()
            invariant
                k <= dirs@.len(),
                strings_view(sorted@) == sorted_paths(strings_view(dirs@).take(k as int)),
            decreases dirs@.len() - k,
        {
            let ghost cur = strings_view(sorted@);
            let mut j: usize = 0;
            while j < sorted.len() && !path_less(&dirs[k], &sorted[j])
                invariant
                    j <= sorted@.len(),
                    k < dirs@.len(),
                    cur == strings_view(sorted@),
                    forall|q: int| 0 <= q < j ==> !path_lt(dirs@[k as int]@, #[trigger] cur[q]),
                decreases sorted@.len() - j,
            {
                proof {
                    assert(cur[j as int] == sorted@[j as int]@);
                }
                j = j + 1;
            }
            proof {
                if j < sorted@.len() {
                    assert(cur[j as int] == sorted@[j as int]@);
                }
                lemma_insert_sorted_at(dirs@[k as int]@, cur, j as int);
                assert(strings_view(dirs@).take(k + 1).drop_last() =~= strings_view(dirs@).take(k as int));
                assert(strings_view(dirs@).take(k + 1).last() == dirs@[k as int]@);
            }
            sorted.insert(j, dirs[k].clone());
            proof {
                assert(strings_view(sorted@) =~= cur.take(j as int) + seq![dirs@[k as int]@] + cur.skip(
                    j as int,
                ));
            }
            k = k + 1;
        }
        proof {
            assert(strings_view(dirs@).take(dirs@.len() as int) =~= strings_view(dirs@));
        }
        let ghost srt = strings_view(sorted@);
        let mut kept: Vec<String> = Vec::new();
        let mut i: usize = sorted.len();
        proof {
            assert(srt.skip(srt.len() as int) =~= Seq::<Seq<char>>::empty());
        }
        while i > 0
            invariant
                i <= sorted@.len(),
                srt == strings_view(sorted@),
                strings_view(kept@) == kept_from_end(srt.skip(i as int)),
            decreases i,
        {
            i = i - 1;
            proof {
                assert(srt.skip(i as int).drop_first() =~= srt.skip(i + 1));
                assert(srt.skip(i as int)[0] == sorted@[i as int]@);
            }
            let ghost prev = strings_view(kept@);
            let covered = kept.len() > 0 && starts_with_path(
                kept[kept.len() - 1].as_str(),
                sorted[i].as_str(),
            );
            proof {
                if kept@.len() > 0 {
                    assert(prev.last() == kept@[kept@.len() - 1]@);
                }
            }
            if !covered {
                kept.push(sorted[i].clone());
                proof {
                    assert(strings_view(kept@) =~= prev.push(sorted@[i as int]@));
                }
            }
        }
        proof {
            assert(srt.skip(0) =~= srt);
        }
        kept
    }
}

proof fn lemma_insert_sorted_keeps(x: Seq<char>, s: Seq<Seq<char>>)
    ensures
        insert_sorted(x, s).contains(x),
        forall|i: int| 0 <= i < s.len() ==> insert_sorted(x, s).contains(#[trigger] s[i]),
    decreases s.len(),
{
    let r = insert_sorted(x, s);
    if s.len() == 0 {
        assert(r[0] == x);
    } else if path_lt(x, s[0]) {
        assert(r[0] == x);
        assert forall|i: int| 0 <= i < s.len() implies r.contains(#[trigger] s[i]) by {
            assert(r[i + 1] == s[i]);
        }
    } else {
        let t = s.drop_first();
        lemma_insert_sorted_keeps(x, t);
        let r2 = insert_sorted(x, t);
        let w = choose|w: int| 0 <= w < r2.len() && r2[w] == x;
        assert(r[w + 1] == x);
        assert forall|i: int| 0 <= i < s.len() implies r.contains(#[trigger] s[i]) by {
            if i == 0 {
                assert(r[0] == s[0]);
            } else {
                assert(t[i - 1] == s[i]);
                assert(r2.contains(t[i - 1]));
                let v = choose|v: int| 0 <= v < r2.len() && r2[v] == t[i - 1];
                assert(r[v + 1] == s[i]);
            }
        }
    }
}

proof fn lemma_sorted_paths_keeps(s: Seq<Seq<char>>)
    ensures
        forall|i: int| 0 <= i < s.len() ==> sorted_paths(s).contains(#[trigger] s[i]),
    decreases s.len(),
{
    if s.len() > 0 {
        let init = s.drop_last();
        lemma_sorted_paths_keeps(init);
        let prev = sorted_paths(init);
        lemma_insert_sorted_keeps(s.last(), prev);
        assert forall|i: int| 0 <= i < s.len() implies sorted_paths(s).contains(#[trigger] s[i]) by {
            if i < s.len() - 1 {
                assert(init[i] == s[i]);
                assert(prev.contains(init[i]));
                let w = choose|w: int| 0 <= w < prev.len() && prev[w] == init[i];
                assert(prev[w] == s[i]);
            }
        }
    }
}

proof fn lemma_kept_from_end_covers(t: Seq<Seq<char>>)
    ensures
        forall|i: int|
            0 <= i < t.len() ==> exists|k: int|
                0 <= k < kept_from_end(t).len() && path_starts_with(
                    #[trigger] kept_from_end(t)[k],
                    #[trigger] t[i],
                ),
    decreases t.len(),
{
    if t.len() > 0 {
        let rest = t.drop_first();
        lemma_kept_from_end_covers(rest);
        let prev = kept_from_end(rest);
        let r = kept_from_end(t);
        assert forall|k: int| 0 <= k < prev.len() implies r[k] == prev[k] by {}
        assert forall|i: int| 0 <= i < t.len() implies exists|k: int|
            0 <= k < r.len() && path_starts_with(#[trigger] r[k], #[trigger] t[i]) by {
            if i > 0 {
                assert(rest[i - 1] == t[i]);
                let k = choose|k: int| 0 <= k < prev.len() && path_starts_with(prev[k], rest[i - 1]);
                assert(r[k] == prev[k]);
            } else if prev.len() > 0 && path_starts_with(prev.last(), t[0]) {
                assert(r[prev.len() - 1] == prev.last());
            } else {
                lemma_starts_with_itself(t[0]);
                assert(r[prev.len() as int] == t[0]);
            }
        }
    }
}

/// Law: leaving directories out loses none: every directory of a batch lies
/// under (or is) one of those a local knot creates for it.
pub proof fn lemma_local_mkdir_covers(dirs: Seq<Seq<char>>)
    ensures
        forall|i: int|
            0 <= i < dirs.len() ==> exists|k: int|
                0 <= k < local_mkdir_targets(dirs).len() && path_starts_with(
                    #[trigger] local_mkdir_targets(dirs)[k],
                    #[trigger] dirs[i],
                ),
{
    let t = sorted_paths(dirs);
    lemma_sorted_paths_keeps(dirs);
    lemma_kept_from_end_covers(t);
    let r = local_mkdir_targets(dirs);
    assert(r == kept_from_end(t));
    assert forall|i: int| 0 <= i < dirs.len() implies exists|k: int|
        0 <= k < r.len() && path_starts_with(#[trigger] r[k], #[trigger] dirs[i]) by {
        assert(t.contains(dirs[i]));
        let w = choose|w: int| 0 <= w < t.len() && t[w] == dirs[i];
        let k = choose|k: int| 0 <= k < r.len() && path_starts_with(r[k], t[w]);
        assert(path_starts_with(r[k], dirs[i]));
    }
}

} // verus!
