//! Paths as the library sees them: strings read the way a Unix `Path` reads
//! them, split into components at `/`.
use vstd::prelude::*;

use crate::text::{chars_eq, chars_of, string_of};

verus! {

/// One component of a path (the mathematical model).
pub ghost enum Comp {
    RootDir,
    CurDir,
    ParentDir,
    Normal(Seq<char>),
}

/// One component of a path.
pub enum PathComponent {
    RootDir,
    CurDir,
    ParentDir,
    Normal(Vec<char>),
}

impl View for PathComponent {
    type V = Comp;

    open spec fn view(&self) -> Comp {
        match self {
            PathComponent::RootDir => Comp::RootDir,
            PathComponent::CurDir => Comp::CurDir,
            PathComponent::ParentDir => Comp::ParentDir,
            PathComponent::Normal(v) => Comp::Normal(v@),
        }
    }
}

/// The character sequences held by a vector of character vectors.
pub open spec fn vv_view(v: Seq<Vec<char>>) -> Seq<Seq<char>> {
    v.map_values(|x: Vec<char>| x@)
}

pub open spec fn comps_view(v: Seq<PathComponent>) -> Seq<Comp> {
    v.map_values(|c: PathComponent| c@)
}

/// The pieces of `p` between the separators `/` (there is always at least one).
pub open spec fn segments(p: Seq<char>) -> Seq<Seq<char>>
    decreases p.len(),
{
    if p.len() == 0 {
        seq![Seq::<char>::empty()]
    } else {
        let s = segments(p.drop_last());
        if p.last() == '/' {
            s.push(Seq::<char>::empty())
        } else {
            s.update(s.len() - 1, s.last().push(p.last()))
        }
    }
}

/// What one segment after the first contributes: nothing for an empty
/// segment or `.`, a parent for `..`, a name otherwise.
pub open spec fn seg_component(seg: Seq<char>) -> Option<Comp> {
    if seg.len() == 0 || seg == seq!['.'] {
        None
    } else if seg == seq!['.', '.'] {
        Some(Comp::ParentDir)
    } else {
        Some(Comp::Normal(seg))
    }
}

pub open spec fn body_components(segs: Seq<Seq<char>>) -> Seq<Comp>
    decreases segs.len(),
{
    if segs.len() == 0 {
        Seq::<Comp>::empty()
    } else {
        let prev = body_components(segs.drop_last());
        match seg_component(segs.last()) {
            Some(c) => prev.push(c),
            None => prev,
        }
    }
}

/// The components of a path: a leading `/` is the root, a leading `.` segment
/// is the current directory, and the other segments follow `seg_component`.
pub open spec fn path_components(p: Seq<char>) -> Seq<Comp> {
    let segs = segments(p);
    if p.len() > 0 && p[0] == '/' {
        seq![Comp::RootDir] + body_components(segs.drop_first())
    } else if segs[0] == seq!['.'] {
        seq![Comp::CurDir] + body_components(segs.drop_first())
    } else {
        body_components(segs)
    }
}

/// The components that follow `root`'s when `root`'s are a prefix of `path`'s.
pub open spec fn strip_prefix_comps(path: Seq<Comp>, root: Seq<Comp>) -> Option<Seq<Comp>> {
    if root.len() <= path.len() && path.take(root.len() as int) == root {
        Some(path.skip(root.len() as int))
    } else {
        None
    }
}

/// Whether `root` is a prefix of `path`, component by component.
pub open spec fn path_starts_with(path: Seq<char>, root: Seq<char>) -> bool {
    strip_prefix_comps(path_components(path), path_components(root)) is Some
}

/// The names of the normal components, in order.
pub open spec fn normal_names(c: Seq<Comp>) -> Seq<Seq<char>>
    decreases c.len(),
{
    if c.len() == 0 {
        Seq::<Seq<char>>::empty()
    } else {
        let prev = normal_names(c.drop_last());
        match c.last() {
            Comp::Normal(n) => prev.push(n),
            _ => prev,
        }
    }
}

/// The names joined with `/` between them.
pub open spec fn join_slash(names: Seq<Seq<char>>) -> Seq<char>
    decreases names.len(),
{
    if names.len() == 0 {
        Seq::<char>::empty()
    } else if names.len() == 1 {
        names[0]
    } else {
        join_slash(names.drop_last()) + seq!['/'] + names.last()
    }
}

/// `s` with every `from` replaced by `to`.
pub open spec fn replace_char(s: Seq<char>, from: char, to: char) -> Seq<char> {
    s.map_values(|c: char| if c == from { to } else { c })
}

/// The path of `path` relative to `root`, written with `/` only: the normal
/// components after `root`'s (all of them when `root` is no prefix of `path`).
pub open spec fn relative_path_spec(path: Seq<char>, root: Seq<char>) -> Seq<char> {
    let pc = path_components(path);
    let rel = match strip_prefix_comps(pc, path_components(root)) {
        Some(r) => r,
        None => pc,
    };
    replace_char(join_slash(normal_names(rel)), '\\', '/')
}

/// The last component of `path` when it is a normal one.
pub open spec fn file_name_spec(path: Seq<char>) -> Option<Seq<char>> {
    let c = path_components(path);
    if c.len() > 0 {
        match c.last() {
            Comp::Normal(n) => Some(n),
            _ => None,
        }
    } else {
        None
    }
}

proof fn lemma_segments_nonempty(p: Seq<char>)
    ensures
        segments(p).len() >= 1,
    decreases p.len(),
{
    if p.len() > 0 {
        lemma_segments_nonempty(p.drop_last());
    }
}

/// The pieces of `p` between the separators `/`.
pub fn split_segments(p: &Vec<char>) -> (res: Vec<Vec<char>>)
    ensures
        vv_view(res@) == segments(p@),
{
    let mut done: Vec<Vec<char>> = Vec::new();
    let mut cur: Vec<char> = Vec::new();
    let mut i: usize = 0;
    proof {
        assert(p@.take(0) =~= Seq::<char>::empty());
        assert(vv_view(done@).push(cur@) =~= segments(p@.take(0)));
    }
    while i < p.len()
        invariant
            i <= p@.len(),
            vv_view(done@).push(cur@) == segments(p@.take(i as int)),
        decreases p@.len() - i,
    {
        let c = p[i];
        proof {
            lemma_segments_nonempty(p@.take(i as int));
            assert(p@.take(i + 1).drop_last() =~= p@.take(i as int));
            assert(p@.take(i + 1).last() == c);
        }
        let ghost old_done = vv_view(done@);
        let ghost old_cur = cur@;
        if c == '/' {
            done.push(cur);
            cur = Vec::new();
            proof {
                assert(vv_view(done@) =~= old_done.push(old_cur));
                assert(vv_view(done@).push(cur@) =~= segments(p@.take(i + 1)));
            }
        } else {
            cur.push(c);
            proof {
                assert(vv_view(done@).push(cur@) =~= segments(p@.take(i + 1)));
            }
        }
        i = i + 1;
    }
    let ghost before = vv_view(done@);
    done.push(cur);
    proof {
        assert(p@.take(p@.len() as int) =~= p@);
        assert(vv_view(done@) =~= before.push(cur@));
    }
    done
}

fn is_dot(seg: &Vec<char>) -> (b: bool)
    ensures
        b == (seg@ == seq!['.']),
{
    seg.len() == 1 && seg[0] == '.' && {
        assert(seg@ =~= seq!['.']);
        true
    }
}

fn is_dot_dot(seg: &Vec<char>) -> (b: bool)
    ensures
        b == (seg@ == seq!['.', '.']),
{
    if seg.len() == 2 && seg[0] == '.' && seg[1] == '.' {
        assert(seg@ =~= seq!['.', '.']);
        true
    } else {
        false
    }
}

/// The components of the path `p`.
pub fn components_of(p: &Vec<char>) -> (res: Vec<PathComponent>)
    ensures
        comps_view(res@) == path_components(p@),
{
    let segs = split_segments(p);
    proof {
        lemma_segments_nonempty(p@);
    }
    let mut res: Vec<PathComponent> = Vec::new();
    let start: usize;
    if p.len() > 0 && p[0] == '/' {
        res.push(PathComponent::RootDir);
        start = 1;
    } else if is_dot(&segs[0]) {
        res.push(PathComponent::CurDir);
        start = 1;
    } else {
        start = 0;
    }
    proof {
        assert(vv_view(segs@)[0] == segs@[0]@);
    }
    let ghost head = comps_view(res@);
    let ghost body = vv_view(segs@).skip(start as int);
    proof {
        assert(body.take(0) =~= Seq::<Seq<char>>::empty());
        assert(comps_view(res@) =~= head + body_components(body.take(0)));
    }
    let mut i: usize = start;
    while i < segs.len()
        invariant
            start <= i <= segs@.len(),
            body == vv_view(segs@).skip(start as int),
            comps_view(res@) == head + body_components(body.take(i - start)),
        decreases segs@.len() - i,
    {
        let ghost prev = comps_view(res@);
        proof {
            assert(body.take(i - start + 1).drop_last() =~= body.take(i - start));
            assert(body.take(i - start + 1).last() == vv_view(segs@)[i as int]);
            assert(vv_view(segs@)[i as int] == segs@[i as int]@);
        }
        let seg = &segs[i];
        if seg.len() == 0 || is_dot(seg) {
        } else if is_dot_dot(seg) {
            res.push(PathComponent::ParentDir);
            proof {
                assert(comps_view(res@) =~= prev.push(Comp::ParentDir));
            }
        } else {
            let mut copy: Vec<char> = Vec::new();
            let mut k: usize = 0;
            while k < seg.len()
                invariant
                    k <= seg@.len(),
                    copy@ == seg@.take(k as int),
                decreases seg@.len() - k,
            {
                copy.push(seg[k]);
                proof {
                    assert(seg@.take(k + 1) =~= seg@.take(k as int).push(seg@[k as int]));
                }
                k = k + 1;
            }
            proof {
                assert(seg@.take(seg@.len() as int) =~= seg@);
            }
            res.push(PathComponent::Normal(copy));
            proof {
                assert(comps_view(res@) =~= prev.push(Comp::Normal(seg@)));
            }
        }
        i = i + 1;
    }
    proof {
        assert(body.take(segs@.len() - start) =~= body);
        if start == 1 {
            assert(body =~= vv_view(segs@).drop_first());
        } else {
            assert(body =~= vv_view(segs@));
        }
        assert(head + body_components(body) =~= path_components(p@));
    }
    res
}

fn comp_eq(a: &PathComponent, b: &PathComponent) -> (r: bool)
    ensures
        r == (a@ == b@),
{
    match (a, b) {
        (PathComponent::RootDir, PathComponent::RootDir) => true,
        (PathComponent::CurDir, PathComponent::CurDir) => true,
        (PathComponent::ParentDir, PathComponent::ParentDir) => true,
        (PathComponent::Normal(x), PathComponent::Normal(y)) => chars_eq(x, y),
        _ => false,
    }
}

/// Index in `path` at which the components of `root` end, when they are a
/// prefix of `path`'s.
pub fn strip_prefix_len(path: &Vec<PathComponent>, root: &Vec<PathComponent>) -> (r: Option<usize>)
    ensures
        match r {
            Some(n) => n == root@.len() && strip_prefix_comps(comps_view(path@), comps_view(root@))
                == Some(comps_view(path@).skip(n as int)),
            None => strip_prefix_comps(comps_view(path@), comps_view(root@)) is None,
        },
{
    if root.len() > path.len() {
        return None;
    }
    let mut i: usize = 0;
    while i < root.len()
        invariant
            root@.len() <= path@.len(),
            i <= root@.len(),
            forall|j: int| 0 <= j < i ==> path@[j]@ == root@[j]@,
        decreases root@.len() - i,
    {
        if !comp_eq(&path[i], &root[i]) {
            proof {
                assert(comps_view(path@).take(root@.len() as int)[i as int] != comps_view(root@)[i as int]);
            }
            return None;
        }
        i = i + 1;
    }
    proof {
        assert(comps_view(path@).take(root@.len() as int) =~= comps_view(root@));
    }
    Some(root.len())
}

/// Whether the components of `root` are a prefix of those of `path`.
pub fn starts_with_path(path: &str, root: &str) -> (r: bool)
    ensures
        r == path_starts_with(path@, root@),
{
    let pc = components_of(&chars_of(path));
    let rc = components_of(&chars_of(root));
    strip_prefix_len(&pc, &rc).is_some()
}

/// The path of `path` relative to `root` (the whole of `path` when it does not
/// lie under `root`), its normal components joined with `/`.
pub fn relative_path_of(path: &str, root: &str) -> (r: String)
    ensures
        r@ == relative_path_spec(path@, root@),
{
    let pc = components_of(&chars_of(path));
    let rc = components_of(&chars_of(root));
    let start: usize = match strip_prefix_len(&pc, &rc) {
        Some(n) => n,
        None => 0,
    };
    let ghost rel = comps_view(pc@).skip(start as int);
    proof {
        assert(rel == match strip_prefix_comps(comps_view(pc@), comps_view(rc@)) {
            Some(r) => r,
            None => comps_view(pc@),
        }) by {
            if start == 0 {
                assert(comps_view(pc@).skip(0) =~= comps_view(pc@));
            }
        }
    }
    let mut out: Vec<char> = Vec::new();
    let mut first = true;
    let mut i: usize = start;
    proof {
        assert(rel.take(0) =~= Seq::<Comp>::empty());
    }
    while i < pc.len()
        invariant
            start <= i <= pc@.len(),
            rel == comps_view(pc@).skip(start as int),
            first == (normal_names(rel.take(i - start)).len() == 0),
            out@ == replace_char(join_slash(normal_names(rel.take(i - start))), '\\', '/'),
        decreases pc@.len() - i,
    {
        proof {
            assert(rel.take(i - start + 1).drop_last() =~= rel.take(i - start));
            assert(rel.take(i - start + 1).last() == pc@[i as int]@);
        }
        let ghost names_before = normal_names(rel.take(i - start));
        match &pc[i] {
            PathComponent::Normal(name) => {
                let ghost out_before = out@;
                if !first {
                    out.push('/');
                }
                let mut k: usize = 0;
                let ghost base = out@;
                while k < name.len()
                    invariant
                        k <= name@.len(),
                        out@ == base + replace_char(name@.take(k as int), '\\', '/'),
                    decreases name@.len() - k,
                {
                    let c = name[k];
                    if c == '\\' {
                        out.push('/');
                    } else {
                        out.push(c);
                    }
                    proof {
                        assert(replace_char(name@.take(k + 1), '\\', '/') =~= replace_char(
                            name@.take(k as int),
                            '\\',
                            '/',
                        ).push(if c == '\\' { '/' } else { c }));
                    }
                    k = k + 1;
                }
                proof {
                    assert(name@.take(name@.len() as int) =~= name@);
                    let names_after = names_before.push(name@);
                    assert(normal_names(rel.take(i - start + 1)) == names_after);
                    if names_before.len() == 0 {
                        assert(names_after =~= seq![name@]);
                        assert(out@ =~= replace_char(join_slash(names_after), '\\', '/'));
                    } else {
                        assert(names_after.drop_last() =~= names_before);
                        assert(out@ =~= replace_char(join_slash(names_after), '\\', '/'));
                    }
                }
                first = false;
            },
            _ => {},
        }
        i = i + 1;
    }
    proof {
        assert(rel.take(pc@.len() - start) =~= rel);
    }
    string_of(out.as_slice())
}

/// The last component of `path` when it is a normal one.
pub fn file_name_of(path: &str) -> (r: Option<String>)
    ensures
        match r {
            Some(s) => file_name_spec(path@) == Some(s@),
            None => file_name_spec(path@) is None,
        },
{
    let pc = components_of(&chars_of(path));
    if pc.len() == 0 {
        return None;
    }
    let last = pc.len() - 1;
    proof {
        assert(comps_view(pc@).last() == pc@[last as int]@);
    }
    match &pc[last] {
        PathComponent::Normal(name) => Some(string_of(name.as_slice())),
        _ => None,
    }
}

} // verus!
