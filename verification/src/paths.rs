//! Purely lexical path normalization: `.` segments disappear, `..` segments
//! cancel the preceding normal segment where one exists.

use vstd::prelude::*;
use crate::types::clone_bytes;

verus! {

/// One component of a filesystem path, as the platform's parser hands them
/// out: an optional prefix (drive or share), the root separator, the current
/// directory, the parent directory, or a named segment.
#[derive(Debug, PartialEq)]
pub enum PathComponent {
    Prefix(Vec<u8>),
    RootDir,
    CurDir,
    ParentDir,
    Normal(Vec<u8>),
}

/// Ghost model of a [`PathComponent`].
pub ghost enum PathComponentModel {
    Prefix(Seq<u8>),
    RootDir,
    CurDir,
    ParentDir,
    Normal(Seq<u8>),
}

impl DeepView for PathComponent {
    type V = PathComponentModel;

    open spec fn deep_view(&self) -> PathComponentModel {
        match self {
            PathComponent::Prefix(p) => PathComponentModel::Prefix(p@),
            PathComponent::RootDir => PathComponentModel::RootDir,
            PathComponent::CurDir => PathComponentModel::CurDir,
            PathComponent::ParentDir => PathComponentModel::ParentDir,
            PathComponent::Normal(n) => PathComponentModel::Normal(n@),
        }
    }
}

/// Whether a trailing component can be cancelled by `..`: anything but the
/// root or a prefix (an empty stack cannot be popped either).
pub open spec fn can_pop(acc: Seq<PathComponentModel>) -> bool {
    acc.len() > 0 && !(acc.last() is RootDir) && !(acc.last() is Prefix)
}

/// The normalization fold: `.` is dropped; `..` cancels the previous
/// component where possible and is kept otherwise; everything else is kept.
pub open spec fn spec_normalize_rec(
    s: Seq<PathComponentModel>,
    acc: Seq<PathComponentModel>,
) -> Seq<PathComponentModel>
    decreases s.len(),
{
    if s.len() == 0 {
        acc
    } else {
        let acc2 = match s[0] {
            PathComponentModel::CurDir => acc,
            PathComponentModel::ParentDir => if can_pop(acc) {
                acc.drop_last()
            } else {
                acc.push(PathComponentModel::ParentDir)
            },
            c => acc.push(c),
        };
        spec_normalize_rec(s.skip(1), acc2)
    }
}

pub open spec fn spec_normalize(s: Seq<PathComponentModel>) -> Seq<PathComponentModel> {
    spec_normalize_rec(s, Seq::empty())
}

/// A component list as the platform parser produces it: a prefix or the
/// root only ever stands at the front.
pub open spec fn components_wf(s: Seq<PathComponentModel>) -> bool {
    forall|i: int, j: int|
        0 <= j < i < s.len() && ((#[trigger] s[i]) is Prefix || s[i] is RootDir) ==> ((
        #[trigger] s[j]) is Prefix || s[j] is RootDir)
}

fn clone_component(c: &PathComponent) -> (r: PathComponent)
    ensures
        r.deep_view() == c.deep_view(),
{
    match c {
        PathComponent::Prefix(p) => PathComponent::Prefix(clone_bytes(p)),
        PathComponent::RootDir => PathComponent::RootDir,
        PathComponent::CurDir => PathComponent::CurDir,
        PathComponent::ParentDir => PathComponent::ParentDir,
        PathComponent::Normal(n) => PathComponent::Normal(clone_bytes(n)),
    }
}

/// Normalizes a path lexically: drops `.` components and lets `..` cancel
/// the named component before it, without consulting the filesystem. The
/// result is exactly [`spec_normalize`].
pub fn normalize_path(components: &Vec<PathComponent>) -> (r: Vec<PathComponent>)
    requires
        components_wf(components.deep_view()),
    ensures
        r.deep_view() == spec_normalize(components.deep_view()),
{
    let ghost s = components.deep_view();
    let mut ret: Vec<PathComponent> = Vec::new();
    let mut i: usize = 0;
    proof {
        assert(s.skip(0) =~= s);
        assert(ret.deep_view() =~= Seq::<PathComponentModel>::empty());
    }
    while i < components.len()
        invariant
            i <= components@.len(),
            s == components.deep_view(),
            s.len() == components@.len(),
            spec_normalize(s) == spec_normalize_rec(s.skip(i as int), ret.deep_view()),
        decreases components@.len() - i,
    {
        proof {
            crate::store::lemma_skip_step(s, i as int);
        }
        let ghost acc = ret.deep_view();
        let c = &components[i];
        match c {
            PathComponent::CurDir => {},
            PathComponent::ParentDir => {
                let poppable = ret.len() > 0 && !matches!(
                    ret[ret.len() - 1],
                    PathComponent::RootDir | PathComponent::Prefix(_),
                );
                if poppable {
                    let _ = ret.pop();
                    proof {
                        assert(ret.deep_view() =~= acc.drop_last());
                    }
                } else {
                    ret.push(PathComponent::ParentDir);
                    proof {
                        assert(ret.deep_view() =~= acc.push(PathComponentModel::ParentDir));
                    }
                }
            },
            other => {
                ret.push(clone_component(other));
                proof {
                    assert(ret.deep_view() =~= acc.push(s[i as int]));
                }
            },
        }
        i = i + 1;
    }
    proof {
        assert(s.skip(i as int).len() == 0);
    }
    ret
}

} // verus!
