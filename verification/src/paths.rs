//! The library's model of filesystem paths: an absolute flag and a list of
//! components. Canonicalization (resolving `.`, `..` and symlinks) is the
//! I/O shell's business; the functions here are pure path arithmetic.

use vstd::prelude::*;

verus! {

/// The mathematical value of a [`PathB`].
pub struct PathV {
    pub absolute: bool,
    pub components: Seq<Seq<char>>,
}

/// A filesystem path: whether it is absolute, and its components in order.
#[derive(Debug, PartialEq, Eq)]
pub struct PathB {
    pub absolute: bool,
    pub components: Vec<String>,
}

impl View for PathB {
    type V = PathV;

    open spec fn view(&self) -> PathV {
        PathV { absolute: self.absolute, components: self.components.deep_view() }
    }
}

/// `a` is an initial run of `b`.
pub open spec fn is_prefix_of(a: Seq<Seq<char>>, b: Seq<Seq<char>>) -> bool {
    a.len() <= b.len() && a == b.take(a.len() as int)
}

/// Each `String` of `v`, cloned.
fn clone_strings(v: &Vec<String>) -> (r: Vec<String>)
    ensures
        r@.len() == v@.len(),
        forall|j: int| 0 <= j < r@.len() ==> r@[j]@ == v@[j]@,
        r.deep_view() == v.deep_view(),
{
    let mut r: Vec<String> = Vec::new();
    let mut i: usize = 0;
    while i < v.len()
        invariant
            i <= v@.len(),
            r@.len() == i,
            forall|j: int| 0 <= j < i ==> r@[j]@ == v@[j]@,
        decreases v@.len() - i,
    {
        r.push(v[i].clone());
        i = i + 1;
    }
    proof {
        assert(r.deep_view().len() == r@.len());
        assert(v.deep_view().len() == v@.len());
        assert forall|j: int| 0 <= j < r@.len() implies r.deep_view()[j] == v.deep_view()[j] by {
            assert(r.deep_view()[j] == r@[j]@);
            assert(v.deep_view()[j] == v@[j]@);
        }
        assert(r.deep_view() =~= v.deep_view());
    }
    r
}

impl Clone for PathB {
    /// An exact copy: same absolute flag, same components.
    fn clone(&self) -> (r: PathB)
        ensures
            r@ == self@,
    {
        PathB { absolute: self.absolute, components: clone_strings(&self.components) }
    }
}

impl PathB {
    /// An empty relative path, the identity of [`PathB::join_path`].
    pub fn empty() -> (r: PathB)
        ensures
            r@.absolute == false,
            r@.components == Seq::<Seq<char>>::empty(),
    {
        let r = PathB { absolute: false, components: Vec::new() };
        proof {
            assert(r@.components =~= Seq::<Seq<char>>::empty());
        }
        r
    }

    /// `self` with one more component at the end.
    pub fn join(&self, name: &String) -> (r: PathB)
        ensures
            r@.absolute == self@.absolute,
            r@.components == self@.components.push(name@),
    {
        let mut components = clone_strings(&self.components);
        components.push(name.clone());
        let r = PathB { absolute: self.absolute, components };
        proof {
            assert(r@.components.len() == r.components@.len());
            assert(self@.components.len() == self.components@.len());
            assert forall|j: int| 0 <= j < r.components@.len() implies r@.components[j]
                == self@.components.push(name@)[j] by {
                assert(r@.components[j] == r.components@[j]@);
                if j < self.components@.len() {
                    assert(self@.components[j] == self.components@[j]@);
                }
            }
            assert(r@.components =~= self@.components.push(name@));
        }
        r
    }

    /// `self` with all of `other`'s components appended.
    pub fn join_path(&self, other: &PathB) -> (r: PathB)
        ensures
            r@.absolute == self@.absolute,
            r@.components == self@.components + other@.components,
    {
        let n = self.components.len();
        let mut components = clone_strings(&self.components);
        let mut i: usize = 0;
        while i < other.components.len()
            invariant
                n == self.components@.len(),
                i <= other.components@.len(),
                components@.len() == n + i,
                forall|j: int| 0 <= j < n ==> components@[j]@ == self.components@[j]@,
                forall|j: int| n <= j < n + i ==> components@[j]@ == other.components@[j - n]@,
            decreases other.components@.len() - i,
        {
            components.push(other.components[i].clone());
            i = i + 1;
        }
        let r = PathB { absolute: self.absolute, components };
        proof {
            assert(r@.components.len() == r.components@.len());
            assert(self@.components.len() == self.components@.len());
            assert(other@.components.len() == other.components@.len());
            assert forall|j: int| 0 <= j < r.components@.len() implies r@.components[j]
                == (self@.components + other@.components)[j] by {
                assert(r@.components[j] == r.components@[j]@);
                if j < self.components@.len() {
                    assert(self@.components[j] == self.components@[j]@);
                } else {
                    assert(other@.components[j - self.components@.len()]
                        == other.components@[j - self.components@.len()]@);
                }
            }
            assert(r@.components =~= self@.components + other@.components);
        }
        r
    }

    /// The path without its last component; `None` when there is none to drop.
    pub fn parent(&self) -> (r: Option<PathB>)
        ensures
            r is Some <==> self@.components.len() > 0,
            r is Some ==> r.unwrap()@.absolute == self@.absolute && r.unwrap()@.components
                == self@.components.drop_last(),
    {
        if self.components.len() == 0 {
            None
        } else {
            let mut components = clone_strings(&self.components);
            components.pop();
            let r = PathB { absolute: self.absolute, components };
            proof {
                assert(r@.components.len() == r.components@.len());
                assert(self@.components.len() == self.components@.len());
                assert forall|j: int| 0 <= j < r.components@.len() implies r@.components[j]
                    == self@.components.drop_last()[j] by {
                    assert(r@.components[j] == r.components@[j]@);
                    assert(self@.components[j] == self.components@[j]@);
                }
                assert(r@.components =~= self@.components.drop_last());
            }
            Some(r)
        }
    }

    /// The last component, cloned; `None` when the path has no components.
    pub fn file_name(&self) -> (r: Option<String>)
        ensures
            r is Some <==> self@.components.len() > 0,
            r is Some ==> r.unwrap()@ == self@.components.last(),
    {
        if self.components.len() == 0 {
            None
        } else {
            let name = self.components[self.components.len() - 1].clone();
            proof {
                assert(self@.components.len() == self.components@.len());
                assert(self@.components.last() == self.components@[self.components@.len() - 1]@);
            }
            Some(name)
        }
    }

    /// Express `self` relative to `base`: `Some` exactly when `base` and
    /// `self` agree on absoluteness and `base`'s components are an initial
    /// run of `self`'s; the result is relative and holds what remains.
    pub fn strip_prefix(&self, base: &PathB) -> (r: Option<PathB>)
        ensures
            r is Some <==> (self@.absolute == base@.absolute && is_prefix_of(
                base@.components,
                self@.components,
            )),
            r is Some ==> r.unwrap()@.absolute == false && r.unwrap()@.components
                == self@.components.skip(base@.components.len() as int),
    {
        if self.absolute != base.absolute {
            return None;
        }
        if base.components.len() > self.components.len() {
            return None;
        }
        let n = base.components.len();
        proof {
            assert(base@.components.len() == base.components@.len());
            assert(self@.components.len() == self.components@.len());
        }
        let mut i: usize = 0;
        while i < n
            invariant
                n == base@.components.len(),
                n <= self@.components.len(),
                i <= n,
                base@.components.len() == base.components@.len(),
                self@.components.len() == self.components@.len(),
                forall|j: int| 0 <= j < i ==> self@.components[j] == base@.components[j],
            decreases n - i,
        {
            if !self.components[i].eq(&base.components[i]) {
                proof {
                    assert(self@.components[i as int] == self.components@[i as int]@);
                    assert(base@.components[i as int] == base.components@[i as int]@);
                    assert(self@.components.take(n as int)[i as int]
                        == self@.components[i as int]);
                }
                return None;
            }
            proof {
                assert(self@.components[i as int] == self.components@[i as int]@);
                assert(base@.components[i as int] == base.components@[i as int]@);
            }
            i = i + 1;
        }
        proof {
            assert(base@.components =~= self@.components.take(n as int));
        }
        let mut components: Vec<String> = Vec::new();
        let mut k: usize = n;
        while k < self.components.len()
            invariant
                n <= k <= self.components@.len(),
                self@.components.len() == self.components@.len(),
                components@.len() == k - n,
                forall|j: int| 0 <= j < k - n ==> components@[j]@ == self.components@[n + j]@,
            decreases self.components@.len() - k,
        {
            components.push(self.components[k].clone());
            k = k + 1;
        }
        let r = PathB { absolute: false, components };
        proof {
            assert(r@.components.len() == r.components@.len());
            assert forall|j: int| 0 <= j < r.components@.len() implies r@.components[j]
                == self@.components.skip(n as int)[j] by {
                assert(r@.components[j] == r.components@[j]@);
                assert(self@.components[n + j] == self.components@[n + j]@);
            }
            assert(r@.components =~= self@.components.skip(n as int));
        }
        Some(r)
    }
}

} // verus!
