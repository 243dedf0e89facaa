//! Upward search for the project's configuration file.
//!
//! The search starts in a directory and walks toward the filesystem root,
//! looking in each directory for a file of the configured name. The
//! filesystem probes themselves are the I/O shell's business: it hands
//! [`find_project_config`] one boolean per directory on the way up, saying
//! whether that directory holds the file.

use vstd::prelude::*;

use crate::errors::Error;
use crate::paths::{is_prefix_of, PathB};

verus! {

/// The directory `i` steps above `dir` (`0` is `dir` itself): the first
/// `dir.len() - i` components.
pub open spec fn ancestor_at(dir: Seq<Seq<char>>, i: int) -> Seq<Seq<char>> {
    dir.take(dir.len() - i)
}

/// The smallest index of a true probe; the length when none is true.
pub open spec fn first_hit(present: Seq<bool>) -> int
    decreases present.len(),
{
    if present.len() == 0 {
        0
    } else if present[0] {
        0
    } else {
        1 + first_hit(present.drop_first())
    }
}

/// What [`first_hit`] returns: a position in range, true there when in
/// range, and false everywhere before it.
pub proof fn lemma_first_hit(present: Seq<bool>)
    ensures
        0 <= first_hit(present) <= present.len(),
        first_hit(present) < present.len() ==> present[first_hit(present)],
        forall|j: int| 0 <= j < first_hit(present) ==> !present[j],
    decreases present.len(),
{
    if present.len() == 0 {
    } else if present[0] {
    } else {
        lemma_first_hit(present.drop_first());
        assert forall|j: int| 0 <= j < first_hit(present) implies !present[j] by {
            if j >= 1 {
                assert(present.drop_first()[j - 1] == present[j]);
            }
        }
    }
}

/// The abstract search: the nearest ancestor of `dir` (including `dir`)
/// whose directory is in `with_file`, the set of directories that hold the
/// configuration file.
pub open spec fn search_spec(dir: Seq<Seq<char>>, with_file: Set<Seq<Seq<char>>>) -> Option<
    Seq<Seq<char>>,
>
    decreases dir.len(),
{
    if with_file.contains(dir) {
        Some(dir)
    } else if dir.len() == 0 {
        None
    } else {
        search_spec(dir.drop_last(), with_file)
    }
}

/// Truthful probes describe `with_file`: probe `i` answers whether the directory
/// `i` steps up holds the file.
pub open spec fn probes_describe(
    dir: Seq<Seq<char>>,
    present: Seq<bool>,
    with_file: Set<Seq<Seq<char>>>,
) -> bool {
    &&& present.len() == dir.len() + 1
    &&& forall|i: int|
        0 <= i < present.len() ==> present[i] == with_file.contains(ancestor_at(dir, i))
}

/// With truthful probes, the first true probe is exactly where the abstract
/// search stops, and no true probe means the abstract search fails.
pub proof fn lemma_search_spec_probes(
    dir: Seq<Seq<char>>,
    present: Seq<bool>,
    with_file: Set<Seq<Seq<char>>>,
)
    requires
        probes_describe(dir, present, with_file),
    ensures
        first_hit(present) < present.len() ==> search_spec(dir, with_file) == Some(
            ancestor_at(dir, first_hit(present)),
        ),
        first_hit(present) == present.len() ==> search_spec(dir, with_file) is None,
    decreases dir.len(),
{
    assert(ancestor_at(dir, 0) =~= dir);
    if with_file.contains(dir) {
        assert(present[0]);
    } else {
        assert(!present[0]);
        if dir.len() == 0 {
            assert(first_hit(present) == 1 + first_hit(present.drop_first()));
        } else {
            let sub = dir.drop_last();
            let subp = present.drop_first();
            assert(dir.drop_last() =~= dir.take(dir.len() - 1));
            assert forall|i: int| 0 <= i < subp.len() implies subp[i] == with_file.contains(
                ancestor_at(sub, i),
            ) by {
                assert(subp[i] == present[i + 1]);
                assert(present[i + 1] == with_file.contains(ancestor_at(dir, i + 1)));
                assert(ancestor_at(sub, i) =~= ancestor_at(dir, i + 1));
            }
            lemma_search_spec_probes(sub, subp, with_file);
            lemma_first_hit(present);
            lemma_first_hit(subp);
            assert(first_hit(present) == 1 + first_hit(subp));
            if first_hit(present) < present.len() {
                assert(ancestor_at(sub, first_hit(subp)) =~= ancestor_at(dir, first_hit(present)));
            }
        }
    }
}

/// The configuration file of the first ancestor directory (counting from
/// `start` itself) whose probe is true: that directory's path with the file
/// name appended. `Err(ConfigNotFound)` exactly when every probe is false.
///
/// `present[i]` must answer for the directory `i` steps above `start`, so
/// there is one probe per ancestor: `start.components.len() + 1` in all.
pub fn find_project_config(start: &PathB, config_filename: &String, present: &Vec<bool>) -> (r:
    Result<PathB, Error>)
    requires
        present@.len() == start@.components.len() + 1,
    ensures
        r is Ok <==> exists|i: int| 0 <= i < present@.len() && present@[i],
        r is Ok ==> {
            &&& 0 <= first_hit(present@) < present@.len()
            &&& r.unwrap()@.absolute == start@.absolute
            &&& r.unwrap()@.components == ancestor_at(
                start@.components,
                first_hit(present@),
            ).push(config_filename@)
        },
        r is Err ==> r == Err::<PathB, Error>(Error::ConfigNotFound) && forall|i: int|
            0 <= i < present@.len() ==> !present@[i],
{
    let n = present.len();
    let mut i: usize = 0;
    while i < n
        invariant
            n == present@.len(),
            present@.len() == start@.components.len() + 1,
            i <= n,
            forall|j: int| 0 <= j < i ==> !present@[j],
        decreases n - i,
    {
        if present[i] {
            proof {
                lemma_first_hit(present@);
                assert(first_hit(present@) == i);
            }
            let m = start.components.len() - i;
            let dir = prefix_path(start, m);
            let found = dir.join(config_filename);
            return Ok(found);
        }
        i = i + 1;
    }
    Err(Error::ConfigNotFound)
}

/// The search result as the initialization check wants it: the found
/// configuration path, or `None` when no ancestor holds one.
pub fn is_project_initialized(start: &PathB, config_filename: &String, present: &Vec<bool>) -> (r:
    Option<PathB>)
    requires
        present@.len() == start@.components.len() + 1,
    ensures
        r is Some <==> exists|i: int| 0 <= i < present@.len() && present@[i],
        r is Some ==> {
            &&& 0 <= first_hit(present@) < present@.len()
            &&& r.unwrap()@.absolute == start@.absolute
            &&& r.unwrap()@.components == ancestor_at(
                start@.components,
                first_hit(present@),
            ).push(config_filename@)
        },
{
    match find_project_config(start, config_filename, present) {
        Ok(path) => Some(path),
        Err(_) => None,
    }
}

/// The path made of `start`'s first `m` components.
fn prefix_path(start: &PathB, m: usize) -> (r: PathB)
    requires
        m <= start@.components.len(),
    ensures
        r@.absolute == start@.absolute,
        r@.components == start@.components.take(m as int),
{
    proof {
        assert(start@.components.len() == start.components@.len());
    }
    let mut components: Vec<String> = Vec::new();
    let mut j: usize = 0;
    while j < m
        invariant
            j <= m <= start.components@.len(),
            components@.len() == j,
            forall|t: int| 0 <= t < j ==> components@[t]@ == start.components@[t]@,
        decreases m - j,
    {
        components.push(start.components[j].clone());
        j = j + 1;
    }
    let r = PathB { absolute: start.absolute, components };
    proof {
        assert(r@.components.len() == r.components@.len());
        assert forall|t: int| 0 <= t < r.components@.len() implies r@.components[t]
            == start@.components.take(m as int)[t] by {
            assert(r@.components[t] == r.components@[t]@);
            assert(start@.components[t] == start.components@[t]@);
        }
        assert(r@.components =~= start@.components.take(m as int));
    }
    r
}

/// Searching from any descendant of the project root finds the root's
/// configuration file, as long as no directory strictly below the root (on
/// the way from the root down to the start) with_file one of its own.
pub proof fn lemma_search_finds_root(
    start: Seq<Seq<char>>,
    root: Seq<Seq<char>>,
    with_file: Set<Seq<Seq<char>>>,
)
    requires
        is_prefix_of(root, start),
        with_file.contains(root),
        forall|d: Seq<Seq<char>>|
            is_prefix_of(root, d) && is_prefix_of(d, start) && d != root ==> !with_file.contains(d),
    ensures
        search_spec(start, with_file) == Some(root),
    decreases start.len(),
{
    assert(start.take(start.len() as int) =~= start);
    assert(is_prefix_of(start, start));
    if with_file.contains(start) {
        assert(start == root) by {
            if start != root {
                assert(is_prefix_of(root, start) && is_prefix_of(start, start) && start != root);
                assert(!with_file.contains(start));
            }
        }
    } else {
        assert(start != root);
        if root.len() == start.len() {
            assert(root == start.take(root.len() as int));
            assert(start.take(root.len() as int) =~= start);
            assert(false);
        }
        assert(root.len() < start.len());
        let sub = start.drop_last();
        assert(sub =~= start.take(start.len() - 1));
        assert(is_prefix_of(root, sub)) by {
            assert(sub.take(root.len() as int) =~= start.take(root.len() as int));
        }
        assert forall|d: Seq<Seq<char>>|
            is_prefix_of(root, d) && is_prefix_of(d, sub) && d != root implies !with_file.contains(
            d,
        ) by {
            assert(sub.take(d.len() as int) =~= start.take(d.len() as int));
            assert(is_prefix_of(d, start));
        }
        lemma_search_finds_root(sub, root, with_file);
    }
}

/// The idempotence of the upward search: from any two descendants of the
/// project root, under the same conditions, the search finds the same
/// directory.
pub proof fn lemma_search_idempotent(
    start1: Seq<Seq<char>>,
    start2: Seq<Seq<char>>,
    root: Seq<Seq<char>>,
    with_file: Set<Seq<Seq<char>>>,
)
    requires
        is_prefix_of(root, start1),
        is_prefix_of(root, start2),
        with_file.contains(root),
        forall|d: Seq<Seq<char>>|
            is_prefix_of(root, d) && (is_prefix_of(d, start1) || is_prefix_of(d, start2)) && d
                != root ==> !with_file.contains(d),
    ensures
        search_spec(start1, with_file) == search_spec(start2, with_file),
        search_spec(start1, with_file) == Some(root),
{
    lemma_search_finds_root(start1, root, with_file);
    lemma_search_finds_root(start2, root, with_file);
}

/// With no configuration file anywhere from `start` up to the filesystem
/// root, the search fails.
pub proof fn lemma_search_not_found(start: Seq<Seq<char>>, with_file: Set<Seq<Seq<char>>>)
    requires
        forall|d: Seq<Seq<char>>| is_prefix_of(d, start) ==> !with_file.contains(d),
    ensures
        search_spec(start, with_file) is None,
    decreases start.len(),
{
    assert(start.take(start.len() as int) =~= start);
    assert(is_prefix_of(start, start));
    assert(!with_file.contains(start));
    if start.len() > 0 {
        let sub = start.drop_last();
        assert(sub =~= start.take(start.len() - 1));
        assert forall|d: Seq<Seq<char>>| is_prefix_of(d, sub) implies !with_file.contains(d) by {
            assert(sub.take(d.len() as int) =~= start.take(d.len() as int));
            assert(is_prefix_of(d, start));
        }
        lemma_search_not_found(sub, with_file);
    }
}

} // verus!

verus! {

/// The idempotence of [`find_project_config`] itself: two searches started
/// in any two descendants of the project root, each with truthful probes,
/// both stop at the project root — so both return the root's configuration
/// file path. No directory strictly below the root (on either way down)
/// may hold a configuration file of its own.
pub proof fn lemma_located_config_agrees(
    start1: Seq<Seq<char>>,
    present1: Seq<bool>,
    start2: Seq<Seq<char>>,
    present2: Seq<bool>,
    root: Seq<Seq<char>>,
    with_file: Set<Seq<Seq<char>>>,
)
    requires
        probes_describe(start1, present1, with_file),
        probes_describe(start2, present2, with_file),
        is_prefix_of(root, start1),
        is_prefix_of(root, start2),
        with_file.contains(root),
        forall|d: Seq<Seq<char>>|
            is_prefix_of(root, d) && (is_prefix_of(d, start1) || is_prefix_of(d, start2)) && d
                != root ==> !with_file.contains(d),
    ensures
        first_hit(present1) < present1.len(),
        first_hit(present2) < present2.len(),
        ancestor_at(start1, first_hit(present1)) == root,
        ancestor_at(start2, first_hit(present2)) == root,
{
    lemma_search_idempotent(start1, start2, root, with_file);
    lemma_search_spec_probes(start1, present1, with_file);
    lemma_search_spec_probes(start2, present2, with_file);
    lemma_first_hit(present1);
    lemma_first_hit(present2);
}

} // verus!
