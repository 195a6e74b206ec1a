//! The expected, actual and missing sets of project directories.

use vstd::prelude::*;

use crate::path::{join_spec, ProjectPath};

verus! {

/// The components of each path of a list.
pub open spec fn views(v: Seq<ProjectPath>) -> Seq<Seq<Seq<char>>> {
    v.map_values(|p: ProjectPath| p@)
}

/// The locations that a list of paths names.
pub open spec fn path_set(v: Seq<ProjectPath>) -> Set<Seq<Seq<char>>> {
    views(v).to_set()
}

/// A list of paths that names no location twice.
pub open spec fn distinct(v: Seq<ProjectPath>) -> bool {
    views(v).no_duplicates()
}

/// Each database `dirname` joined onto the root, in row order.
pub open spec fn expected_paths(root: Seq<Seq<char>>, dirnames: Seq<String>) -> Seq<
    Seq<Seq<char>>,
>
    decreases dirnames.len(),
{
    if dirnames.len() == 0 {
        Seq::empty()
    } else {
        expected_paths(root, dirnames.drop_last()).push(join_spec(root, dirnames.last()@))
    }
}

/// One entry of a directory listing that could be read: its name and
/// whether it is a directory.
#[derive(Debug)]
pub struct ListedEntry {
    pub name: String,
    pub is_dir: bool,
}

/// The subdirectories of the root among the listed entries; an entry that
/// could not be read (`None`) or is no directory gives none.
pub open spec fn listed_dirs(root: Seq<Seq<char>>, entries: Seq<Option<ListedEntry>>) -> Seq<
    Seq<Seq<char>>,
>
    decreases entries.len(),
{
    if entries.len() == 0 {
        Seq::empty()
    } else {
        let init = listed_dirs(root, entries.drop_last());
        match entries.last() {
            Some(e) => if e.is_dir {
                init.push(join_spec(root, e.name@))
            } else {
                init
            },
            None => init,
        }
    }
}

/// The paths of `expected` that `actual` does not hold, in order.
pub open spec fn missing(expected: Seq<Seq<Seq<char>>>, actual: Set<Seq<Seq<char>>>) -> Seq<
    Seq<Seq<char>>,
>
    decreases expected.len(),
{
    if expected.len() == 0 {
        Seq::empty()
    } else {
        let init = missing(expected.drop_last(), actual);
        if actual.contains(expected.last()) {
            init
        } else {
            init.push(expected.last())
        }
    }
}

/// Whether `v` holds the location `p`.
pub fn contains_path(v: &Vec<ProjectPath>, p: &ProjectPath) -> (r: bool)
    ensures
        r == path_set(v@).contains(p@),
{
    let mut i: usize = 0;
    while i < v.len()
        invariant
            i <= v.len(),
            forall|j: int| 0 <= j < i ==> v@[j]@ != p@,
        decreases v.len() - i,
    {
        if v[i].same_as(p) {
            assert(views(v@)[i as int] == p@);
            return true;
        }
        i = i + 1;
    }
    assert(!views(v@).contains(p@));
    false
}

/// Adds `p` to the set held in `v` unless it holds that location already.
fn insert_path(v: &mut Vec<ProjectPath>, p: ProjectPath)
    requires
        distinct(old(v)@),
    ensures
        distinct(final(v)@),
        path_set(final(v)@) == path_set(old(v)@).insert(p@),
{
    let ghost before = v@;
    if !contains_path(v, &p) {
        let ghost pv = p@;
        v.push(p);
        assert(views(v@) =~= views(before).push(pv));
        proof {
            views(before).lemma_push_to_set_commute(pv);
        }
    } else {
        assert(path_set(before).insert(p@) =~= path_set(before));
    }
}

proof fn lemma_take_last<A>(s: Seq<A>, i: int)
    requires
        0 <= i < s.len(),
    ensures
        s.subrange(0, i + 1).drop_last() == s.subrange(0, i),
        s.subrange(0, i + 1).last() == s[i],
{
    assert(s.subrange(0, i + 1).drop_last() =~= s.subrange(0, i));
}

/// The expected set: each `dirname` of the database rows joined onto the
/// root, a name given by several rows counted once.
pub fn expected_set(root: &ProjectPath, dirnames: &Vec<String>) -> (r: Vec<ProjectPath>)
    ensures
        distinct(r@),
        path_set(r@) == expected_paths(root@, dirnames@).to_set(),
{
    let mut out: Vec<ProjectPath> = Vec::new();
    let mut i: usize = 0;
    assert(path_set(out@) =~= Set::empty());
    assert(dirnames@.subrange(0, 0) =~= Seq::<String>::empty());
    while i < dirnames.len()
        invariant
            i <= dirnames.len(),
            distinct(out@),
            path_set(out@) == expected_paths(root@, dirnames@.subrange(0, i as int)).to_set(),
        decreases dirnames.len() - i,
    {
        proof {
            lemma_take_last(dirnames@, i as int);
            expected_paths(root@, dirnames@.subrange(0, i as int)).lemma_push_to_set_commute(
                join_spec(root@, dirnames@[i as int]@),
            );
        }
        let p = root.join(dirnames[i].as_str());
        insert_path(&mut out, p);
        i = i + 1;
    }
    assert(dirnames@.subrange(0, i as int) =~= dirnames@);
    out
}

/// The actual set: the subdirectories found in a listing of the root.
/// Entries that could not be read and entries that are no directory are
/// left out; the others are all kept.
pub fn actual_set(root: &ProjectPath, entries: &Vec<Option<ListedEntry>>) -> (r: Vec<ProjectPath>)
    ensures
        distinct(r@),
        path_set(r@) == listed_dirs(root@, entries@).to_set(),
{
    let mut out: Vec<ProjectPath> = Vec::new();
    let mut i: usize = 0;
    assert(path_set(out@) =~= Set::empty());
    assert(entries@.subrange(0, 0) =~= Seq::<Option<ListedEntry>>::empty());
    while i < entries.len()
        invariant
            i <= entries.len(),
            distinct(out@),
            path_set(out@) == listed_dirs(root@, entries@.subrange(0, i as int)).to_set(),
        decreases entries.len() - i,
    {
        proof {
            lemma_take_last(entries@, i as int);
        }
        match &entries[i] {
            Some(e) => {
                if e.is_dir {
                    proof {
                        listed_dirs(root@, entries@.subrange(0, i as int)).lemma_push_to_set_commute(
                            join_spec(root@, e.name@),
                        );
                    }
                    let p = root.join(e.name.as_str());
                    insert_path(&mut out, p);
                }
            },
            None => {},
        }
        i = i + 1;
    }
    assert(entries@.subrange(0, i as int) =~= entries@);
    out
}

/// The missing set: the paths of `expected` that `actual` does not hold, in
/// the order of `expected`.
pub fn reconcile(expected: &Vec<ProjectPath>, actual: &Vec<ProjectPath>) -> (r: Vec<ProjectPath>)
    ensures
        views(r@) == missing(views(expected@), path_set(actual@)),
        path_set(r@) == path_set(expected@).difference(path_set(actual@)),
        distinct(expected@) ==> distinct(r@),
{
    let mut out: Vec<ProjectPath> = Vec::new();
    let mut i: usize = 0;
    let ghost e = views(expected@);
    let ghost a = path_set(actual@);
    assert(views(out@) =~= Seq::empty());
    assert(e.subrange(0, 0) =~= Seq::empty());
    while i < expected.len()
        invariant
            i <= expected.len(),
            e == views(expected@),
            a == path_set(actual@),
            views(out@) == missing(e.subrange(0, i as int), a),
        decreases expected.len() - i,
    {
        proof {
            lemma_take_last(e, i as int);
        }
        if !contains_path(actual, &expected[i]) {
            let ghost prev = out@;
            out.push(expected[i].clone_path());
            assert(views(out@) =~= views(prev).push(e[i as int]));
        }
        i = i + 1;
    }
    assert(e.subrange(0, i as int) =~= e);
    proof {
        lemma_missing_is_difference(e, a);
    }
    out
}

/// Reconciling yields exactly the expected paths that are not present: the
/// missing list names the set difference of expected and actual, and names
/// no location twice when the expected list does not.
pub proof fn lemma_missing_is_difference(expected: Seq<Seq<Seq<char>>>, actual: Set<Seq<Seq<char>>>)
    ensures
        missing(expected, actual).to_set() == expected.to_set().difference(actual),
        expected.no_duplicates() ==> missing(expected, actual).no_duplicates(),
    decreases expected.len(),
{
    if expected.len() > 0 {
        let init = expected.drop_last();
        let x = expected.last();
        lemma_missing_is_difference(init, actual);
        lemma_missing_subset(init, actual);
        assert(expected =~= init.push(x));
        init.lemma_push_to_set_commute(x);
        if !actual.contains(x) {
            missing(init, actual).lemma_push_to_set_commute(x);
        }
        assert(missing(expected, actual).to_set() =~= expected.to_set().difference(actual));
        if expected.no_duplicates() {
            assert(init.no_duplicates());
            assert(!init.contains(x));
        }
    } else {
        assert(missing(expected, actual).to_set() =~= expected.to_set().difference(actual));
    }
}

proof fn lemma_missing_subset(expected: Seq<Seq<Seq<char>>>, actual: Set<Seq<Seq<char>>>)
    ensures
        forall|p| missing(expected, actual).contains(p) ==> expected.contains(p),
    decreases expected.len(),
{
    if expected.len() > 0 {
        let init = expected.drop_last();
        lemma_missing_subset(init, actual);
        let x = expected.last();
        let m = missing(init, actual);
        assert forall|p| missing(expected, actual).contains(p) implies expected.contains(p) by {
            if m.contains(p) {
                let k = choose|k: int| 0 <= k < m.len() && m[k] == p;
                assert(init.contains(p));
                let k2 = choose|k2: int| 0 <= k2 < init.len() && init[k2] == p;
                assert(expected[k2] == p);
            } else {
                assert(!actual.contains(x));
                assert(missing(expected, actual) == m.push(x));
                let k = choose|k: int| 0 <= k < m.len() + 1 && m.push(x)[k] == p;
                assert(p == x);
                assert(expected[expected.len() - 1] == p);
            }
        }
    }
}

/// Seeding clears what it created: when the root is listed again after
/// seeding, no path that was seeded and is now listed is missing. Where the
/// new listing is the old one with the seeded paths added, the new missing
/// set is the old one without them, and it is empty once every missing path
/// was seeded.
pub proof fn lemma_seeding_clears_missing(
    expected: Seq<Seq<Seq<char>>>,
    actual: Set<Seq<Seq<char>>>,
    seeded: Set<Seq<Seq<char>>>,
    relisted: Set<Seq<Seq<char>>>,
)
    requires
        seeded.subset_of(relisted),
    ensures
        forall|p| seeded.contains(p) ==> !missing(expected, relisted).contains(p),
        relisted == actual.union(seeded) ==> missing(expected, relisted).to_set()
            == missing(expected, actual).to_set().difference(seeded),
        relisted == actual.union(seeded) && missing(expected, actual).to_set().subset_of(seeded)
            ==> missing(expected, relisted).len() == 0,
{
    lemma_missing_is_difference(expected, relisted);
    lemma_missing_is_difference(expected, actual);
    assert forall|p| seeded.contains(p) implies !missing(expected, relisted).contains(p) by {
        assert(!missing(expected, relisted).to_set().contains(p));
    }
    if relisted == actual.union(seeded) {
        assert(missing(expected, relisted).to_set() =~= missing(expected, actual).to_set().difference(
            seeded,
        ));
        if missing(expected, actual).to_set().subset_of(seeded) {
            let m = missing(expected, relisted);
            if m.len() > 0 {
                assert(m.to_set().contains(m[0]));
            }
        }
    }
}

} // verus!
