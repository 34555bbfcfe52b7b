//! The selection engine: a keyed mapping of selectable items together with
//! a selected subset that is always closed under the dependency relation.
//!
//! All mutation goes through [`SelectableHashMap::select`] and
//! [`SelectableHashMap::deselect`], so the closure invariant cannot be
//! bypassed: for every selected key, every dependency key it declares for
//! the current platform is present in the mapping and selected too.

use vstd::prelude::*;

use crate::platform::Platform;

verus! {

broadcast use
    vstd::set::group_set_axioms,
    vstd::seq_lib::seq_to_set_is_finite,
    vstd::seq_lib::lemma_seq_contains_after_push,
    vstd::set::axiom_set_remove_len,
    vstd::set::axiom_set_difference_finite,
;

/// Why a selection operation failed.
#[derive(Debug, PartialEq, Eq)]
pub enum SelectionError {
    /// The named key, met as the argument or as a declared dependency, is
    /// not in the mapping.
    UnknownKey(String),
    /// The dependency walk met a cycle.
    DependencyCycle,
    /// The key is still a declared dependency of these selected keys.
    StillRequiredBy(Vec<String>),
}

/// An item that may declare dependency keys, possibly per platform.
pub trait Selectable {
    /// The dependency keys the item declares for platform `p`, if any.
    spec fn spec_dependencies(&self, p: Platform) -> Option<Seq<Seq<char>>>;

    /// Resolves the declared dependency keys for platform `p`.
    fn dependencies(&self, p: &Platform) -> (r: Option<&Vec<String>>)
        ensures
            match r {
                Some(d) => self.spec_dependencies(*p) == Some(d@.map_values(|s: String| s@)),
                None => self.spec_dependencies(*p) is None,
            },
    ;
}

/// The texts of a list of keys.
pub open spec fn views_of(v: Seq<String>) -> Seq<Seq<char>> {
    v.map_values(|s: String| s@)
}

/// The item at the first entry for key `k`, if any.
pub open spec fn lookup<T>(items: Seq<(String, T)>, k: Seq<char>) -> Option<T>
    decreases items.len(),
{
    if items.len() == 0 {
        None
    } else if items[0].0@ == k {
        Some(items[0].1)
    } else {
        lookup(items.drop_first(), k)
    }
}

/// The set of key texts of the mapping.
pub open spec fn key_set<T>(items: Seq<(String, T)>) -> Set<Seq<char>> {
    items.map_values(|e: (String, T)| e.0@).to_set()
}

/// No two entries share a key.
pub open spec fn distinct_keys<T>(items: Seq<(String, T)>) -> bool {
    forall|i: int, j: int|
        0 <= i < j < items.len() ==> items[i].0@ != items[j].0@
}

/// The dependency keys of the item at `k`, resolved for platform `p`;
/// empty when the item is absent or declares none.
pub open spec fn deps_of<T: Selectable>(items: Seq<(String, T)>, k: Seq<char>, p: Platform) -> Seq<
    Seq<char>,
> {
    match lookup(items, k) {
        None => Seq::<Seq<char>>::empty(),
        Some(t) => match t.spec_dependencies(p) {
            None => Seq::<Seq<char>>::empty(),
            Some(d) => d,
        },
    }
}

/// A key with a lookup answer is in the key set, and conversely.
pub proof fn lemma_lookup_key_set<T>(items: Seq<(String, T)>, k: Seq<char>)
    ensures
        (lookup(items, k) is Some) == key_set(items).contains(k),
    decreases items.len(),
{
    let kf = |e: (String, T)| e.0@;
    if items.len() == 0 {
        assert(!items.map_values(kf).contains(k));
    } else {
        lemma_lookup_key_set(items.drop_first(), k);
        assert(items.drop_first().map_values(kf) =~= items.map_values(kf).drop_first());
        if items[0].0@ == k {
            assert(items.map_values(kf)[0] == k);
            assert(items.map_values(kf).contains(k));
        } else {
            if items.map_values(kf).contains(k) {
                let i = choose|i: int|
                    0 <= i < items.map_values(kf).len() && items.map_values(kf)[i] == k;
                assert(items.map_values(kf).drop_first()[i - 1] == k);
                assert(items.map_values(kf).drop_first().contains(k));
            }
            if items.map_values(kf).drop_first().contains(k) {
                let i = choose|i: int|
                    0 <= i < items.map_values(kf).drop_first().len() && items.map_values(
                        kf,
                    ).drop_first()[i] == k;
                assert(items.map_values(kf)[i + 1] == k);
                assert(items.map_values(kf).contains(k));
            }
        }
    }
}

/// How a dependency walk can fail.
pub ghost enum WalkError {
    /// This key was needed and is not in the mapping.
    Unknown(Seq<char>),
    /// The walk met this key again while its dependencies were still being
    /// walked.
    Cycle,
}

/// The depth-first dependency walk that `select` performs, as a function:
/// visiting `k` over already-selected keys `sel`, already-completed new
/// keys `acc` (in completion order), and the in-progress set `ip`. An `Ok`
/// answer is the new completion order, ending with `k` itself.
pub open spec fn walk<T: Selectable>(
    items: Seq<(String, T)>,
    p: Platform,
    sel: Seq<Seq<char>>,
    acc: Seq<Seq<char>>,
    ip: Set<Seq<char>>,
    k: Seq<char>,
) -> Result<Seq<Seq<char>>, WalkError>
    decreases key_set(items).difference(ip).len(), 0int,
        when key_set(items).finite()
        via walk_decreases::<T>
{
    if sel.contains(k) || acc.contains(k) {
        Ok(acc)
    } else if ip.contains(k) {
        Err(WalkError::Cycle)
    } else if lookup(items, k) is None {
        Err(WalkError::Unknown(k))
    } else {
        match walk_list(items, p, sel, acc, ip.insert(k), deps_of(items, k, p), 0) {
            Ok(done) => Ok(done.push(k)),
            Err(e) => Err(e),
        }
    }
}

/// The walk over the dependency list of one item, from index `i` on.
pub open spec fn walk_list<T: Selectable>(
    items: Seq<(String, T)>,
    p: Platform,
    sel: Seq<Seq<char>>,
    acc: Seq<Seq<char>>,
    ip: Set<Seq<char>>,
    deps: Seq<Seq<char>>,
    i: int,
) -> Result<Seq<Seq<char>>, WalkError>
    decreases key_set(items).difference(ip).len(), deps.len() - i + 1,
        when key_set(items).finite() && 0 <= i
{
    if i >= deps.len() {
        Ok(acc)
    } else {
        match walk(items, p, sel, acc, ip, deps[i]) {
            Ok(acc2) => walk_list(items, p, sel, acc2, ip, deps, i + 1),
            Err(e) => Err(e),
        }
    }
}

/// What holds of the entry at `i` of a completion order `acc` over already
/// selected keys `sel`: it is new, not repeated, present in the mapping,
/// and every dependency it declares is selected or completed earlier.
pub open spec fn acc_entry_ok<T: Selectable>(
    items: Seq<(String, T)>,
    p: Platform,
    sel: Seq<Seq<char>>,
    acc: Seq<Seq<char>>,
    i: int,
) -> bool {
    &&& !sel.contains(acc[i])
    &&& !acc.take(i).contains(acc[i])
    &&& lookup(items, acc[i]) is Some
    &&& forall|d: int|
        0 <= d < deps_of(items, acc[i], p).len() ==> sel.contains(
            #[trigger] deps_of(items, acc[i], p)[d],
        ) || acc.take(i).contains(deps_of(items, acc[i], p)[d])
}

/// Every entry of the completion order is in good standing.
pub open spec fn acc_ok<T: Selectable>(
    items: Seq<(String, T)>,
    p: Platform,
    sel: Seq<Seq<char>>,
    acc: Seq<Seq<char>>,
) -> bool {
    forall|i: int| 0 <= i < acc.len() ==> #[trigger] acc_entry_ok(items, p, sel, acc, i)
}

/// A successful walk extends the completion order, keeps every entry in
/// good standing, adds only keys outside the in-progress set, and covers
/// the key it was asked for.
proof fn lemma_walk_ok<T: Selectable>(
    items: Seq<(String, T)>,
    p: Platform,
    sel: Seq<Seq<char>>,
    acc: Seq<Seq<char>>,
    ip: Set<Seq<char>>,
    k: Seq<char>,
    done: Seq<Seq<char>>,
)
    requires
        key_set(items).finite(),
        acc_ok(items, p, sel, acc),
        walk(items, p, sel, acc, ip, k) == Ok::<Seq<Seq<char>>, WalkError>(done),
    ensures
        done.len() >= acc.len(),
        done.take(acc.len() as int) == acc,
        acc_ok(items, p, sel, done),
        forall|i: int| acc.len() <= i < done.len() ==> !ip.contains(#[trigger] done[i]),
        sel.contains(k) || done.contains(k),
    decreases key_set(items).difference(ip).len(), 0int,
{
    if sel.contains(k) || acc.contains(k) {
        assert(done == acc);
        assert(done.take(acc.len() as int) =~= acc);
    } else {
        let deps = deps_of(items, k, p);
        let inner = walk_list(items, p, sel, acc, ip.insert(k), deps, 0);
        lemma_lookup_key_set(items, k);
        assert(key_set(items).difference(ip.insert(k)) =~= key_set(items).difference(ip).remove(
            k,
        ));
        assert(key_set(items).difference(ip).contains(k));
        match inner {
            Ok(done2) => {
                lemma_walk_list_ok(items, p, sel, acc, ip.insert(k), deps, 0, done2);
                assert(done == done2.push(k));
                let n2 = done2.len() as int;
                assert(done.take(acc.len() as int) =~= done2.take(acc.len() as int));
                // the completed prefix keeps its standing
                assert forall|i: int| 0 <= i < done.len() implies #[trigger] acc_entry_ok(
                    items,
                    p,
                    sel,
                    done,
                    i,
                ) by {
                    if i < n2 {
                        assert(acc_entry_ok(items, p, sel, done2, i));
                        assert(done.take(i) =~= done2.take(i));
                        assert(done[i] == done2[i]);
                    } else {
                        // the entry for k itself
                        assert(done[i] == k);
                        assert(done.take(i) =~= done2);
                        // k was not completed before: not in acc, and the new
                        // part of done2 avoids the in-progress set, which
                        // holds k
                        assert(!done2.contains(k)) by {
                            if done2.contains(k) {
                                let j = choose|j: int| 0 <= j < n2 && done2[j] == k;
                                if j < acc.len() {
                                    assert(acc[j] == k);
                                    assert(acc.contains(k));
                                } else {
                                    assert(!ip.insert(k).contains(done2[j]));
                                }
                            }
                        }
                        assert forall|d: int|
                            0 <= d < deps_of(items, done[i], p).len() implies sel.contains(
                            #[trigger] deps_of(items, done[i], p)[d],
                        ) || done.take(i).contains(deps_of(items, done[i], p)[d]) by {
                            assert(deps_of(items, done[i], p) == deps);
                            assert(sel.contains(deps[d]) || done2.contains(deps[d]));
                        }
                    }
                }
                // the new entries avoid the outer in-progress set
                assert forall|i: int| acc.len() <= i < done.len() implies !ip.contains(
                    #[trigger] done[i],
                ) by {
                    if i < n2 {
                        assert(done[i] == done2[i]);
                        assert(!ip.insert(k).contains(done2[i]));
                    }
                }
                assert(done[done.len() - 1] == k);
                assert(done.contains(k));
            },
            Err(_) => {
                assert(false);
            },
        }
    }
}

/// A successful walk over a dependency list extends the completion order,
/// keeps every entry in good standing, adds only keys outside the
/// in-progress set, and covers every dependency from `i` on.
proof fn lemma_walk_list_ok<T: Selectable>(
    items: Seq<(String, T)>,
    p: Platform,
    sel: Seq<Seq<char>>,
    acc: Seq<Seq<char>>,
    ip: Set<Seq<char>>,
    deps: Seq<Seq<char>>,
    i: int,
    done: Seq<Seq<char>>,
)
    requires
        key_set(items).finite(),
        0 <= i <= deps.len(),
        acc_ok(items, p, sel, acc),
        walk_list(items, p, sel, acc, ip, deps, i) == Ok::<Seq<Seq<char>>, WalkError>(done),
    ensures
        done.len() >= acc.len(),
        done.take(acc.len() as int) == acc,
        acc_ok(items, p, sel, done),
        forall|j: int| acc.len() <= j < done.len() ==> !ip.contains(#[trigger] done[j]),
        forall|d: int|
            i <= d < deps.len() ==> sel.contains(#[trigger] deps[d]) || done.contains(deps[d]),
    decreases key_set(items).difference(ip).len(), deps.len() - i + 1,
{
    if i >= deps.len() {
        assert(done == acc);
        assert(done.take(acc.len() as int) =~= acc);
    } else {
        match walk(items, p, sel, acc, ip, deps[i]) {
            Ok(a2) => {
                lemma_walk_ok(items, p, sel, acc, ip, deps[i], a2);
                lemma_walk_list_ok(items, p, sel, a2, ip, deps, i + 1, done);
                assert(done.take(acc.len() as int) =~= done.take(a2.len() as int).take(
                    acc.len() as int,
                ));
                assert(a2.take(acc.len() as int) == acc);
                // anything completed at an intermediate stage stays in the
                // final order
                assert forall|x: Seq<char>| a2.contains(x) implies done.contains(x) by {
                    let j = choose|j: int| 0 <= j < a2.len() && a2[j] == x;
                    assert(done.take(a2.len() as int)[j] == x);
                    assert(done[j] == x);
                }
                assert forall|j: int| acc.len() <= j < done.len() implies !ip.contains(
                    #[trigger] done[j],
                ) by {
                    if j < a2.len() {
                        assert(done.take(a2.len() as int)[j] == done[j]);
                        assert(a2[j] == done[j]);
                    }
                }
            },
            Err(_) => {
                assert(false);
            },
        }
    }
}

#[via_fn]
proof fn walk_decreases<T: Selectable>(
    items: Seq<(String, T)>,
    p: Platform,
    sel: Seq<Seq<char>>,
    acc: Seq<Seq<char>>,
    ip: Set<Seq<char>>,
    k: Seq<char>,
) {
    if !(sel.contains(k) || acc.contains(k)) && !ip.contains(k) && lookup(items, k) is Some {
        lemma_lookup_key_set(items, k);
        assert(key_set(items).difference(ip.insert(k)) =~= key_set(items).difference(ip).remove(
            k,
        ));
        assert(key_set(items).difference(ip).contains(k));
    }
}

/// Scans a key list for `key`.
fn contains_str(v: &Vec<String>, key: &String) -> (r: bool)
    ensures
        r == views_of(v@).contains(key@),
{
    let mut i: usize = 0;
    while i < v.len()
        invariant
            0 <= i <= v@.len(),
            forall|j: int| 0 <= j < i ==> v@[j]@ != key@,
        decreases v@.len() - i,
    {
        if v[i] == *key {
            proof {
                assert(views_of(v@)[i as int] == key@);
            }
            return true;
        }
        i = i + 1;
    }
    proof {
        assert(!views_of(v@).contains(key@)) by {
            if views_of(v@).contains(key@) {
                let j = choose|j: int| 0 <= j < views_of(v@).len() && views_of(v@)[j] == key@;
                assert(v@[j]@ == key@);
            }
        }
    }
    false
}

/// Finds the item stored under `key`.
fn get_item<'a, T>(items: &'a Vec<(String, T)>, key: &String) -> (r: Option<&'a T>)
    ensures
        match r {
            Some(t) => lookup(items@, key@) == Some(*t),
            None => lookup(items@, key@) is None,
        },
{
    proof {
        assert(items@.skip(0) =~= items@);
    }
    let mut i: usize = 0;
    while i < items.len()
        invariant
            0 <= i <= items@.len(),
            lookup(items@, key@) == lookup(items@.skip(i as int), key@),
        decreases items@.len() - i,
    {
        if items[i].0 == *key {
            proof {
                assert(items@.skip(i as int)[0] == items@[i as int]);
            }
            return Some(&items[i].1);
        }
        proof {
            assert(items@.skip(i as int)[0] == items@[i as int]);
            assert(items@.skip(i as int).drop_first() =~= items@.skip(i + 1));
        }
        i = i + 1;
    }
    None
}

/// The recursive dependency walk behind `select`: mirrors [`walk`] exactly,
/// completing keys into `acc` in postorder and tracking the in-progress
/// path in `ip`.
fn select_rec<T: Selectable>(
    items: &Vec<(String, T)>,
    p: &Platform,
    selected: &Vec<String>,
    acc: &mut Vec<String>,
    ip: &mut Vec<String>,
    Ghost(ips): Ghost<Set<Seq<char>>>,
    key: &String,
) -> (r: Result<(), SelectionError>)
    requires
        views_of(old(ip)@).to_set() == ips,
    ensures
        final(ip)@ == old(ip)@,
        match walk(items@, *p, views_of(selected@), views_of(old(acc)@), ips, key@) {
            Ok(done) => r is Ok && views_of(final(acc)@) == done,
            Err(WalkError::Cycle) => r == Err::<(), SelectionError>(
                SelectionError::DependencyCycle,
            ),
            Err(WalkError::Unknown(d)) => r matches Err(SelectionError::UnknownKey(u)) && u@ == d,
        },
    decreases key_set(items@).difference(ips).len(),
{
    let ghost selv = views_of(selected@);
    let ghost accv0 = views_of(acc@);
    let ghost ip0 = ip@;
    if contains_str(selected, key) || contains_str(acc, key) {
        return Ok(());
    }
    if contains_str(ip, key) {
        proof {
            assert(ips.contains(key@));
        }
        return Err(SelectionError::DependencyCycle);
    }
    proof {
        assert(!ips.contains(key@));
    }
    let item = match get_item(items, key) {
        None => {
            return Err(SelectionError::UnknownKey(key.clone()));
        },
        Some(t) => t,
    };
    let marker = key.clone();
    ip.push(marker);
    let ghost ip1 = ip@;
    let ghost ips2 = views_of(ip1).to_set();
    proof {
        assert(ip1 == ip0.push(*key));
        assert(views_of(ip1) =~= views_of(ip0).push(key@));
        assert(ips2 =~= ips.insert(key@));
        lemma_lookup_key_set(items@, key@);
        assert(key_set(items@).difference(ips2) =~= key_set(items@).difference(ips).remove(key@));
        assert(key_set(items@).difference(ips).contains(key@));
    }
    let ghost depsv = deps_of(items@, key@, *p);
    let deps_opt = item.dependencies(p);
    match deps_opt {
        None => {
            proof {
                assert(depsv =~= Seq::<Seq<char>>::empty());
                assert(walk_list(items@, *p, selv, accv0, ips2, depsv, 0) == Ok::<
                    Seq<Seq<char>>,
                    WalkError,
                >(accv0));
            }
        },
        Some(ds) => {
            proof {
                assert(depsv == views_of(ds@));
            }
            let mut j: usize = 0;
            while j < ds.len()
                invariant
                    0 <= j <= ds@.len(),
                    ip0 == old(ip)@,
                    ip@ == ip1,
                    ip1 == ip0.push(*key),
                    ips2 == views_of(ip1).to_set(),
                    ips2 == ips.insert(key@),
                    ips == views_of(ip0).to_set(),
                    !ips.contains(key@),
                    lookup(items@, key@) is Some,
                    selv == views_of(selected@),
                    accv0 == views_of(old(acc)@),
                    !selv.contains(key@),
                    !accv0.contains(key@),
                    depsv == views_of(ds@),
                    depsv == deps_of(items@, key@, *p),
                    walk_list(items@, *p, selv, accv0, ips2, depsv, 0) == walk_list(
                        items@,
                        *p,
                        selv,
                        views_of(acc@),
                        ips2,
                        depsv,
                        j as int,
                    ),
                decreases ds@.len() - j,
            {
                proof {
                    lemma_lookup_key_set(items@, key@);
                    assert(key_set(items@).difference(ips2) =~= key_set(items@).difference(
                        ips,
                    ).remove(key@));
                    assert(key_set(items@).difference(ips).contains(key@));
                    assert(depsv[j as int] == ds@[j as int]@);
                }
                let ghost acc_pre = views_of(acc@);
                let cr = select_rec(items, p, selected, acc, ip, Ghost(ips2), &ds[j]);
                match cr {
                    Ok(()) => {
                        proof {
                            assert(walk_list(items@, *p, selv, acc_pre, ips2, depsv, j as int)
                                == walk_list(
                                items@,
                                *p,
                                selv,
                                views_of(acc@),
                                ips2,
                                depsv,
                                j + 1,
                            ));
                        }
                        j = j + 1;
                    },
                    Err(e) => {
                        proof {
                            assert(walk_list(items@, *p, selv, accv0, ips2, depsv, 0)
                                == walk_list(items@, *p, selv, acc_pre, ips2, depsv, j as int));
                            assert(walk(items@, *p, selv, accv0, ips, key@) == walk_list(
                                items@,
                                *p,
                                selv,
                                accv0,
                                ips2,
                                depsv,
                                0,
                            ));
                        }
                        ip.pop();
                        proof {
                            assert(ip@ =~= ip0);
                        }
                        return Err(e);
                    },
                }
            }
            proof {
                assert(walk_list(items@, *p, selv, views_of(acc@), ips2, depsv, ds@.len() as int)
                    == Ok::<Seq<Seq<char>>, WalkError>(views_of(acc@)));
            }
        },
    }
    let ghost acc_done = views_of(acc@);
    ip.pop();
    acc.push(key.clone());
    proof {
        assert(ip@ =~= ip0);
        assert(views_of(acc@) =~= acc_done.push(key@));
        assert(walk(items@, *p, selv, accv0, ips, key@) == Ok::<Seq<Seq<char>>, WalkError>(
            acc_done.push(key@),
        ));
    }
    Ok(())
}

/// A keyed mapping of selectable items with a dependency-closed selected
/// subset. The mapping and the platform are fixed at construction; only
/// `select` and `deselect` change the selection.
pub struct SelectableHashMap<T: Selectable> {
    items: Vec<(String, T)>,
    selected: Vec<String>,
    current: Platform,
}

impl<T: Selectable> SelectableHashMap<T> {
    /// The stored entries, in insertion order.
    pub closed spec fn spec_items(self) -> Seq<(String, T)> {
        self.items@
    }

    /// The texts of the selected keys, in completion order.
    pub closed spec fn spec_selected(self) -> Seq<Seq<char>> {
        views_of(self.selected@)
    }

    /// The platform dependencies are resolved for.
    pub closed spec fn spec_current(self) -> Platform {
        self.current
    }

    /// Law: the selection is closed under the dependency relation — every
    /// dependency key a selected key declares for the current platform is
    /// itself selected.
    pub open spec fn selection_closed(self) -> bool {
        forall|i: int, d: int|
            0 <= i < self.spec_selected().len() && 0 <= d < deps_of(
                self.spec_items(),
                self.spec_selected()[i],
                self.spec_current(),
            ).len() ==> self.spec_selected().contains(
                #[trigger] deps_of(self.spec_items(), self.spec_selected()[i], self.spec_current())[d],
            )
    }

    /// Well-formedness: distinct keys, a duplicate-free selection of known
    /// keys, and the closure law.
    pub open spec fn wf(self) -> bool {
        &&& distinct_keys(self.spec_items())
        &&& (forall|i: int, j: int|
            0 <= i < j < self.spec_selected().len() ==> self.spec_selected()[i]
                != self.spec_selected()[j])
        &&& (forall|i: int|
            0 <= i < self.spec_selected().len() ==> lookup(
                self.spec_items(),
                #[trigger] self.spec_selected()[i],
            ) is Some)
        &&& self.selection_closed()
    }

    /// Builds the engine over a mapping with distinct keys; nothing starts
    /// selected.
    pub fn new(items: Vec<(String, T)>, current: Platform) -> (r: Self)
        requires
            distinct_keys(items@),
        ensures
            r.wf(),
            r.spec_items() == items@,
            r.spec_selected() == Seq::<Seq<char>>::empty(),
            r.spec_current() == current,
    {
        let r = SelectableHashMap { items, selected: Vec::new(), current };
        proof {
            assert(r.spec_selected() =~= Seq::<Seq<char>>::empty());
        }
        r
    }

    /// Whether `key` is currently selected.
    pub fn is_selected(&self, key: &String) -> (r: bool)
        ensures
            r == self.spec_selected().contains(key@),
    {
        contains_str(&self.selected, key)
    }

    /// The selected keys; their order carries no meaning.
    pub fn selected_keys(&self) -> (r: &Vec<String>)
        ensures
            views_of(r@) == self.spec_selected(),
    {
        &self.selected
    }

    /// The dependency keys of the item at `key`, resolved for the current
    /// platform; nothing when the key is absent or the item declares none.
    pub fn dependencies_of(&self, key: &String) -> (r: Option<&Vec<String>>)
        ensures
            match r {
                Some(d) => lookup(self.spec_items(), key@) is Some && views_of(d@) == deps_of(
                    self.spec_items(),
                    key@,
                    self.spec_current(),
                ),
                None => match lookup(self.spec_items(), key@) {
                    None => true,
                    Some(t) => t.spec_dependencies(self.spec_current()) is None,
                },
            },
    {
        match get_item(&self.items, key) {
            None => None,
            Some(t) => t.dependencies(&self.current),
        }
    }

    /// Selects `key` and, recursively, every not-yet-selected dependency,
    /// exactly as the [`walk`] function describes: on success the walk's
    /// completion order joins the selection; a missing key is reported as
    /// `UnknownKey`, a dependency cycle as `DependencyCycle`, and either
    /// error leaves the selection unchanged. Selecting an already selected
    /// key is a no-op.
    pub fn select(&mut self, key: &String) -> (r: Result<(), SelectionError>)
        requires
            old(self).wf(),
        ensures
            final(self).wf(),
            final(self).spec_items() == old(self).spec_items(),
            final(self).spec_current() == old(self).spec_current(),
            match walk(
                old(self).spec_items(),
                old(self).spec_current(),
                old(self).spec_selected(),
                Seq::<Seq<char>>::empty(),
                Set::<Seq<char>>::empty(),
                key@,
            ) {
                Ok(done) => r is Ok && final(self).spec_selected() == old(self).spec_selected()
                    + done && final(self).spec_selected().contains(key@),
                Err(WalkError::Cycle) => r == Err::<(), SelectionError>(
                    SelectionError::DependencyCycle,
                ) && final(self).spec_selected() == old(self).spec_selected(),
                Err(WalkError::Unknown(d)) => (r matches Err(SelectionError::UnknownKey(u))
                    && u@ == d) && final(self).spec_selected() == old(self).spec_selected(),
            },
    {
        let mut acc: Vec<String> = Vec::new();
        let mut ip: Vec<String> = Vec::new();
        proof {
            assert(views_of(ip@) =~= Seq::<Seq<char>>::empty());
            assert(views_of(ip@).to_set() =~= Set::<Seq<char>>::empty());
            assert(views_of(acc@) =~= Seq::<Seq<char>>::empty());
        }
        let r = select_rec(
            &self.items,
            &self.current,
            &self.selected,
            &mut acc,
            &mut ip,
            Ghost(Set::<Seq<char>>::empty()),
            key,
        );
        match r {
            Ok(()) => {
                let ghost s1 = views_of(self.selected@);
                let ghost done = views_of(acc@);
                proof {
                    lemma_walk_ok(
                        self.items@,
                        self.current,
                        s1,
                        Seq::<Seq<char>>::empty(),
                        Set::<Seq<char>>::empty(),
                        key@,
                        done,
                    );
                }
                let ghost sel0 = self.selected@;
                let ghost acc0 = acc@;
                self.selected.append(&mut acc);
                proof {
                    let s2 = views_of(self.selected@);
                    assert(s2 =~= s1 + done);
                    let n1 = s1.len() as int;
                    // anything in either part is in the whole
                    assert forall|x: Seq<char>| s1.contains(x) implies s2.contains(x) by {
                        let i = choose|i: int| 0 <= i < n1 && s1[i] == x;
                        assert(s2[i] == x);
                    }
                    assert forall|x: Seq<char>| done.contains(x) implies s2.contains(x) by {
                        let i = choose|i: int| 0 <= i < done.len() && done[i] == x;
                        assert(s2[n1 + i] == x);
                    }
                    // no duplicates
                    assert forall|i: int, j: int| 0 <= i < j < s2.len() implies s2[i] != s2[j] by {
                        if j >= n1 {
                            assert(acc_entry_ok(self.items@, self.current, s1, done, j - n1));
                            if i < n1 {
                                assert(s1.contains(s1[i]));
                                assert(!s1.contains(done[j - n1]));
                            } else {
                                assert(done.take(j - n1)[i - n1] == done[i - n1]);
                                assert(done.take(j - n1).contains(done[i - n1]));
                            }
                        }
                    }
                    // every selected key is in the mapping
                    assert forall|i: int| 0 <= i < s2.len() implies lookup(
                        self.items@,
                        #[trigger] s2[i],
                    ) is Some by {
                        if i >= n1 {
                            assert(acc_entry_ok(self.items@, self.current, s1, done, i - n1));
                        }
                    }
                    // the selection stays closed
                    assert forall|i: int, d: int|
                        0 <= i < s2.len() && 0 <= d < deps_of(
                            self.items@,
                            s2[i],
                            self.current,
                        ).len() implies s2.contains(
                        #[trigger] deps_of(self.items@, s2[i], self.current)[d],
                    ) by {
                        let dep = deps_of(self.items@, s2[i], self.current)[d];
                        if i < n1 {
                            assert(s1.contains(dep));
                        } else {
                            assert(acc_entry_ok(self.items@, self.current, s1, done, i - n1));
                            assert(s1.contains(dep) || done.take(i - n1).contains(dep));
                            if done.take(i - n1).contains(dep) {
                                let x = choose|x: int|
                                    0 <= x < i - n1 && #[trigger] done.take(i - n1)[x] == dep;
                                assert(done[x] == dep);
                                assert(done.contains(dep));
                            }
                        }
                    }
                }
                Ok(())
            },
            Err(e) => Err(e),
        }
    }

    /// Removes `key` from the selection, unless other selected keys still
    /// declare it as a dependency: then the call fails with exactly those
    /// keys, in selection order, and changes nothing — the closure law is
    /// never broken. Deselecting an unselected key is a no-op.
    pub fn deselect(&mut self, key: &String) -> (r: Result<(), SelectionError>)
        requires
            old(self).wf(),
        ensures
            final(self).wf(),
            final(self).spec_items() == old(self).spec_items(),
            final(self).spec_current() == old(self).spec_current(),
            ({
                let dependents = old(self).spec_selected().filter(
                    |x: Seq<char>|
                        x != key@ && deps_of(
                            old(self).spec_items(),
                            x,
                            old(self).spec_current(),
                        ).contains(key@),
                );
                if dependents.len() == 0 {
                    r is Ok && final(self).spec_selected() == old(self).spec_selected().filter(
                        |x: Seq<char>| x != key@,
                    )
                } else {
                    (r matches Err(SelectionError::StillRequiredBy(l)) && views_of(l@)
                        == dependents) && final(self).spec_selected() == old(self).spec_selected()
                }
            }),
    {
        let ghost s1 = old(self).spec_selected();
        let mut dependents: Vec<String> = Vec::new();
        let mut i: usize = 0;
        proof {
            reveal(Seq::filter);
            assert(s1.take(0) =~= Seq::<Seq<char>>::empty());
        }
        while i < self.selected.len()
            invariant
                0 <= i <= self.selected@.len(),
                *self == *old(self),
                old(self).wf(),
                s1 == old(self).spec_selected(),
                s1 == views_of(self.selected@),
                views_of(dependents@) == s1.take(i as int).filter(
                    |x: Seq<char>|
                        x != key@ && deps_of(
                            old(self).spec_items(),
                            x,
                            old(self).spec_current(),
                        ).contains(key@),
                ),
            decreases self.selected@.len() - i,
        {
            proof {
                reveal(Seq::filter);
                assert(s1.take(i + 1).drop_last() =~= s1.take(i as int));
                assert(s1.take(i + 1).last() == s1[i as int]);
            }
            let x = &self.selected[i];
            let is_key = crate::text::str_eq(x.as_str(), key.as_str());
            let mut is_dep = false;
            if !is_key {
                match get_item(&self.items, x) {
                    Some(t) => {
                        match t.dependencies(&self.current) {
                            Some(ds) => {
                                is_dep = contains_str(ds, key);
                            },
                            None => {},
                        }
                    },
                    None => {
                        proof {
                            assert(lookup(old(self).spec_items(), s1[i as int]) is Some);
                            assert(false);
                        }
                    },
                }
            }
            if !is_key && is_dep {
                dependents.push(x.clone());
                proof {
                    assert(views_of(dependents@) =~= s1.take(i + 1).filter(
                        |x: Seq<char>|
                            x != key@ && deps_of(
                                old(self).spec_items(),
                                x,
                                old(self).spec_current(),
                            ).contains(key@),
                    ));
                }
            } else {
                proof {
                    assert(views_of(dependents@) =~= s1.take(i + 1).filter(
                        |x: Seq<char>|
                            x != key@ && deps_of(
                                old(self).spec_items(),
                                x,
                                old(self).spec_current(),
                            ).contains(key@),
                    ));
                }
            }
            i = i + 1;
        }
        proof {
            assert(s1.take(s1.len() as int) =~= s1);
        }
        if dependents.len() > 0 {
            return Err(SelectionError::StillRequiredBy(dependents));
        }
        let ghost keep = |x: Seq<char>| x != key@;
        let mut remaining: Vec<String> = Vec::new();
        let mut n: usize = 0;
        proof {
            reveal(Seq::filter);
        }
        while n < self.selected.len()
            invariant
                0 <= n <= self.selected@.len(),
                *self == *old(self),
                s1 == views_of(self.selected@),
                views_of(remaining@) == s1.take(n as int).filter(|x: Seq<char>| x != key@),
            decreases self.selected@.len() - n,
        {
            proof {
                reveal(Seq::filter);
                assert(s1.take(n + 1).drop_last() =~= s1.take(n as int));
                assert(s1.take(n + 1).last() == s1[n as int]);
            }
            let x = &self.selected[n];
            if !crate::text::str_eq(x.as_str(), key.as_str()) {
                remaining.push(x.clone());
            }
            proof {
                assert(views_of(remaining@) =~= s1.take(n + 1).filter(|x: Seq<char>| x != key@));
            }
            n = n + 1;
        }
        proof {
            assert(s1.take(s1.len() as int) =~= s1);
        }
        self.selected = remaining;
        proof {
            let s2 = views_of(self.selected@);
            let keep2 = |x: Seq<char>| x != key@;
            let dep_pred = |x: Seq<char>|
                x != key@ && deps_of(old(self).spec_items(), x, old(self).spec_current()).contains(
                    key@,
                );
            assert(s2 == s1.filter(keep2));
            lemma_filter_from(s1, keep2);
            lemma_filter_distinct(s1, keep2);
            // every remaining key is still known to the mapping
            assert forall|a: int| 0 <= a < s2.len() implies lookup(
                old(self).spec_items(),
                #[trigger] s2[a],
            ) is Some by {
                let b = choose|b: int| 0 <= b < s1.len() && s1[b] == s2[a];
            }
            // and the selection stays closed: nothing remaining depends on
            // the removed key, and every other dependency stays in
            assert forall|a: int, d: int|
                0 <= a < s2.len() && 0 <= d < deps_of(
                    old(self).spec_items(),
                    s2[a],
                    old(self).spec_current(),
                ).len() implies s2.contains(
                #[trigger] deps_of(old(self).spec_items(), s2[a], old(self).spec_current())[d],
            ) by {
                let x = s2[a];
                let dep = deps_of(old(self).spec_items(), x, old(self).spec_current())[d];
                let b = choose|b: int| 0 <= b < s1.len() && s1[b] == x;
                assert(s1.contains(dep));
                assert(dep != key@) by {
                    if dep == key@ {
                        assert(dep_pred(x));
                        s1.lemma_filter_contains(dep_pred, b);
                        assert(s1.filter(dep_pred).len() > 0);
                    }
                }
                let c = choose|c: int| 0 <= c < s1.len() && s1[c] == dep;
                s1.lemma_filter_contains(keep2, c);
            }
        }
        Ok(())
    }
}

/// Every element of a filtered list comes from the list and satisfies the
/// test.
proof fn lemma_filter_from<A>(s: Seq<A>, pred: spec_fn(A) -> bool)
    ensures
        forall|j: int|
            0 <= j < s.filter(pred).len() ==> s.contains(#[trigger] s.filter(pred)[j]) && pred(
                s.filter(pred)[j],
            ),
    decreases s.len(),
{
    reveal(Seq::filter);
    if s.len() > 0 {
        lemma_filter_from(s.drop_last(), pred);
        assert forall|j: int| 0 <= j < s.filter(pred).len() implies s.contains(
            #[trigger] s.filter(pred)[j],
        ) && pred(s.filter(pred)[j]) by {
            if j < s.drop_last().filter(pred).len() {
                assert(s.drop_last().contains(s.drop_last().filter(pred)[j]));
                let b = choose|b: int|
                    0 <= b < s.drop_last().len() && s.drop_last()[b] == s.drop_last().filter(
                        pred,
                    )[j];
                assert(s[b] == s.filter(pred)[j]);
            } else {
                assert(s.filter(pred)[j] == s.last());
            }
        }
    }
}

/// Filtering a duplicate-free list leaves it duplicate-free.
proof fn lemma_filter_distinct<A>(s: Seq<A>, pred: spec_fn(A) -> bool)
    requires
        forall|i: int, j: int| 0 <= i < j < s.len() ==> s[i] != s[j],
    ensures
        forall|i: int, j: int|
            0 <= i < j < s.filter(pred).len() ==> s.filter(pred)[i] != s.filter(pred)[j],
    decreases s.len(),
{
    reveal(Seq::filter);
    if s.len() > 0 {
        lemma_filter_distinct(s.drop_last(), pred);
        lemma_filter_from(s.drop_last(), pred);
        let f = s.filter(pred);
        let fd = s.drop_last().filter(pred);
        assert forall|i: int, j: int| 0 <= i < j < f.len() implies f[i] != f[j] by {
            if pred(s.last()) {
                assert(f == fd.push(s.last()));
                if j < f.len() - 1 {
                    assert(f[i] == fd[i]);
                    assert(f[j] == fd[j]);
                } else {
                    assert(f[j] == s.last());
                    assert(f[i] == fd[i]);
                    assert(s.drop_last().contains(fd[i]));
                    let b = choose|b: int|
                        0 <= b < s.drop_last().len() && #[trigger] s.drop_last()[b] == fd[i];
                    assert(s[b] == fd[i]);
                    if fd[i] == s.last() {
                        assert(s[b] == s[s.len() - 1]);
                    }
                }
            } else {
                assert(f == fd);
                assert(f[i] == fd[i]);
                assert(f[j] == fd[j]);
            }
        }
    }
}

/// Law: selecting an already selected key is a no-op. The walk completes
/// nothing new, so `select` answers `Ok` and appends nothing.
pub proof fn lemma_select_selected_no_op<T: Selectable>(
    items: Seq<(String, T)>,
    p: Platform,
    sel: Seq<Seq<char>>,
    k: Seq<char>,
)
    requires
        sel.contains(k),
    ensures
        walk(items, p, sel, Seq::<Seq<char>>::empty(), Set::<Seq<char>>::empty(), k) == Ok::<
            Seq<Seq<char>>,
            WalkError,
        >(Seq::<Seq<char>>::empty()),
{
}

/// Law: a dependency cycle of two keys is detected, not walked forever.
/// Where `a` and `b` name each other as their only dependency and neither
/// is selected, the walk from `a` meets `a` again and answers a cycle.
pub proof fn lemma_two_cycle_detected<T: Selectable>(
    items: Seq<(String, T)>,
    p: Platform,
    a: Seq<char>,
    b: Seq<char>,
)
    requires
        lookup(items, a) is Some,
        lookup(items, b) is Some,
        deps_of(items, a, p) == seq![b],
        deps_of(items, b, p) == seq![a],
        a != b,
    ensures
        walk(items, p, Seq::<Seq<char>>::empty(), Seq::<Seq<char>>::empty(), Set::<Seq<char>>::empty(), a)
            == Err::<Seq<Seq<char>>, WalkError>(WalkError::Cycle),
{
    let e: Seq<Seq<char>> = Seq::empty();
    let ip0 = Set::<Seq<char>>::empty();
    let ip1 = ip0.insert(a);
    let ip2 = ip1.insert(b);
    lemma_lookup_key_set(items, a);
    lemma_lookup_key_set(items, b);
    assert(walk(items, p, e, e, ip2, a) == Err::<Seq<Seq<char>>, WalkError>(WalkError::Cycle));
    assert(walk_list(items, p, e, e, ip2, seq![a], 0) == Err::<Seq<Seq<char>>, WalkError>(
        WalkError::Cycle,
    ));
    assert(walk(items, p, e, e, ip1, b) == Err::<Seq<Seq<char>>, WalkError>(WalkError::Cycle));
    assert(walk_list(items, p, e, e, ip1, seq![b], 0) == Err::<Seq<Seq<char>>, WalkError>(
        WalkError::Cycle,
    ));
    assert(walk(items, p, e, e, ip0, a) == Err::<Seq<Seq<char>>, WalkError>(WalkError::Cycle));
}

} // verus!
