//! Which installed packages a repository offers in a newer release.

use vstd::prelude::*;

use crate::package::Package;
use crate::text::{text_before, text_lt, text_lt_irreflexive, text_lt_total, text_lt_transitive};

verus! {

/// Whether the package at `at` is the first of `available` with the name `name`.
pub open spec fn is_first_named(available: Seq<&Package>, name: Seq<char>, at: int) -> bool {
    &&& 0 <= at < available.len()
    &&& available[at].name@ == name
    &&& forall|before: int| 0 <= before < at ==> (#[trigger] available[before]).name@ != name
}

/// Whether `update` is what `available` has to offer for the installed package `package`: the
/// first package of its name, if that is of a later release.
pub open spec fn is_update_for(
    available: Seq<&Package>,
    package: Package,
    update: &Package,
) -> bool {
    &&& update.source_release > package.source_release
    &&& exists|at: int| is_first_named(available, package.name@, at) && available[at] == update
}

/// Whether `update` is an update for one of the packages `installed`.
pub open spec fn is_update(
    installed: Seq<&Package>,
    available: Seq<&Package>,
    update: &Package,
) -> bool {
    exists|i: int|
        0 <= i < installed.len() && is_update_for(available, *(#[trigger] installed[i]), update)
}

/// Whether the names of `packages` rise from each to the next; no name is there twice then.
pub open spec fn names_rise(packages: Seq<&Package>) -> bool {
    forall|i: int, j: int|
        0 <= i < j < packages.len() ==> text_lt(
            (#[trigger] packages[i]).name@,
            (#[trigger] packages[j]).name@,
        )
}

/// The update that `available` has to offer for `package`.
fn find_update<'a>(available: &Vec<&'a Package>, package: &Package) -> (update: Option<&'a Package>)
    ensures
        match update {
            Some(update) => is_update_for(available@, *package, update),
            None => forall|update: &Package| !is_update_for(available@, *package, update),
        },
{
    let mut i: usize = 0;
    while i < available.len()
        invariant
            i <= available@.len(),
            forall|before: int|
                0 <= before < i ==> (#[trigger] available@[before]).name@ != package.name@,
        decreases available@.len() - i,
    {
        let candidate: &'a Package = available[i];
        if candidate.name == package.name {
            proof {
                assert(is_first_named(available@, package.name@, i as int));
                assert forall|update: &Package|
                    is_update_for(available@, *package, update) implies update == candidate by {
                    let at = choose|at: int|
                        is_first_named(available@, package.name@, at) && available@[at] == update;
                    if at < i {
                        assert(available@[at].name@ != package.name@);
                    } else if at > i {
                        assert(available@[i as int].name@ != package.name@);
                    }
                }
            }
            return if candidate.source_release > package.source_release {
                Some(candidate)
            } else {
                None
            };
        }
        i += 1;
    }
    None
}

/// Two updates of the same name are the same package.
pub proof fn update_unique(
    installed: Seq<&Package>,
    available: Seq<&Package>,
    a: &Package,
    b: &Package,
)
    requires
        is_update(installed, available, a),
        is_update(installed, available, b),
        a.name@ == b.name@,
    ensures
        a == b,
{
    let i = choose|i: int|
        0 <= i < installed.len() && is_update_for(available, *(#[trigger] installed[i]), a);
    let j = choose|j: int|
        0 <= j < installed.len() && is_update_for(available, *(#[trigger] installed[j]), b);
    let at = choose|at: int|
        is_first_named(available, installed[i].name@, at) && available[at] == a;
    let other = choose|at: int|
        is_first_named(available, installed[j].name@, at) && available[at] == b;
    if at < other {
        assert(available[at].name@ != installed[j].name@);
    } else if other < at {
        assert(available[other].name@ != installed[i].name@);
    }
}

/// Puts `package` where its name belongs, unless the name is there already.
fn insert_by_name<'a>(sorted: &mut Vec<&'a Package>, package: &'a Package)
    requires
        names_rise(old(sorted)@),
    ensures
        names_rise(final(sorted)@),
        if exists|k: int|
            0 <= k < old(sorted)@.len() && (#[trigger] old(sorted)@[k]).name@ == package.name@ {
            final(sorted)@ == old(sorted)@
        } else {
            exists|at: int|
                0 <= at <= old(sorted)@.len() && final(sorted)@ == #[trigger] old(sorted)@.insert(
                    at,
                    package,
                )
        },
{
    let mut at: usize = 0;
    while at < sorted.len() && text_before(sorted[at].name.as_str(), package.name.as_str())
        invariant
            at <= sorted@.len(),
            sorted@ == old(sorted)@,
            forall|k: int|
                0 <= k < at ==> text_lt((#[trigger] sorted@[k]).name@, package.name@),
        decreases sorted@.len() - at,
    {
        at += 1;
    }
    let ghost before = sorted@;
    if at < sorted.len() && sorted[at].name == package.name {
        assert(before[at as int].name@ == package.name@);
        return;
    }
    proof {
        if at < before.len() {
            text_lt_total(before[at as int].name@, package.name@);
        }
        assert forall|k: int| at <= k < before.len() implies text_lt(
            package.name@,
            (#[trigger] before[k]).name@,
        ) by {
            if k > at {
                text_lt_transitive(package.name@, before[at as int].name@, before[k].name@);
            }
        }
        assert forall|k: int| 0 <= k < before.len() implies (#[trigger] before[k]).name@
            != package.name@ by {
            text_lt_irreflexive(package.name@);
        }
    }
    sorted.insert(at, package);
    proof {
        let after = sorted@;
        assert(after =~= before.insert(at as int, package));
        assert forall|i: int, j: int| 0 <= i < j < after.len() implies text_lt(
            (#[trigger] after[i]).name@,
            (#[trigger] after[j]).name@,
        ) by {
            let old_i = if i < at {
                i
            } else {
                i - 1
            };
            let old_j = if j < at {
                j
            } else {
                j - 1
            };
            if i == at {
                assert(after[j] == before[old_j]);
            } else if j == at {
                assert(after[i] == before[old_i]);
            } else {
                assert(after[i] == before[old_i] && after[j] == before[old_j]);
            }
        }
    }
}

/// The updates that `available` has to offer for the packages `installed`, by name.
pub fn backend_get_updates<'a>(
    installed: &Vec<&'a Package>,
    available: &Vec<&'a Package>,
) -> (updates: Vec<&'a Package>)
    ensures
        names_rise(updates@),
        forall|update: &Package|
            updates@.contains(update) <==> #[trigger] is_update(installed@, available@, update),
        forall|i: int, j: int|
            0 <= i < j < updates@.len() ==> text_lt(
                (#[trigger] updates@[i]).name@,
                (#[trigger] updates@[j]).name@,
            ),
        forall|i: int, at: int|
            #![trigger installed@[i], available@[at]]
            {
                &&& 0 <= i < installed@.len()
                &&& 0 <= at < available@.len()
                &&& available@[at].name@ == installed@[i].name@
                &&& forall|before: int|
                    0 <= before < at ==> (#[trigger] available@[before]).name@
                        != installed@[i].name@
                &&& available@[at].source_release > installed@[i].source_release
            } ==> updates@.contains(available@[at]),
{
    let mut updates: Vec<&'a Package> = Vec::new();
    let mut i: usize = 0;
    while i < installed.len()
        invariant
            i <= installed@.len(),
            names_rise(updates@),
            forall|update: &Package|
                updates@.contains(update) <==> #[trigger] is_update(
                    installed@.take(i as int),
                    available@,
                    update,
                ),
        decreases installed@.len() - i,
    {
        let ghost before = updates@;
        let ghost seen = installed@.take(i as int);
        let ghost next = installed@.take(i + 1);
        let found: Option<&'a Package> = find_update(available, installed[i]);
        if let Some(update) = found {
            insert_by_name(&mut updates, update);
        }
        proof {
            assert forall|update: &Package|
                updates@.contains(update) <==> #[trigger] is_update(
                    next,
                    available@,
                    update,
                ) by {
                updates_step(seen, *installed@[i as int], available@, update);
                assert(next =~= seen.push(installed@[i as int]));
                if let Some(new) = found {
                    updates_step(seen, *installed@[i as int], available@, new);
                    first_update_unique(available@, *installed@[i as int], update, new);
                    if exists|k: int|
                        0 <= k < before.len() && (#[trigger] before[k]).name@ == new.name@ {
                        let k = choose|k: int|
                            0 <= k < before.len() && (#[trigger] before[k]).name@ == new.name@;
                        assert(before.contains(before[k]));
                        assert(is_update(seen, available@, before[k]));
                        updates_step(seen, *installed@[i as int], available@, before[k]);
                        update_unique(next, available@, before[k], new);
                    } else {
                        let at = choose|at: int|
                            0 <= at <= before.len() && updates@ == #[trigger] before.insert(
                                at,
                                new,
                            );
                        insert_contains(before, at, new, update);
                    }
                }
            }
        }
        i += 1;
    }
    proof {
        assert(installed@.take(installed@.len() as int) =~= installed@);
        assert forall|i: int, at: int|
            #![trigger installed@[i], available@[at]]
            {
                &&& 0 <= i < installed@.len()
                &&& 0 <= at < available@.len()
                &&& available@[at].name@ == installed@[i].name@
                &&& forall|before: int|
                    0 <= before < at ==> (#[trigger] available@[before]).name@
                        != installed@[i].name@
                &&& available@[at].source_release > installed@[i].source_release
            } implies updates@.contains(available@[at]) by {
            every_newer_offer_counts(installed@, available@, i, at);
        }
    }
    updates
}

proof fn updates_step(
    installed: Seq<&Package>,
    package: Package,
    available: Seq<&Package>,
    update: &Package,
)
    ensures
        is_update(installed.push(&package), available, update) <==> is_update(
            installed,
            available,
            update,
        ) || is_update_for(available, package, update),
{
    let next = installed.push(&package);
    if is_update(installed, available, update) {
        let i = choose|i: int|
            0 <= i < installed.len() && is_update_for(available, *(#[trigger] installed[i]), update);
        assert(next[i] == installed[i]);
    }
    if is_update_for(available, package, update) {
        assert(*next[installed.len() as int] == package);
    }
    if is_update(next, available, update) {
        let i = choose|i: int|
            0 <= i < next.len() && is_update_for(available, *(#[trigger] next[i]), update);
        if i < installed.len() {
            assert(next[i] == installed[i]);
        }
    }
}

proof fn first_update_unique(
    available: Seq<&Package>,
    package: Package,
    a: &Package,
    b: &Package,
)
    ensures
        is_update_for(available, package, a) && is_update_for(available, package, b) ==> a == b,
{
    if is_update_for(available, package, a) && is_update_for(available, package, b) {
        let at = choose|at: int|
            is_first_named(available, package.name@, at) && available[at] == a;
        let other = choose|at: int|
            is_first_named(available, package.name@, at) && available[at] == b;
        if at < other {
            assert(available[at].name@ != package.name@);
        } else if other < at {
            assert(available[other].name@ != package.name@);
        }
    }
}

proof fn insert_contains(packages: Seq<&Package>, at: int, new: &Package, package: &Package)
    requires
        0 <= at <= packages.len(),
    ensures
        packages.insert(at, new).contains(package) <==> packages.contains(package) || package
            == new,
{
    let after = packages.insert(at, new);
    assert(after[at] == new);
    if packages.contains(package) {
        let k = choose|k: int| 0 <= k < packages.len() && packages[k] == package;
        if k < at {
            assert(after[k] == package);
        } else {
            assert(after[k + 1] == package);
        }
    }
    if after.contains(package) {
        let k = choose|k: int| 0 <= k < after.len() && after[k] == package;
        if k < at {
            assert(packages[k] == package);
        } else if k > at {
            assert(packages[k - 1] == package);
        }
    }
}

/// An update is one of the available packages, and an installed package of its name is of an
/// earlier release.
pub proof fn updates_are_upgrades(
    installed: Seq<&Package>,
    available: Seq<&Package>,
    update: &Package,
)
    requires
        is_update(installed, available, update),
    ensures
        available.contains(update),
        exists|i: int|
            0 <= i < installed.len() && (#[trigger] installed[i]).name@ == update.name@
                && installed[i].source_release < update.source_release,
{
    let i = choose|i: int|
        0 <= i < installed.len() && is_update_for(available, *(#[trigger] installed[i]), update);
    let at = choose|at: int|
        is_first_named(available, installed[i].name@, at) && available[at] == update;
    assert(available[at] == update);
    assert(installed[i].name@ == update.name@);
}

/// Only one list has rising names and holds exactly the updates.
pub proof fn updates_unique_list(
    installed: Seq<&Package>,
    available: Seq<&Package>,
    a: Seq<&Package>,
    b: Seq<&Package>,
)
    requires
        names_rise(a),
        names_rise(b),
        forall|update: &Package|
            a.contains(update) <==> #[trigger] is_update(installed, available, update),
        forall|update: &Package|
            b.contains(update) <==> #[trigger] is_update(installed, available, update),
    ensures
        a == b,
{
    assert forall|update: &Package| #[trigger] a.contains(update) <==> b.contains(update) by {
        let here = is_update(installed, available, update);
    }
    rising_lists_agree(a, b);
}

proof fn rising_lists_agree(a: Seq<&Package>, b: Seq<&Package>)
    requires
        names_rise(a),
        names_rise(b),
        forall|package: &Package| #[trigger] a.contains(package) <==> b.contains(package),
    ensures
        a == b,
    decreases a.len(),
{
    if a.len() == 0 {
        if b.len() > 0 {
            assert(b.contains(b[0]));
            assert(a.contains(b[0]));
        }
        assert(a =~= b);
    } else {
        assert(a.contains(a.last()));
        assert(b.contains(a.last()));
        assert(b.contains(b.last()));
        assert(a.contains(b.last()));
        let i = choose|i: int| 0 <= i < b.len() && b[i] == a.last();
        let j = choose|j: int| 0 <= j < a.len() && a[j] == b.last();
        if i < b.len() - 1 {
            assert(text_lt(b[i].name@, b[b.len() - 1].name@));
            if j < a.len() - 1 {
                assert(text_lt(a[j].name@, a[a.len() - 1].name@));
                text_lt_transitive(a.last().name@, b.last().name@, a.last().name@);
            }
            text_lt_irreflexive(a.last().name@);
        }
        assert(a.last() == b.last());
        let front_a = a.drop_last();
        let front_b = b.drop_last();
        assert forall|package: &Package| #[trigger]
            front_a.contains(package) <==> front_b.contains(package) by {
            front_contains(a, package);
            front_contains(b, package);
            assert(a.contains(package) <==> b.contains(package));
        }
        rising_lists_agree(front_a, front_b);
        assert(a =~= front_a.push(a.last()));
        assert(b =~= front_b.push(b.last()));
    }
}

proof fn front_contains(packages: Seq<&Package>, package: &Package)
    requires
        names_rise(packages),
        packages.len() > 0,
    ensures
        packages.drop_last().contains(package) <==> packages.contains(package) && package
            != packages.last(),
{
    let front = packages.drop_last();
    if front.contains(package) {
        let k = choose|k: int| 0 <= k < front.len() && front[k] == package;
        assert(packages[k] == package);
        assert(text_lt(packages[k].name@, packages[packages.len() - 1].name@));
        text_lt_irreflexive(package.name@);
    }
    if packages.contains(package) && package != packages.last() {
        let k = choose|k: int| 0 <= k < packages.len() && packages[k] == package;
        assert(front[k] == package);
    }
}

/// No newer offer is missed: the first available package with the name of an installed one counts
/// as an update if its release is later, by however much.
pub proof fn every_newer_offer_counts(
    installed: Seq<&Package>,
    available: Seq<&Package>,
    i: int,
    at: int,
)
    requires
        0 <= i < installed.len(),
        0 <= at < available.len(),
        available[at].name@ == installed[i].name@,
        forall|before: int|
            0 <= before < at ==> (#[trigger] available[before]).name@ != installed[i].name@,
        available[at].source_release > installed[i].source_release,
    ensures
        is_update(installed, available, available[at]),
{
    assert(is_first_named(available, installed[i].name@, at));
    assert(is_update_for(available, *installed[i], available[at]));
}

/// Whatever counts as an update is the first available package with the name of an installed one,
/// and of a later release.
pub proof fn every_update_is_a_newer_offer(
    installed: Seq<&Package>,
    available: Seq<&Package>,
    update: &Package,
)
    requires
        is_update(installed, available, update),
    ensures
        exists|i: int, at: int|
            {
                &&& 0 <= i < installed.len()
                &&& 0 <= at < available.len()
                &&& #[trigger] available[at] == update
                &&& update.name@ == (#[trigger] installed[i]).name@
                &&& update.source_release > installed[i].source_release
                &&& forall|before: int|
                    0 <= before < at ==> (#[trigger] available[before]).name@ != update.name@
            },
{
    let i = choose|i: int|
        0 <= i < installed.len() && is_update_for(available, *(#[trigger] installed[i]), update);
    let at = choose|at: int|
        is_first_named(available, installed[i].name@, at) && available[at] == update;
    assert(available[at] == update);
    assert(update.name@ == installed[i].name@);
}

} // verus!
