//! Listing and searching packages.

use vstd::hash_set::StringHashSet;
use vstd::prelude::*;
use vstd::set_lib::lemma_set_disjoint_lens;

use crate::bitfield::PkBitfield;
use crate::cstrings::texts_of;
use crate::local::{layout_target, target_of, LayoutFile};
use crate::package::{is_newest, keeps_duplicates, Package};
use crate::text::{contains, is_part_of, same_text, CText};
use crate::text::{part_splits_whole, part_stands_inside};

verus! {

/// The packages at the positions that `keep` accepts, in their order.
pub open spec fn select<'a>(packages: Seq<&'a Package>, keep: spec_fn(int) -> bool) -> Seq<
    &'a Package,
>
    decreases packages.len(),
{
    if packages.len() == 0 {
        Seq::empty()
    } else if keep(packages.len() - 1) {
        select(packages.drop_last(), keep).push(packages.last())
    } else {
        select(packages.drop_last(), keep)
    }
}

/// Whether a package before position `at` has the same name as the one there.
pub open spec fn named_before(packages: Seq<&Package>, at: int) -> bool {
    exists|before: int|
        0 <= before < at && (#[trigger] packages[before]).name@ == packages[at].name@
}

/// The first package of each name.
pub open spec fn first_of_each_name<'a>(packages: Seq<&'a Package>) -> Seq<&'a Package> {
    select(packages, |at: int| !named_before(packages, at))
}

/// Whether the package at position `at` is offered but not installed, and the same package stands
/// before it as an installed one.
pub open spec fn shadowed(packages: Seq<&Package>, at: int) -> bool {
    &&& packages[at].flags.available
    &&& !packages[at].flags.installed
    &&& exists|before: int|
        0 <= before < at && (#[trigger] packages[before]).flags.installed && packages[before].id@
            == packages[at].id@
}

/// The packages without those that an installed package shadows.
pub open spec fn without_shadowed<'a>(packages: Seq<&'a Package>) -> Seq<&'a Package> {
    select(packages, |at: int| !shadowed(packages, at))
}

/// Which part of a package a search looks at.
#[derive(Clone, Copy, PartialEq, Eq, Structural, Debug)]
pub enum SearchKind {
    /// The whole name.
    ExactName,
    /// A part of the name.
    Name,
    /// A part of the summary or of the description.
    Details,
}

/// Whether a search for `term` finds `package`.
pub open spec fn finds(kind: SearchKind, package: Package, term: Seq<char>) -> bool {
    match kind {
        SearchKind::ExactName => package.name@ == term,
        SearchKind::Name => is_part_of(term, package.name@),
        SearchKind::Details => is_part_of(term, package.summary@) || is_part_of(
            term,
            package.description@,
        ),
    }
}

/// What a search for `terms` finds among the registry's answers to each of them: the finds for
/// the first term, then those for the second, and so on.
pub open spec fn all_finds<'a>(
    kind: SearchKind,
    terms: Seq<Seq<char>>,
    answers: Seq<Vec<&'a Package>>,
) -> Seq<&'a Package>
    decreases terms.len(),
{
    if terms.len() == 0 {
        Seq::empty()
    } else {
        let answer = answers.last()@;
        all_finds(kind, terms.drop_last(), answers.drop_last()) + select(
            answer,
            |at: int| finds(kind, *answer[at], terms.last()),
        )
    }
}

/// Whether a search for `term` finds `package`.
fn is_find(kind: SearchKind, package: &Package, term: &str) -> (found: bool)
    ensures
        found == finds(kind, *package, term@),
{
    match kind {
        SearchKind::ExactName => same_text(package.name.as_str(), term),
        SearchKind::Name => contains(package.name.as_str(), term),
        SearchKind::Details => contains(package.summary.as_str(), term) || contains(
            package.description.as_str(),
            term,
        ),
    }
}

/// What a search for `terms` finds among the registry's `answers`.
fn collect_finds<'a>(
    kind: SearchKind,
    terms: &Vec<CText>,
    answers: &Vec<Vec<&'a Package>>,
) -> (found: Vec<&'a Package>)
    requires
        terms@.len() == answers@.len(),
    ensures
        found@ == all_finds(kind, texts_of(terms@), answers@),
{
    let ghost texts = texts_of(terms@);
    let mut found: Vec<&'a Package> = Vec::new();
    let mut i: usize = 0;
    while i < terms.len()
        invariant
            i <= terms@.len(),
            terms@.len() == answers@.len(),
            texts == texts_of(terms@),
            found@ == all_finds(kind, texts.take(i as int), answers@.take(i as int)),
        decreases terms@.len() - i,
    {
        let term: &CText = &terms[i];
        let answer: &Vec<&'a Package> = &answers[i];
        let ghost before = found@;
        let ghost keep = |at: int| finds(kind, *answer@[at], term@);
        let mut j: usize = 0;
        assert(answer@.take(0) =~= Seq::<&'a Package>::empty());
        assert(before + Seq::<&'a Package>::empty() =~= before);
        while j < answer.len()
            invariant
                j <= answer@.len(),
                keep == (|at: int| finds(kind, *answer@[at], term@)),
                found@ == before + select(answer@.take(j as int), keep),
            decreases answer@.len() - j,
        {
            let ghost so_far = select(answer@.take(j as int), keep);
            assert(answer@.take(j + 1).drop_last() =~= answer@.take(j as int));
            if is_find(kind, answer[j], term.as_str()) {
                found.push(answer[j]);
                assert(before + so_far.push(answer@[j as int]) =~= (before + so_far).push(
                    answer@[j as int],
                ));
            }
            j += 1;
        }
        proof {
            assert(answer@.take(answer@.len() as int) =~= answer@);
            assert(texts.take(i + 1).drop_last() =~= texts.take(i as int));
            assert(answers@.take(i + 1).drop_last() =~= answers@.take(i as int));
            assert(texts.take(i + 1).last() == term@);
        }
        i += 1;
    }
    proof {
        assert(texts.take(texts.len() as int) =~= texts);
        assert(answers@.take(answers@.len() as int) =~= answers@);
    }
    found
}

/// The first package of each name.
fn drop_repeated_names<'a>(packages: &Vec<&'a Package>) -> (kept: Vec<&'a Package>)
    ensures
        kept@ == first_of_each_name(packages@),
{
    let ghost keep = |at: int| !named_before(packages@, at);
    let mut kept: Vec<&'a Package> = Vec::new();
    let mut seen: StringHashSet = StringHashSet::new();
    let mut i: usize = 0;
    while i < packages.len()
        invariant
            i <= packages@.len(),
            keep == (|at: int| !named_before(packages@, at)),
            kept@ == select(packages@.take(i as int), keep),
            forall|name: Seq<char>| #[trigger]
                seen@.contains(name) <==> exists|before: int|
                    0 <= before < i && (#[trigger] packages@[before]).name@ == name,
        decreases packages@.len() - i,
    {
        let package: &'a Package = packages[i];
        let ghost seen_before = seen@;
        assert(packages@.take(i + 1).drop_last() =~= packages@.take(i as int));
        let new: bool = seen.insert(package.name.clone());
        proof {
            assert(new == !named_before(packages@, i as int));
            assert forall|name: Seq<char>| #[trigger]
                seen@.contains(name) <==> exists|before: int|
                    0 <= before < i + 1 && (#[trigger] packages@[before]).name@ == name by {
                if name == package.name@ {
                    assert(packages@[i as int].name@ == name);
                } else if seen_before.contains(name) {
                    let before = choose|before: int|
                        0 <= before < i && (#[trigger] packages@[before]).name@ == name;
                    assert(packages@[before].name@ == name);
                }
            }
        }
        if new {
            kept.push(package);
        }
        i += 1;
    }
    assert(packages@.take(packages@.len() as int) =~= packages@);
    kept
}

/// The packages without those that an installed package shadows.
fn drop_shadowed<'a>(packages: &Vec<&'a Package>) -> (kept: Vec<&'a Package>)
    ensures
        kept@ == without_shadowed(packages@),
{
    let ghost keep = |at: int| !shadowed(packages@, at);
    let mut kept: Vec<&'a Package> = Vec::new();
    let mut seen_installed: StringHashSet = StringHashSet::new();
    let mut i: usize = 0;
    while i < packages.len()
        invariant
            i <= packages@.len(),
            keep == (|at: int| !shadowed(packages@, at)),
            kept@ == select(packages@.take(i as int), keep),
            forall|id: Seq<char>| #[trigger]
                seen_installed@.contains(id) <==> exists|before: int|
                    0 <= before < i && (#[trigger] packages@[before]).flags.installed
                        && packages@[before].id@ == id,
        decreases packages@.len() - i,
    {
        let package: &'a Package = packages[i];
        let ghost seen_before = seen_installed@;
        assert(packages@.take(i + 1).drop_last() =~= packages@.take(i as int));
        let keeps: bool = if package.flags.installed {
            let _ = seen_installed.insert(package.id.clone());
            true
        } else if package.flags.available {
            !seen_installed.contains(package.id.as_str())
        } else {
            true
        };
        proof {
            assert(keeps == !shadowed(packages@, i as int));
            assert forall|id: Seq<char>| #[trigger]
                seen_installed@.contains(id) <==> exists|before: int|
                    0 <= before < i + 1 && (#[trigger] packages@[before]).flags.installed
                        && packages@[before].id@ == id by {
                if seen_before.contains(id) {
                    let before = choose|before: int|
                        0 <= before < i && (#[trigger] packages@[before]).flags.installed
                            && packages@[before].id@ == id;
                    assert(packages@[before].flags.installed);
                } else if package.flags.installed && id == package.id@ {
                    assert(packages@[i as int].flags.installed);
                }
            }
        }
        if keeps {
            kept.push(package);
        }
        i += 1;
    }
    assert(packages@.take(packages@.len() as int) =~= packages@);
    kept
}

/// What is listed of `listed`, the registry's packages of the wanted kind: the first of each
/// name, or all of them under a filter for the newest versions.
pub fn backend_get_packages<'a>(filters: PkBitfield, listed: Vec<&'a Package>) -> (packages: Vec<
    &'a Package,
>)
    ensures
        packages@ == if keeps_duplicates(filters) {
            listed@
        } else {
            first_of_each_name(listed@)
        },
{
    if is_newest(filters) {
        listed
    } else {
        drop_repeated_names(&listed)
    }
}

/// What is listed for the exact names `terms`, given the registry's answers to each of them: an
/// installed package hides the same package as it is offered, except under a filter for the
/// newest versions.
pub fn backend_resolve<'a>(
    filters: PkBitfield,
    terms: &Vec<CText>,
    answers: &Vec<Vec<&'a Package>>,
) -> (packages: Vec<&'a Package>)
    requires
        terms@.len() == answers@.len(),
    ensures
        packages@ == ({
            let found = all_finds(SearchKind::ExactName, texts_of(terms@), answers@);
            if keeps_duplicates(filters) {
                found
            } else {
                without_shadowed(found)
            }
        }),
        forall|k: int, j: int|
            #![trigger answers@[k]@[j]]
            0 <= k < terms@.len() && 0 <= j < answers@[k]@.len() && answers@[k]@[j].name@
                == terms@[k]@ && answers@[k]@[j].flags.installed ==> packages@.contains(
                answers@[k]@[j],
            ),
        forall|i: int|
            0 <= i < packages@.len() ==> exists|k: int|
                0 <= k < terms@.len() && answers@[k]@.contains(#[trigger] packages@[i])
                    && packages@[i].name@ == (#[trigger] terms@[k])@,
{
    let found: Vec<&'a Package> = collect_finds(SearchKind::ExactName, terms, answers);
    proof {
        let texts = texts_of(terms@);
        assert forall|k: int, j: int|
            #![trigger answers@[k]@[j]]
            0 <= k < terms@.len() && 0 <= j < answers@[k]@.len() && answers@[k]@[j].name@
                == terms@[k]@ && answers@[k]@[j].flags.installed implies found@.contains(
            answers@[k]@[j],
        ) && without_shadowed(found@).contains(answers@[k]@[j]) by {
            assert(texts[k] == terms@[k]@);
            resolving_is_complete(texts, answers@, k, j);
        }
        assert forall|i: int| 0 <= i < found@.len() implies exists|k: int|
            0 <= k < terms@.len() && answers@[k]@.contains(#[trigger] found@[i]) && found@[i].name@
                == (#[trigger] terms@[k])@ by {
            finds_answer_a_term(SearchKind::ExactName, texts, answers@, i);
            let k = choose|k: int|
                0 <= k < texts.len() && finds(
                    SearchKind::ExactName,
                    *found@[i],
                    #[trigger] texts[k],
                ) && answers@[k]@.contains(found@[i]);
            assert(texts[k] == terms@[k]@);
        }
        let rest = without_shadowed(found@);
        installed_hide_offered(found@);
        assert forall|i: int| 0 <= i < rest.len() implies exists|k: int|
            0 <= k < terms@.len() && answers@[k]@.contains(#[trigger] rest[i]) && rest[i].name@ == (
            #[trigger] terms@[k])@ by {
            assert(found@.contains(rest[i]));
            let at = choose|at: int| 0 <= at < found@.len() && found@[at] == rest[i];
            assert(found@[at] == rest[i]);
        }
    }
    if is_newest(filters) {
        found
    } else {
        drop_shadowed(&found)
    }
}

/// What is listed for a search of names, or of summaries and descriptions, for `terms`, given the
/// registry's answers to each of them: the first find of each name, or all finds under a filter
/// for the newest versions.
fn search<'a>(
    kind: SearchKind,
    filters: PkBitfield,
    terms: &Vec<CText>,
    answers: &Vec<Vec<&'a Package>>,
) -> (packages: Vec<&'a Package>)
    requires
        terms@.len() == answers@.len(),
    ensures
        packages@ == ({
            let found = all_finds(kind, texts_of(terms@), answers@);
            if keeps_duplicates(filters) {
                found
            } else {
                first_of_each_name(found)
            }
        }),
{
    let found: Vec<&'a Package> = collect_finds(kind, terms, answers);
    if is_newest(filters) {
        found
    } else {
        drop_repeated_names(&found)
    }
}

/// What is listed for a search of summaries and descriptions for `terms`, given the registry's
/// answers to each of them.
pub fn backend_search_details<'a>(
    filters: PkBitfield,
    terms: &Vec<CText>,
    answers: &Vec<Vec<&'a Package>>,
) -> (packages: Vec<&'a Package>)
    requires
        terms@.len() == answers@.len(),
    ensures
        packages@ == ({
            let found = all_finds(SearchKind::Details, texts_of(terms@), answers@);
            if keeps_duplicates(filters) {
                found
            } else {
                first_of_each_name(found)
            }
        }),
        forall|k: int, j: int, before: Seq<char>, after: Seq<char>|
            #![trigger answers@[k]@[j], before + terms@[k]@ + after]
            0 <= k < terms@.len() && 0 <= j < answers@[k]@.len() && (answers@[k]@[j].summary@ == before
                + terms@[k]@ + after || answers@[k]@[j].description@ == before + terms@[k]@ + after) ==> exists|i: int|
                0 <= i < packages@.len() && (#[trigger] packages@[i]).name@
                    == answers@[k]@[j].name@,
{
    let packages: Vec<&'a Package> = search(SearchKind::Details, filters, terms, answers);
    proof {
        let texts = texts_of(terms@);
        let found = all_finds(SearchKind::Details, texts, answers@);
        assert forall|k: int, j: int, before: Seq<char>, after: Seq<char>|
            #![trigger answers@[k]@[j], before + terms@[k]@ + after]
            0 <= k < terms@.len() && 0 <= j < answers@[k]@.len() && (answers@[k]@[j].summary@ == before
                + terms@[k]@ + after || answers@[k]@[j].description@ == before + terms@[k]@ + after) implies exists|i: int|
            0 <= i < packages@.len() && (#[trigger] packages@[i]).name@
                == answers@[k]@[j].name@ by {
            let package = answers@[k]@[j];
            assert(texts[k] == terms@[k]@);
            detail_search_is_complete(texts, answers@, k, j, before, after);
            if keeps_duplicates(filters) {
                let i = choose|i: int| 0 <= i < found.len() && found[i] == package;
                assert(packages@[i].name@ == package.name@);
            }
        }
    }
    packages
}

/// What is listed for a search of names for `terms`, given the registry's answers to each of
/// them.
pub fn backend_search_names<'a>(
    filters: PkBitfield,
    terms: &Vec<CText>,
    answers: &Vec<Vec<&'a Package>>,
) -> (packages: Vec<&'a Package>)
    requires
        terms@.len() == answers@.len(),
    ensures
        packages@ == ({
            let found = all_finds(SearchKind::Name, texts_of(terms@), answers@);
            if keeps_duplicates(filters) {
                found
            } else {
                first_of_each_name(found)
            }
        }),
        forall|k: int, j: int, before: Seq<char>, after: Seq<char>|
            #![trigger answers@[k]@[j], before + terms@[k]@ + after]
            0 <= k < terms@.len() && 0 <= j < answers@[k]@.len() && (answers@[k]@[j].name@ == before
                + terms@[k]@ + after) ==> exists|i: int|
                0 <= i < packages@.len() && (#[trigger] packages@[i]).name@
                    == answers@[k]@[j].name@,
{
    let packages: Vec<&'a Package> = search(SearchKind::Name, filters, terms, answers);
    proof {
        let texts = texts_of(terms@);
        let found = all_finds(SearchKind::Name, texts, answers@);
        assert forall|k: int, j: int, before: Seq<char>, after: Seq<char>|
            #![trigger answers@[k]@[j], before + terms@[k]@ + after]
            0 <= k < terms@.len() && 0 <= j < answers@[k]@.len() && (answers@[k]@[j].name@ == before
                + terms@[k]@ + after) implies exists|i: int|
            0 <= i < packages@.len() && (#[trigger] packages@[i]).name@
                == answers@[k]@[j].name@ by {
            let package = answers@[k]@[j];
            assert(texts[k] == terms@[k]@);
            name_search_is_complete(texts, answers@, k, j, before, after);
            if keeps_duplicates(filters) {
                let i = choose|i: int| 0 <= i < found.len() && found[i] == package;
                assert(packages@[i].name@ == package.name@);
            }
        }
    }
    packages
}

/// A layout entry, and the id of the package that it belongs to.
pub struct OwnedFile {
    pub package_id: String,
    pub file: LayoutFile,
}

/// As many times `id` as there are `terms` that occur in `target`.
pub open spec fn term_hits(id: Seq<char>, target: Seq<char>, terms: Seq<Seq<char>>) -> Seq<
    Seq<char>,
>
    decreases terms.len(),
{
    if terms.len() == 0 {
        Seq::empty()
    } else if is_part_of(terms.last(), target) {
        term_hits(id, target, terms.drop_last()).push(id)
    } else {
        term_hits(id, target, terms.drop_last())
    }
}

/// The ids of the packages whose files a search for `terms` finds: for each regular file,
/// directory or link in turn, once for each term that occurs in its path.
pub open spec fn file_hits(files: Seq<OwnedFile>, terms: Seq<Seq<char>>) -> Seq<Seq<char>>
    decreases files.len(),
{
    if files.len() == 0 {
        Seq::empty()
    } else {
        let before = file_hits(files.drop_last(), terms);
        match target_of(files.last().file) {
            Some(target) => before + term_hits(files.last().package_id@, target, terms),
            None => before,
        }
    }
}

/// The ids of the packages whose files a search for `terms` finds.
pub fn search_files(files: &Vec<OwnedFile>, terms: &Vec<CText>) -> (ids: Vec<String>)
    ensures
        ids.deep_view() == file_hits(files@, texts_of(terms@)),
        forall|i: int, k: int, before: Seq<char>, after: Seq<char>|
            #![trigger files@[i], before + terms@[k]@ + after]
            0 <= i < files@.len() && 0 <= k < terms@.len() && match files@[i].file {
                LayoutFile::Regular(path) => path@ == before + terms@[k]@ + after,
                LayoutFile::Directory(path) => path@ == before + terms@[k]@ + after,
                LayoutFile::Symlink(path) => path@ == before + terms@[k]@ + after,
                LayoutFile::Other => false,
            } ==> ids.deep_view().contains(files@[i].package_id@),
        ids@.len() == matching_pairs(files@, texts_of(terms@)).len(),
{
    let ghost texts = texts_of(terms@);
    let mut ids: Vec<String> = Vec::new();
    let mut i: usize = 0;
    assert(ids.deep_view() =~= file_hits(files@.take(0), texts));
    while i < files.len()
        invariant
            i <= files@.len(),
            texts == texts_of(terms@),
            ids.deep_view() == file_hits(files@.take(i as int), texts),
        decreases files@.len() - i,
    {
        let entry: &OwnedFile = &files[i];
        assert(files@.take(i + 1).drop_last() =~= files@.take(i as int));
        if let Some(target) = layout_target(&entry.file) {
            let ghost before = ids.deep_view();
            let mut j: usize = 0;
            assert(term_hits(entry.package_id@, target@, texts.take(0)) =~= Seq::<
                Seq<char>,
            >::empty());
            assert(before + Seq::<Seq<char>>::empty() =~= before);
            while j < terms.len()
                invariant
                    j <= terms@.len(),
                    texts == texts_of(terms@),
                    ids.deep_view() == before + term_hits(
                        entry.package_id@,
                        target@,
                        texts.take(j as int),
                    ),
                decreases terms@.len() - j,
            {
                let ghost so_far = term_hits(entry.package_id@, target@, texts.take(j as int));
                proof {
                    assert(texts.take(j + 1).drop_last() =~= texts.take(j as int));
                    assert(texts.take(j + 1).last() == terms@[j as int]@);
                }
                if contains(target.as_str(), terms[j].as_str()) {
                    let ghost ids_before = ids.deep_view();
                    ids.push(entry.package_id.clone());
                    assert(ids.deep_view() =~= ids_before.push(entry.package_id@));
                    assert(before + so_far.push(entry.package_id@) =~= (before + so_far).push(
                        entry.package_id@,
                    ));
                }
                j += 1;
            }
            assert(texts.take(texts.len() as int) =~= texts);
        }
        i += 1;
    }
    proof {
        assert(files@.take(files@.len() as int) =~= files@);
        file_search_counts_pairs(files@, texts);
        assert forall|i: int, k: int, before: Seq<char>, after: Seq<char>|
            #![trigger files@[i], before + terms@[k]@ + after]
            0 <= i < files@.len() && 0 <= k < terms@.len() && match files@[i].file {
                LayoutFile::Regular(path) => path@ == before + terms@[k]@ + after,
                LayoutFile::Directory(path) => path@ == before + terms@[k]@ + after,
                LayoutFile::Symlink(path) => path@ == before + terms@[k]@ + after,
                LayoutFile::Other => false,
            } implies ids.deep_view().contains(files@[i].package_id@) by {
            let path = before + terms@[k]@ + after;
            assert(texts[k] == terms@[k]@);
            file_search_is_complete(files@, texts, i, k, path, before, after);
        }
    }
    ids
}

/// The packages among the registry's answers, in their order.
pub open spec fn present<'a>(answers: Seq<Option<&'a Package>>) -> Seq<&'a Package>
    decreases answers.len(),
{
    if answers.len() == 0 {
        Seq::empty()
    } else {
        match answers.last() {
            Some(package) => present(answers.drop_last()).push(package),
            None => present(answers.drop_last()),
        }
    }
}

/// The packages among the registry's answers, in their order.
pub fn present_packages<'a>(answers: &Vec<Option<&'a Package>>) -> (packages: Vec<&'a Package>)
    ensures
        packages@ == present(answers@),
{
    let mut packages: Vec<&'a Package> = Vec::new();
    let mut i: usize = 0;
    while i < answers.len()
        invariant
            i <= answers@.len(),
            packages@ == present(answers@.take(i as int)),
        decreases answers@.len() - i,
    {
        assert(answers@.take(i + 1).drop_last() =~= answers@.take(i as int));
        if let Some(package) = answers[i] {
            packages.push(package);
        }
        i += 1;
    }
    assert(answers@.take(answers@.len() as int) =~= answers@);
    packages
}

/// Whether `package` stands in `packages` at a position that `keep` accepts.
spec fn accepted<'a>(
    packages: Seq<&'a Package>,
    keep: spec_fn(int) -> bool,
    package: &'a Package,
) -> bool {
    exists|at: int| 0 <= at < packages.len() && keep(at) && #[trigger] packages[at] == package
}

/// What is selected are the packages at the accepted positions, and no others.
proof fn select_holds<'a>(packages: Seq<&'a Package>, keep: spec_fn(int) -> bool)
    ensures
        forall|k: int|
            0 <= k < select(packages, keep).len() ==> accepted(
                packages,
                keep,
                #[trigger] select(packages, keep)[k],
            ),
        forall|at: int|
            0 <= at < packages.len() && keep(at) ==> select(packages, keep).contains(
                #[trigger] packages[at],
            ),
    decreases packages.len(),
{
    if packages.len() > 0 {
        let front = packages.drop_last();
        let chosen = select(packages, keep);
        let before = select(front, keep);
        select_holds(front, keep);
        assert forall|k: int| 0 <= k < chosen.len() implies accepted(
            packages,
            keep,
            #[trigger] chosen[k],
        ) by {
            if k < before.len() {
                assert(chosen[k] == before[k]);
                let at = choose|at: int|
                    0 <= at < front.len() && keep(at) && #[trigger] front[at] == before[k];
                assert(packages[at] == chosen[k]);
            } else {
                assert(packages[packages.len() - 1] == chosen[k]);
            }
        }
        assert forall|at: int| 0 <= at < packages.len() && keep(at) implies chosen.contains(
            #[trigger] packages[at],
        ) by {
            if at < front.len() {
                assert(front[at] == packages[at]);
                assert(before.contains(front[at]));
                let k = choose|k: int| 0 <= k < before.len() && before[k] == front[at];
                assert(chosen[k] == packages[at]);
            } else {
                assert(chosen[chosen.len() - 1] == packages[at]);
            }
        }
    }
}

proof fn names_stay_distinct<'a>(packages: Seq<&'a Package>, upto: int)
    requires
        0 <= upto <= packages.len(),
    ensures
        ({
            let chosen = select(
                packages.take(upto),
                |at: int| !named_before(packages, at),
            );
            forall|i: int, j: int|
                0 <= i < j < chosen.len() ==> (#[trigger] chosen[i]).name@ != (
                #[trigger] chosen[j]).name@
        }),
    decreases upto,
{
    let keep = |at: int| !named_before(packages, at);
    if upto > 0 {
        let front = packages.take(upto - 1);
        names_stay_distinct(packages, upto - 1);
        assert(packages.take(upto).drop_last() =~= front);
        let chosen = select(packages.take(upto), keep);
        let before = select(front, keep);
        select_holds(front, keep);
        if keep(upto - 1) {
            assert forall|i: int, j: int| 0 <= i < j < chosen.len() implies (
            #[trigger] chosen[i]).name@ != (#[trigger] chosen[j]).name@ by {
                assert(chosen[i] == before[i]);
                if j < before.len() {
                    assert(chosen[j] == before[j]);
                } else {
                    assert(accepted(front, keep, before[i]));
                    let at = choose|at: int|
                        0 <= at < front.len() && keep(at) && #[trigger] front[at] == before[i];
                    assert(packages[at] == chosen[i]);
                    assert(chosen[j] == packages[upto - 1]);
                }
            }
        }
    }
}

proof fn name_has_a_first<'a>(packages: Seq<&'a Package>, at: int) -> (first: int)
    requires
        0 <= at < packages.len(),
    ensures
        0 <= first <= at,
        packages[first].name@ == packages[at].name@,
        !named_before(packages, first),
    decreases at,
{
    if named_before(packages, at) {
        let before = choose|before: int|
            0 <= before < at && (#[trigger] packages[before]).name@ == packages[at].name@;
        name_has_a_first(packages, before)
    } else {
        at
    }
}

/// Among the first packages of each name no name is there twice, no name is lost, and nothing is
/// added.
pub proof fn each_name_once<'a>(packages: Seq<&'a Package>)
    ensures
        forall|i: int, j: int|
            0 <= i < j < first_of_each_name(packages).len() ==> (#[trigger] first_of_each_name(
                packages,
            )[i]).name@ != (#[trigger] first_of_each_name(packages)[j]).name@,
        forall|at: int|
            0 <= at < packages.len() ==> exists|i: int|
                0 <= i < first_of_each_name(packages).len() && (#[trigger] first_of_each_name(
                    packages,
                )[i]).name@ == (#[trigger] packages[at]).name@,
        forall|i: int|
            0 <= i < first_of_each_name(packages).len() ==> packages.contains(
                #[trigger] first_of_each_name(packages)[i],
            ),
{
    let keep = |at: int| !named_before(packages, at);
    let chosen = first_of_each_name(packages);
    assert(packages.take(packages.len() as int) =~= packages);
    names_stay_distinct(packages, packages.len() as int);
    select_holds(packages, keep);
    assert forall|at: int| 0 <= at < packages.len() implies exists|i: int|
        0 <= i < chosen.len() && (#[trigger] chosen[i]).name@ == (#[trigger] packages[at]).name@ by {
        let first = name_has_a_first(packages, at);
        assert(keep(first));
        assert(chosen.contains(packages[first]));
        let i = choose|i: int| 0 <= i < chosen.len() && chosen[i] == packages[first];
        assert(chosen[i].name@ == packages[at].name@);
    }
    assert forall|i: int| 0 <= i < chosen.len() implies packages.contains(
        #[trigger] chosen[i],
    ) by {
        assert(accepted(packages, keep, chosen[i]));
        let at = choose|at: int|
            0 <= at < packages.len() && keep(at) && #[trigger] packages[at] == chosen[i];
        assert(packages[at] == chosen[i]);
    }
}

proof fn shadows_stay_out<'a>(packages: Seq<&'a Package>, upto: int)
    requires
        0 <= upto <= packages.len(),
    ensures
        ({
            let chosen = select(packages.take(upto), |at: int| !shadowed(packages, at));
            forall|i: int, j: int|
                0 <= i < j < chosen.len() && (#[trigger] chosen[i]).flags.installed && !(
                #[trigger] chosen[j]).flags.installed && chosen[j].flags.available
                    ==> chosen[i].id@ != chosen[j].id@
        }),
    decreases upto,
{
    let keep = |at: int| !shadowed(packages, at);
    if upto > 0 {
        let front = packages.take(upto - 1);
        shadows_stay_out(packages, upto - 1);
        assert(packages.take(upto).drop_last() =~= front);
        let chosen = select(packages.take(upto), keep);
        let before = select(front, keep);
        select_holds(front, keep);
        if keep(upto - 1) {
            assert forall|i: int, j: int|
                0 <= i < j < chosen.len() && (#[trigger] chosen[i]).flags.installed && !(
                #[trigger] chosen[j]).flags.installed
                    && chosen[j].flags.available implies chosen[i].id@ != chosen[j].id@ by {
                assert(chosen[i] == before[i]);
                if j < before.len() {
                    assert(chosen[j] == before[j]);
                } else {
                    assert(accepted(front, keep, before[i]));
                    let at = choose|at: int|
                        0 <= at < front.len() && keep(at) && #[trigger] front[at] == before[i];
                    assert(packages[at] == chosen[i]);
                    assert(chosen[j] == packages[upto - 1]);
                }
            }
        }
    }
}

/// Without the shadowed packages, no offered package follows the same package as an installed
/// one, every installed package is still there, and nothing is added.
pub proof fn installed_hide_offered<'a>(packages: Seq<&'a Package>)
    ensures
        forall|i: int, j: int|
            0 <= i < j < without_shadowed(packages).len() && (#[trigger] without_shadowed(
                packages,
            )[i]).flags.installed && !(#[trigger] without_shadowed(packages)[j]).flags.installed
                && without_shadowed(packages)[j].flags.available ==> without_shadowed(
                packages,
            )[i].id@ != without_shadowed(packages)[j].id@,
        forall|at: int|
            0 <= at < packages.len() && packages[at].flags.installed ==> without_shadowed(
                packages,
            ).contains(#[trigger] packages[at]),
        forall|i: int|
            0 <= i < without_shadowed(packages).len() ==> packages.contains(
                #[trigger] without_shadowed(packages)[i],
            ),
{
    let keep = |at: int| !shadowed(packages, at);
    let chosen = without_shadowed(packages);
    assert(packages.take(packages.len() as int) =~= packages);
    shadows_stay_out(packages, packages.len() as int);
    select_holds(packages, keep);
    assert forall|at: int| 0 <= at < packages.len() && packages[at].flags.installed implies
        chosen.contains(#[trigger] packages[at]) by {
        assert(keep(at));
    }
    assert forall|i: int| 0 <= i < chosen.len() implies packages.contains(
        #[trigger] chosen[i],
    ) by {
        assert(accepted(packages, keep, chosen[i]));
        let at = choose|at: int|
            0 <= at < packages.len() && keep(at) && #[trigger] packages[at] == chosen[i];
        assert(packages[at] == chosen[i]);
    }
}

/// Everything that a search finds is an answer to one of the terms that the search finds it for.
pub proof fn finds_answer_a_term<'a>(
    kind: SearchKind,
    terms: Seq<Seq<char>>,
    answers: Seq<Vec<&'a Package>>,
    at: int,
)
    requires
        terms.len() == answers.len(),
        0 <= at < all_finds(kind, terms, answers).len(),
    ensures
        exists|k: int|
            0 <= k < terms.len() && finds(
                kind,
                *all_finds(kind, terms, answers)[at],
                #[trigger] terms[k],
            ) && answers[k]@.contains(all_finds(kind, terms, answers)[at]),
    decreases terms.len(),
{
    if terms.len() > 0 {
        let found = all_finds(kind, terms, answers);
        let before = all_finds(kind, terms.drop_last(), answers.drop_last());
        let answer = answers.last()@;
        let keep = |at: int| finds(kind, *answer[at], terms.last());
        if at < before.len() {
            finds_answer_a_term(kind, terms.drop_last(), answers.drop_last(), at);
            assert(found[at] == before[at]);
            let k = choose|k: int|
                0 <= k < terms.drop_last().len() && finds(
                    kind,
                    *before[at],
                    #[trigger] terms.drop_last()[k],
                ) && answers.drop_last()[k]@.contains(before[at]);
            assert(terms[k] == terms.drop_last()[k]);
            assert(finds(kind, *found[at], terms[k]));
        } else {
            select_holds(answer, keep);
            let chosen = select(answer, keep);
            assert(found[at] == chosen[at - before.len()]);
            assert(accepted(answer, keep, chosen[at - before.len()]));
            let source = choose|source: int|
                0 <= source < answer.len() && keep(source) && #[trigger] answer[source]
                    == chosen[at - before.len()];
            assert(answer[source] == found[at]);
            assert(finds(kind, *found[at], terms[terms.len() - 1]));
        }
    }
}

proof fn term_hits_hold(id: Seq<char>, target: Seq<char>, terms: Seq<Seq<char>>, at: int)
    requires
        0 <= at < term_hits(id, target, terms).len(),
    ensures
        term_hits(id, target, terms)[at] == id,
        exists|k: int| 0 <= k < terms.len() && is_part_of(#[trigger] terms[k], target),
    decreases terms.len(),
{
    let before = term_hits(id, target, terms.drop_last());
    if at < before.len() {
        term_hits_hold(id, target, terms.drop_last(), at);
        let k = choose|k: int|
            0 <= k < terms.drop_last().len() && is_part_of(
                #[trigger] terms.drop_last()[k],
                target,
            );
        assert(is_part_of(terms[k], target));
    } else {
        assert(is_part_of(terms[terms.len() - 1], target));
    }
}

/// Whether one of `terms` occurs in the path of `file`.
pub open spec fn file_answers(file: OwnedFile, terms: Seq<Seq<char>>) -> bool {
    target_of(file.file) matches Some(target) && exists|k: int|
        0 <= k < terms.len() && is_part_of(#[trigger] terms[k], target)
}

/// Every package that a search of files finds owns a file in whose path one of the terms occurs.
pub proof fn found_files_answer_a_term(files: Seq<OwnedFile>, terms: Seq<Seq<char>>, at: int)
    requires
        0 <= at < file_hits(files, terms).len(),
    ensures
        exists|i: int|
            0 <= i < files.len() && file_answers(#[trigger] files[i], terms) && file_hits(
                files,
                terms,
            )[at] == files[i].package_id@,
    decreases files.len(),
{
    let found = file_hits(files, terms);
    let front = files.drop_last();
    let before = file_hits(front, terms);
    if at < before.len() {
        found_files_answer_a_term(front, terms, at);
        assert(found[at] == before[at]);
        let i = choose|i: int|
            0 <= i < front.len() && file_answers(#[trigger] front[i], terms) && before[at]
                == front[i].package_id@;
        assert(files[i] == front[i]);
    } else {
        let target = target_of(files.last().file)->0;
        term_hits_hold(files.last().package_id@, target, terms, at - before.len());
        assert(file_answers(files[files.len() - 1], terms));
    }
}

proof fn select_is_filter<'a>(
    packages: Seq<&'a Package>,
    keep: spec_fn(int) -> bool,
    wanted: spec_fn(&'a Package) -> bool,
)
    requires
        forall|at: int| 0 <= at < packages.len() ==> keep(at) == wanted(#[trigger] packages[at]),
    ensures
        select(packages, keep) == packages.filter(wanted),
    decreases packages.len(),
{
    reveal(Seq::filter);
    if packages.len() > 0 {
        let front = packages.drop_last();
        assert forall|at: int| 0 <= at < front.len() implies keep(at) == wanted(
            #[trigger] front[at],
        ) by {
            assert(packages[at] == front[at]);
        }
        select_is_filter(front, keep, wanted);
        assert(keep(packages.len() - 1) == wanted(packages[packages.len() - 1]));
    } else {
        assert(packages.filter(wanted) =~= Seq::<&'a Package>::empty());
    }
}

proof fn select_agrees<'a>(
    packages: Seq<&'a Package>,
    one: spec_fn(int) -> bool,
    other: spec_fn(int) -> bool,
)
    requires
        forall|at: int| 0 <= at < packages.len() ==> #[trigger] one(at) == other(at),
    ensures
        select(packages, one) == select(packages, other),
    decreases packages.len(),
{
    if packages.len() > 0 {
        select_agrees(packages.drop_last(), one, other);
        assert(one(packages.len() - 1) == other(packages.len() - 1));
    }
}

/// A further term of a name search adds, behind the finds so far and in the order of its answer,
/// exactly the packages in whose name the term stands between any two texts.
pub proof fn name_finds_grow_by_term<'a>(
    terms: Seq<Seq<char>>,
    answers: Seq<Vec<&'a Package>>,
    term: Seq<char>,
    answer: Vec<&'a Package>,
)
    requires
        terms.len() == answers.len(),
    ensures
        all_finds(SearchKind::Name, terms.push(term), answers.push(answer)) == all_finds(
            SearchKind::Name,
            terms,
            answers,
        ) + answer@.filter(
            |package: &'a Package|
                exists|before: Seq<char>, after: Seq<char>|
                    package.name@ == #[trigger] (before + term + after),
        ),
        all_finds(SearchKind::Name, Seq::empty(), Seq::empty()).len() == 0,
{
    let wanted = |package: &'a Package|
        exists|before: Seq<char>, after: Seq<char>|
            package.name@ == #[trigger] (before + term + after);
    let keep = |at: int| finds(SearchKind::Name, *answer@[at], term);
    assert forall|at: int| 0 <= at < answer@.len() implies keep(at) == wanted(
        #[trigger] answer@[at],
    ) by {
        part_splits_whole(term, answer@[at].name@);
    }
    select_is_filter(answer@, keep, wanted);
    assert(terms.push(term).drop_last() =~= terms);
    assert(answers.push(answer).drop_last() =~= answers);
}

/// A further term of a search of details adds, behind the finds so far and in the order of its
/// answer, exactly the packages in whose summary or description the term stands between any two
/// texts.
pub proof fn detail_finds_grow_by_term<'a>(
    terms: Seq<Seq<char>>,
    answers: Seq<Vec<&'a Package>>,
    term: Seq<char>,
    answer: Vec<&'a Package>,
)
    requires
        terms.len() == answers.len(),
    ensures
        all_finds(SearchKind::Details, terms.push(term), answers.push(answer)) == all_finds(
            SearchKind::Details,
            terms,
            answers,
        ) + answer@.filter(
            |package: &'a Package|
                {
                    ||| exists|before: Seq<char>, after: Seq<char>|
                        package.summary@ == #[trigger] (before + term + after)
                    ||| exists|before: Seq<char>, after: Seq<char>|
                        package.description@ == #[trigger] (before + term + after)
                },
        ),
        all_finds(SearchKind::Details, Seq::empty(), Seq::empty()).len() == 0,
{
    let wanted = |package: &'a Package|
        {
            ||| exists|before: Seq<char>, after: Seq<char>|
                package.summary@ == #[trigger] (before + term + after)
            ||| exists|before: Seq<char>, after: Seq<char>|
                package.description@ == #[trigger] (before + term + after)
        };
    let keep = |at: int| finds(SearchKind::Details, *answer@[at], term);
    assert forall|at: int| 0 <= at < answer@.len() implies keep(at) == wanted(
        #[trigger] answer@[at],
    ) by {
        part_splits_whole(term, answer@[at].summary@);
        part_splits_whole(term, answer@[at].description@);
    }
    select_is_filter(answer@, keep, wanted);
    assert(terms.push(term).drop_last() =~= terms);
    assert(answers.push(answer).drop_last() =~= answers);
}

/// A further name that is resolved adds, behind the finds so far and in the order of its answer,
/// exactly the packages of that name.
pub proof fn exact_finds_grow_by_term<'a>(
    terms: Seq<Seq<char>>,
    answers: Seq<Vec<&'a Package>>,
    term: Seq<char>,
    answer: Vec<&'a Package>,
)
    requires
        terms.len() == answers.len(),
    ensures
        all_finds(SearchKind::ExactName, terms.push(term), answers.push(answer)) == all_finds(
            SearchKind::ExactName,
            terms,
            answers,
        ) + answer@.filter(|package: &'a Package| package.name@ == term),
        all_finds(SearchKind::ExactName, Seq::empty(), Seq::empty()).len() == 0,
{
    let wanted = |package: &'a Package| package.name@ == term;
    let keep = |at: int| finds(SearchKind::ExactName, *answer@[at], term);
    select_is_filter(answer@, keep, wanted);
    assert(terms.push(term).drop_last() =~= terms);
    assert(answers.push(answer).drop_last() =~= answers);
}

proof fn finds_are_collected<'a>(
    kind: SearchKind,
    terms: Seq<Seq<char>>,
    answers: Seq<Vec<&'a Package>>,
    k: int,
    j: int,
)
    requires
        terms.len() == answers.len(),
        0 <= k < terms.len(),
        0 <= j < answers[k]@.len(),
        finds(kind, *answers[k]@[j], terms[k]),
    ensures
        all_finds(kind, terms, answers).contains(answers[k]@[j]),
    decreases terms.len(),
{
    let found = all_finds(kind, terms, answers);
    let before = all_finds(kind, terms.drop_last(), answers.drop_last());
    let package = answers[k]@[j];
    if k < terms.len() - 1 {
        assert(answers.drop_last()[k] == answers[k]);
        assert(terms.drop_last()[k] == terms[k]);
        finds_are_collected(kind, terms.drop_last(), answers.drop_last(), k, j);
        let i = choose|i: int| 0 <= i < before.len() && before[i] == package;
        assert(found[i] == package);
    } else {
        let answer = answers.last()@;
        let keep = |at: int| finds(kind, *answer[at], terms.last());
        let chosen = select(answer, keep);
        select_holds(answer, keep);
        assert(keep(j));
        assert(chosen.contains(answer[j]));
        let i = choose|i: int| 0 <= i < chosen.len() && chosen[i] == package;
        assert(found[before.len() + i] == package);
    }
}

proof fn name_survives<'a>(packages: Seq<&'a Package>, package: &'a Package)
    requires
        packages.contains(package),
    ensures
        exists|i: int|
            0 <= i < first_of_each_name(packages).len() && (#[trigger] first_of_each_name(
                packages,
            )[i]).name@ == package.name@,
{
    each_name_once(packages);
    let at = choose|at: int| 0 <= at < packages.len() && packages[at] == package;
    assert(packages[at].name@ == package.name@);
}

/// A name search misses nothing: whatever stands before and after the term in the name of a
/// package that the registry answers with, the package is found, and its name is still there when
/// each name is listed once.
pub proof fn name_search_is_complete<'a>(
    terms: Seq<Seq<char>>,
    answers: Seq<Vec<&'a Package>>,
    k: int,
    j: int,
    before: Seq<char>,
    after: Seq<char>,
)
    requires
        terms.len() == answers.len(),
        0 <= k < terms.len(),
        0 <= j < answers[k]@.len(),
        answers[k]@[j].name@ == before + terms[k] + after,
    ensures
        all_finds(SearchKind::Name, terms, answers).contains(answers[k]@[j]),
        ({
            let listed = first_of_each_name(all_finds(SearchKind::Name, terms, answers));
            exists|i: int|
                0 <= i < listed.len() && (#[trigger] listed[i]).name@ == before + terms[k] + after
        }),
{
    part_stands_inside(before, terms[k], after);
    finds_are_collected(SearchKind::Name, terms, answers, k, j);
    name_survives(all_finds(SearchKind::Name, terms, answers), answers[k]@[j]);
}

/// A search of details misses nothing: whatever stands before and after the term in the summary or
/// the description of a package that the registry answers with, the package is found, and its name
/// is still there when each name is listed once.
pub proof fn detail_search_is_complete<'a>(
    terms: Seq<Seq<char>>,
    answers: Seq<Vec<&'a Package>>,
    k: int,
    j: int,
    before: Seq<char>,
    after: Seq<char>,
)
    requires
        terms.len() == answers.len(),
        0 <= k < terms.len(),
        0 <= j < answers[k]@.len(),
        answers[k]@[j].summary@ == before + terms[k] + after || answers[k]@[j].description@
            == before + terms[k] + after,
    ensures
        all_finds(SearchKind::Details, terms, answers).contains(answers[k]@[j]),
        ({
            let listed = first_of_each_name(all_finds(SearchKind::Details, terms, answers));
            exists|i: int|
                0 <= i < listed.len() && (#[trigger] listed[i]).name@ == answers[k]@[j].name@
        }),
{
    part_stands_inside(before, terms[k], after);
    finds_are_collected(SearchKind::Details, terms, answers, k, j);
    name_survives(all_finds(SearchKind::Details, terms, answers), answers[k]@[j]);
}

/// Resolving misses nothing: every package of a wanted name that the registry answers with is
/// found, and an installed one is always listed.
pub proof fn resolving_is_complete<'a>(
    terms: Seq<Seq<char>>,
    answers: Seq<Vec<&'a Package>>,
    k: int,
    j: int,
)
    requires
        terms.len() == answers.len(),
        0 <= k < terms.len(),
        0 <= j < answers[k]@.len(),
        answers[k]@[j].name@ == terms[k],
    ensures
        all_finds(SearchKind::ExactName, terms, answers).contains(answers[k]@[j]),
        answers[k]@[j].flags.installed ==> without_shadowed(
            all_finds(SearchKind::ExactName, terms, answers),
        ).contains(answers[k]@[j]),
{
    let found = all_finds(SearchKind::ExactName, terms, answers);
    let package = answers[k]@[j];
    finds_are_collected(SearchKind::ExactName, terms, answers, k, j);
    installed_hide_offered(found);
    let at = choose|at: int| 0 <= at < found.len() && found[at] == package;
    assert(found[at] == package);
}

/// What a name search finds is an answer to a term, and has that term in its name.
pub proof fn found_names_hold_a_term<'a>(
    terms: Seq<Seq<char>>,
    answers: Seq<Vec<&'a Package>>,
    at: int,
)
    requires
        terms.len() == answers.len(),
        0 <= at < all_finds(SearchKind::Name, terms, answers).len(),
    ensures
        ({
            let package = all_finds(SearchKind::Name, terms, answers)[at];
            exists|k: int, before: Seq<char>, after: Seq<char>|
                {
                    &&& 0 <= k < terms.len()
                    &&& answers[k]@.contains(package)
                    &&& package.name@ == #[trigger] (before + terms[k] + after)
                }
        }),
{
    let package = all_finds(SearchKind::Name, terms, answers)[at];
    finds_answer_a_term(SearchKind::Name, terms, answers, at);
    let k = choose|k: int|
        0 <= k < terms.len() && finds(SearchKind::Name, *package, #[trigger] terms[k])
            && answers[k]@.contains(package);
    part_splits_whole(terms[k], package.name@);
    let (before, after) = choose|before: Seq<char>, after: Seq<char>|
        package.name@ == #[trigger] (before + terms[k] + after);
    assert(package.name@ == before + terms[k] + after);
}

/// A further package is listed among the first of each name exactly if none before it has its
/// name.
pub proof fn names_are_taken_once<'a>(packages: Seq<&'a Package>, package: &'a Package)
    ensures
        first_of_each_name(packages.push(package)) == if exists|i: int|
            0 <= i < packages.len() && (#[trigger] packages[i]).name@ == package.name@ {
            first_of_each_name(packages)
        } else {
            first_of_each_name(packages).push(package)
        },
        first_of_each_name(Seq::empty()).len() == 0,
{
    let longer = packages.push(package);
    let keep = |at: int| !named_before(packages, at);
    let keep_longer = |at: int| !named_before(longer, at);
    assert(longer.drop_last() =~= packages);
    assert forall|at: int| 0 <= at < packages.len() implies #[trigger] keep(at) == keep_longer(
        at,
    ) by {
        if named_before(packages, at) {
            let b = choose|b: int|
                0 <= b < at && (#[trigger] packages[b]).name@ == packages[at].name@;
            assert(longer[b].name@ == longer[at].name@);
        }
        if named_before(longer, at) {
            let b = choose|b: int| 0 <= b < at && (#[trigger] longer[b]).name@ == longer[at].name@;
            assert(packages[b].name@ == packages[at].name@);
        }
    }
    select_agrees(packages, keep, keep_longer);
    let last = packages.len() as int;
    assert(longer[last] == package);
    if exists|i: int| 0 <= i < packages.len() && (#[trigger] packages[i]).name@ == package.name@ {
        let i = choose|i: int|
            0 <= i < packages.len() && (#[trigger] packages[i]).name@ == package.name@;
        assert(longer[i].name@ == longer[last].name@);
        assert(named_before(longer, last));
    } else {
        if named_before(longer, last) {
            let b = choose|b: int|
                0 <= b < last && (#[trigger] longer[b]).name@ == longer[last].name@;
            assert(packages[b].name@ == package.name@);
        }
    }
    assert(keep_longer(last) == !named_before(longer, last));
}

/// A further package is hidden exactly if it is offered and not installed, and a package with its
/// id before it is installed.
pub proof fn hidden_by_an_installed_package<'a>(packages: Seq<&'a Package>, package: &'a Package)
    ensures
        without_shadowed(packages.push(package)) == if package.flags.available
            && !package.flags.installed && exists|i: int|
            0 <= i < packages.len() && (#[trigger] packages[i]).flags.installed && packages[i].id@
                == package.id@ {
            without_shadowed(packages)
        } else {
            without_shadowed(packages).push(package)
        },
        without_shadowed(Seq::empty()).len() == 0,
{
    let longer = packages.push(package);
    let keep = |at: int| !shadowed(packages, at);
    let keep_longer = |at: int| !shadowed(longer, at);
    let last = packages.len() as int;
    assert(longer.drop_last() =~= packages);
    assert forall|at: int| 0 <= at < packages.len() implies #[trigger] keep(at) == keep_longer(
        at,
    ) by {
        assert(longer[at] == packages[at]);
        if shadowed(packages, at) {
            let b = choose|b: int|
                0 <= b < at && (#[trigger] packages[b]).flags.installed && packages[b].id@
                    == packages[at].id@;
            assert(longer[b].flags.installed);
        }
        if shadowed(longer, at) {
            let b = choose|b: int|
                0 <= b < at && (#[trigger] longer[b]).flags.installed && longer[b].id@
                    == longer[at].id@;
            assert(packages[b].flags.installed);
        }
    }
    select_agrees(packages, keep, keep_longer);
    assert(longer[last] == package);
    if exists|i: int|
        0 <= i < packages.len() && (#[trigger] packages[i]).flags.installed && packages[i].id@
            == package.id@ {
        let i = choose|i: int|
            0 <= i < packages.len() && (#[trigger] packages[i]).flags.installed && packages[i].id@
                == package.id@;
        assert(longer[i].flags.installed);
    } else if shadowed(longer, last) {
        let b = choose|b: int|
            0 <= b < last && (#[trigger] longer[b]).flags.installed && longer[b].id@
                == longer[last].id@;
        assert(packages[b].flags.installed);
    }
    assert(keep_longer(last) == !shadowed(longer, last));
}

/// The packages among the answers are all of them, in their order.
pub proof fn no_answer_is_lost<'a>(answers: Seq<Option<&'a Package>>)
    ensures
        present(answers) == answers.filter(|answer: Option<&'a Package>| answer is Some).map_values(
            |answer: Option<&'a Package>| answer->0,
        ),
    decreases answers.len(),
{
    let some = |answer: Option<&'a Package>| answer is Some;
    let inner = |answer: Option<&'a Package>| answer->0;
    reveal(Seq::filter);
    if answers.len() > 0 {
        no_answer_is_lost(answers.drop_last());
    }
    assert(present(answers) =~= answers.filter(some).map_values(inner));
}

/// Whether the entry is a regular file, a directory or a link, and `term` stands in its path
/// between any two texts.
pub open spec fn path_holds(file: LayoutFile, term: Seq<char>) -> bool {
    match file {
        LayoutFile::Regular(path) => exists|before: Seq<char>, after: Seq<char>|
            path@ == #[trigger] (before + term + after),
        LayoutFile::Directory(path) => exists|before: Seq<char>, after: Seq<char>|
            path@ == #[trigger] (before + term + after),
        LayoutFile::Symlink(path) => exists|before: Seq<char>, after: Seq<char>|
            path@ == #[trigger] (before + term + after),
        LayoutFile::Other => false,
    }
}

proof fn path_holds_a_part(file: LayoutFile, term: Seq<char>)
    ensures
        path_holds(file, term) <==> target_of(file) is Some && is_part_of(
            term,
            target_of(file)->0,
        ),
{
    match file {
        LayoutFile::Regular(path) => part_splits_whole(term, path@),
        LayoutFile::Directory(path) => part_splits_whole(term, path@),
        LayoutFile::Symlink(path) => part_splits_whole(term, path@),
        LayoutFile::Other => {},
    }
}

proof fn term_hits_are_filtered(id: Seq<char>, file: LayoutFile, terms: Seq<Seq<char>>)
    requires
        target_of(file) is Some,
    ensures
        term_hits(id, target_of(file)->0, terms) == terms.filter(
            |term: Seq<char>| path_holds(file, term),
        ).map_values(|term: Seq<char>| id),
    decreases terms.len(),
{
    let wanted = |term: Seq<char>| path_holds(file, term);
    let same = |term: Seq<char>| id;
    reveal(Seq::filter);
    if terms.len() > 0 {
        term_hits_are_filtered(id, file, terms.drop_last());
        path_holds_a_part(file, terms.last());
    }
    assert(term_hits(id, target_of(file)->0, terms) =~= terms.filter(wanted).map_values(same));
}

/// A further entry adds the id of its package once for each term in its path, whatever the entries
/// before it are.
pub proof fn file_finds_grow_by_entry(files: Seq<OwnedFile>, file: OwnedFile, terms: Seq<Seq<char>>)
    ensures
        file_hits(files.push(file), terms) == file_hits(files, terms) + terms.filter(
            |term: Seq<char>| path_holds(file.file, term),
        ).map_values(|term: Seq<char>| file.package_id@),
        file_hits(Seq::empty(), terms).len() == 0,
{
    let wanted = |term: Seq<char>| path_holds(file.file, term);
    let same = |term: Seq<char>| file.package_id@;
    let added = terms.filter(wanted).map_values(same);
    assert(files.push(file).drop_last() =~= files);
    if target_of(file.file) is Some {
        term_hits_are_filtered(file.package_id@, file.file, terms);
    } else {
        if added.len() > 0 {
            terms.lemma_filter_pred(wanted, 0);
            assert(wanted(terms.filter(wanted)[0]));
            path_holds_a_part(file.file, terms.filter(wanted)[0]);
        }
        assert(file_hits(files, terms) + added =~= file_hits(files, terms));
    }
}

/// A search of files misses nothing: whatever stands before and after the term in the path of a
/// regular file, a directory or a link, its package is found.
pub proof fn file_search_is_complete(
    files: Seq<OwnedFile>,
    terms: Seq<Seq<char>>,
    i: int,
    k: int,
    path: Seq<char>,
    before: Seq<char>,
    after: Seq<char>,
)
    requires
        0 <= i < files.len(),
        0 <= k < terms.len(),
        match files[i].file {
            LayoutFile::Regular(target) => target@ == path,
            LayoutFile::Directory(target) => target@ == path,
            LayoutFile::Symlink(target) => target@ == path,
            LayoutFile::Other => false,
        },
        path == before + terms[k] + after,
    ensures
        file_hits(files, terms).contains(files[i].package_id@),
    decreases files.len(),
{
    let front = files.drop_last();
    let found = file_hits(files, terms);
    let earlier = file_hits(front, terms);
    let id = files[i].package_id@;
    assert(files =~= front.push(files.last()));
    file_finds_grow_by_entry(front, files.last(), terms);
    if i < front.len() {
        assert(front[i] == files[i]);
        file_search_is_complete(front, terms, i, k, path, before, after);
        let at = choose|at: int| 0 <= at < earlier.len() && earlier[at] == id;
        assert(found[at] == id);
    } else {
        let wanted = |term: Seq<char>| path_holds(files.last().file, term);
        part_stands_inside(before, terms[k], after);
        path_holds_a_part(files.last().file, terms[k]);
        assert(wanted(terms[k]));
        terms.lemma_filter_contains(wanted, k);
        let chosen = terms.filter(wanted);
        let at = choose|at: int| 0 <= at < chosen.len() && chosen[at] == terms[k];
        assert(found[earlier.len() + at] == id);
    }
}

/// The pairs of an entry and a term that stands in its path.
pub open spec fn matching_pairs(files: Seq<OwnedFile>, terms: Seq<Seq<char>>) -> Set<(int, int)> {
    Set::new(
        |pair: (int, int)|
            0 <= pair.0 < files.len() && 0 <= pair.1 < terms.len() && path_holds(
                files[pair.0].file,
                terms[pair.1],
            ),
    )
}

spec fn pairs_of_entry(file: OwnedFile, terms: Seq<Seq<char>>, i: int) -> Set<(int, int)> {
    Set::new(
        |pair: (int, int)|
            pair.0 == i && 0 <= pair.1 < terms.len() && path_holds(file.file, terms[pair.1]),
    )
}

proof fn entry_counts_its_terms(file: OwnedFile, terms: Seq<Seq<char>>, i: int)
    ensures
        pairs_of_entry(file, terms, i).finite(),
        pairs_of_entry(file, terms, i).len() == terms.filter(
            |term: Seq<char>| path_holds(file.file, term),
        ).len(),
    decreases terms.len(),
{
    let wanted = |term: Seq<char>| path_holds(file.file, term);
    let pairs = pairs_of_entry(file, terms, i);
    reveal(Seq::filter);
    if terms.len() == 0 {
        assert(pairs =~= Set::<(int, int)>::empty());
    } else {
        let front = terms.drop_last();
        let before = pairs_of_entry(file, front, i);
        let last = (i, terms.len() - 1);
        entry_counts_its_terms(file, front, i);
        assert(terms[terms.len() - 1] == terms.last());
        if wanted(terms.last()) {
            assert(pairs =~= before.insert(last));
            assert(!before.contains(last));
        } else {
            assert(pairs =~= before);
        }
    }
}

/// A search of files reports as many ids as there are pairs of an entry and a term in its path.
pub proof fn file_search_counts_pairs(files: Seq<OwnedFile>, terms: Seq<Seq<char>>)
    ensures
        matching_pairs(files, terms).finite(),
        file_hits(files, terms).len() == matching_pairs(files, terms).len(),
    decreases files.len(),
{
    let pairs = matching_pairs(files, terms);
    if files.len() == 0 {
        assert(pairs =~= Set::<(int, int)>::empty());
    } else {
        let front = files.drop_last();
        let before = matching_pairs(front, terms);
        let added = pairs_of_entry(files.last(), terms, files.len() - 1);
        assert(files =~= front.push(files.last()));
        file_finds_grow_by_entry(front, files.last(), terms);
        file_search_counts_pairs(front, terms);
        entry_counts_its_terms(files.last(), terms, files.len() - 1);
        assert(pairs =~= before.union(added));
        lemma_set_disjoint_lens(before, added);
    }
}

} // verus!
