//! Packages as the registry lists them, and which of them a request asks for.

use vstd::arithmetic::power2::pow2;
use vstd::prelude::*;

use crate::bitfield::{has_bit, members_are_binary_digits, pk_bitfield_contain, PkBitfield};

verus! {

/// Filter: only installed packages.
pub const PK_FILTER_ENUM_INSTALLED: u32 = 2;

/// Filter: only packages that are not installed.
pub const PK_FILTER_ENUM_NOT_INSTALLED: u32 = 3;

/// Filter: only the newest version of each package.
pub const PK_FILTER_ENUM_NEWEST: u32 = 16;

/// Filter: only versions that are not the newest.
pub const PK_FILTER_ENUM_NOT_NEWEST: u32 = 17;

/// Marks of a package, and the marks that a registry query asks for. A query without marks asks
/// for every package.
#[derive(Clone, Copy, PartialEq, Eq, Structural, Debug)]
pub struct Flags {
    pub installed: bool,
    pub available: bool,
}

/// A package of the registry.
pub struct Package {
    pub id: String,
    pub name: String,
    pub version_identifier: String,
    pub source_release: u64,
    pub architecture: String,
    pub summary: String,
    pub description: String,
    pub homepage: String,
    pub licenses: Vec<String>,
    pub download_size: Option<u64>,
    pub origin: Option<String>,
    pub flags: Flags,
}

/// The marks that a query has to ask for under `filters`: installed before not installed, and no
/// mark at all where neither filter is set.
pub open spec fn wanted_flags(filters: PkBitfield) -> Flags {
    if has_bit(filters, PK_FILTER_ENUM_INSTALLED) {
        Flags { installed: true, available: false }
    } else if has_bit(filters, PK_FILTER_ENUM_NOT_INSTALLED) {
        Flags { installed: false, available: true }
    } else {
        Flags { installed: false, available: false }
    }
}

/// Whether `filters` speak of the newest versions. The installed and the available packages are
/// then listed side by side, so that nothing counts as a duplicate.
pub open spec fn keeps_duplicates(filters: PkBitfield) -> bool {
    has_bit(filters, PK_FILTER_ENUM_NEWEST) || has_bit(filters, PK_FILTER_ENUM_NOT_NEWEST)
}

/// The marks that a query has to ask for under `filters`.
pub fn flags_for(filters: PkBitfield) -> (flags: Flags)
    ensures
        flags == wanted_flags(filters),
{
    if pk_bitfield_contain(filters, PK_FILTER_ENUM_INSTALLED) {
        Flags { installed: true, available: false }
    } else if pk_bitfield_contain(filters, PK_FILTER_ENUM_NOT_INSTALLED) {
        Flags { installed: false, available: true }
    } else {
        Flags { installed: false, available: false }
    }
}

/// Whether `filters` speak of the newest versions.
pub fn is_newest(filters: PkBitfield) -> (newest: bool)
    ensures
        newest == keeps_duplicates(filters),
{
    pk_bitfield_contain(filters, PK_FILTER_ENUM_NEWEST) || pk_bitfield_contain(
        filters,
        PK_FILTER_ENUM_NOT_NEWEST,
    )
}

/// Whether the package at `at` is the first of `packages` that is not installed.
pub open spec fn is_first_remote(packages: Seq<Package>, at: int) -> bool {
    &&& 0 <= at < packages.len()
    &&& !packages[at].flags.installed
    &&& forall|before: int| 0 <= before < at ==> (#[trigger] packages[before]).flags.installed
}

/// The first of `packages` that is not installed: the version that a repository offers.
pub fn first_remote(packages: &Vec<Package>) -> (remote: Option<&Package>)
    ensures
        match remote {
            Some(package) => exists|at: int|
                is_first_remote(packages@, at) && *package == packages@[at],
            None => forall|at: int|
                0 <= at < packages@.len() ==> (#[trigger] packages@[at]).flags.installed,
        },
        match remote {
            Some(package) => !package.flags.installed && exists|at: int|
                {
                    &&& 0 <= at < packages@.len()
                    &&& *package == #[trigger] packages@[at]
                    &&& forall|before: int|
                        0 <= before < at ==> (#[trigger] packages@[before]).flags.installed
                },
            None => forall|at: int|
                0 <= at < packages@.len() ==> (#[trigger] packages@[at]).flags.installed,
        },
{
    let mut i: usize = 0;
    while i < packages.len()
        invariant
            i <= packages@.len(),
            forall|at: int| 0 <= at < i ==> (#[trigger] packages@[at]).flags.installed,
        decreases packages@.len() - i,
    {
        if !packages[i].flags.installed {
            assert(is_first_remote(packages@, i as int));
            assert(packages@[i as int] == packages@[i as int]);
            return Some(&packages[i]);
        }
        i += 1;
    }
    None
}

/// A query asks for installed packages exactly if the filters hold the value 2, for available
/// ones exactly if they hold 3 and not 2, and never for both. Duplicates are kept exactly under
/// the filters 16 and 17.
pub proof fn filters_mean_their_values(filters: PkBitfield)
    ensures
        wanted_flags(filters).installed <==> (filters as nat / pow2(2)) % 2 == 1,
        wanted_flags(filters).available <==> (filters as nat / pow2(3)) % 2 == 1 && (filters as nat
            / pow2(2)) % 2 != 1,
        keeps_duplicates(filters) <==> (filters as nat / pow2(16)) % 2 == 1 || (filters as nat
            / pow2(17)) % 2 == 1,
{
    members_are_binary_digits(filters, 2);
    members_are_binary_digits(filters, 3);
    members_are_binary_digits(filters, 16);
    members_are_binary_digits(filters, 17);
}

} // verus!
