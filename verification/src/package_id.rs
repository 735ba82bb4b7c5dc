//! Package ids: four sections, `name;version;arch;data`, in one text.

use vstd::prelude::*;

use crate::package::{Flags, Package};
use crate::text::{chars_of, joined, same_text, starts_with, CText, NulError};
use crate::text::{first_with_nul, first_with_nul_of_four};

verus! {

/// What stands between two sections.
pub open spec fn separator() -> Seq<char> {
    seq![';']
}

/// Whether `text` can be a section: it holds no separator.
pub open spec fn is_section(text: Seq<char>) -> bool {
    forall|i: int| 0 <= i < text.len() ==> #[trigger] text[i] != ';'
}

/// The sections of a package id.
#[verifier::ext_equal]
pub struct IdSections {
    pub name: Seq<char>,
    pub version: Seq<char>,
    pub arch: Seq<char>,
    pub data: Seq<char>,
}

impl IdSections {
    /// Whether no section holds a separator and the name is not empty.
    pub open spec fn valid(self) -> bool {
        &&& self.name.len() > 0
        &&& is_section(self.name)
        &&& is_section(self.version)
        &&& is_section(self.arch)
        &&& is_section(self.data)
    }

    /// The id that the sections make.
    pub open spec fn text(self) -> Seq<char> {
        self.name + separator() + self.version + separator() + self.arch + separator() + self.data
    }
}

/// Whether `text` is the id that the valid sections `sections` make.
pub open spec fn is_id_of(text: Seq<char>, sections: IdSections) -> bool {
    sections.valid() && text == sections.text()
}

/// The valid sections that make `text`, if there are any.
pub open spec fn sections_of(text: Seq<char>) -> Option<IdSections> {
    if exists|sections: IdSections| is_id_of(text, sections) {
        Some(choose|sections: IdSections| is_id_of(text, sections))
    } else {
        None
    }
}

/// The four sections of a package id.
pub struct PackageIdParts {
    pub name: String,
    pub version: String,
    pub arch: String,
    pub data: String,
}

impl View for PackageIdParts {
    type V = IdSections;

    open spec fn view(&self) -> IdSections {
        IdSections {
            name: self.name@,
            version: self.version@,
            arch: self.arch@,
            data: self.data@,
        }
    }
}

/// The number of separators in `text`.
spec fn separators(text: Seq<char>) -> nat
    decreases text.len(),
{
    if text.len() == 0 {
        0
    } else {
        separators(text.drop_last()) + if text.last() == ';' {
            1nat
        } else {
            0nat
        }
    }
}

proof fn separators_add(a: Seq<char>, b: Seq<char>)
    ensures
        separators(a + b) == separators(a) + separators(b),
    decreases b.len(),
{
    if b.len() == 0 {
        assert(a + b =~= a);
    } else {
        assert((a + b).drop_last() =~= a + b.drop_last());
        separators_add(a, b.drop_last());
    }
}

proof fn separators_of_section(a: Seq<char>)
    ensures
        separators(a) == 0 <==> is_section(a),
    decreases a.len(),
{
    if a.len() > 0 {
        separators_of_section(a.drop_last());
        if is_section(a.drop_last()) && a.last() != ';' {
            assert forall|i: int| 0 <= i < a.len() implies #[trigger] a[i] != ';' by {
                if i < a.len() - 1 {
                    assert(a.drop_last()[i] == a[i]);
                }
            }
        }
        if is_section(a) {
            assert forall|i: int| 0 <= i < a.drop_last().len() implies #[trigger] a.drop_last()[i]
                != ';' by {
                assert(a[i] != ';');
            }
        }
    }
}

proof fn separators_of_id(sections: IdSections)
    ensures
        separators(sections.text()) == 3 + separators(sections.name) + separators(sections.version)
            + separators(sections.arch) + separators(sections.data),
{
    let s = separator();
    one_separator();
    let a = sections.name + s;
    let b = a + sections.version;
    let c = b + s;
    let d = c + sections.arch;
    let e = d + s;
    separators_add(sections.name, s);
    separators_add(a, sections.version);
    separators_add(b, s);
    separators_add(c, sections.arch);
    separators_add(d, s);
    separators_add(e, sections.data);
}

/// A section ends where the first separator stands.
proof fn first_section_unique(a: Seq<char>, rest_a: Seq<char>, b: Seq<char>, rest_b: Seq<char>)
    requires
        is_section(a),
        is_section(b),
        a + separator() + rest_a == b + separator() + rest_b,
    ensures
        a == b,
        rest_a == rest_b,
{
    let left = a + separator() + rest_a;
    let right = b + separator() + rest_b;
    assert(separator().len() == 1 && separator()[0] == ';');
    assert(left.len() == a.len() + 1 + rest_a.len());
    assert(right.len() == b.len() + 1 + rest_b.len());
    assert(left[a.len() as int] == ';');
    assert(right[b.len() as int] == ';');
    if a.len() < b.len() {
        assert(right[a.len() as int] == b[a.len() as int]);
    } else if b.len() < a.len() {
        assert(left[b.len() as int] == a[b.len() as int]);
    }
    assert forall|i: int| 0 <= i < a.len() implies a[i] == b[i] by {
        assert(left[i] == a[i]);
        assert(right[i] == b[i]);
    }
    assert(a =~= b);
    assert(rest_a.len() == rest_b.len());
    assert forall|i: int| 0 <= i < rest_a.len() implies rest_a[i] == rest_b[i] by {
        assert(left[a.len() + 1 + i] == rest_a[i]);
        assert(right[a.len() + 1 + i] == rest_b[i]);
    }
    assert(rest_a =~= rest_b);
}

/// The sections of an id are unique.
pub proof fn sections_unique(text: Seq<char>, a: IdSections, b: IdSections)
    requires
        is_id_of(text, a),
        is_id_of(text, b),
    ensures
        a == b,
{
    let s = separator();
    let a3 = a.arch + s + a.data;
    let a2 = a.version + s + a3;
    let b3 = b.arch + s + b.data;
    let b2 = b.version + s + b3;
    assert(a.text() =~= a.name + s + a2);
    assert(b.text() =~= b.name + s + b2);
    first_section_unique(a.name, a2, b.name, b2);
    first_section_unique(a.version, a3, b.version, b3);
    first_section_unique(a.arch, a.data, b.arch, b.data);
}

/// Splitting an id undoes building it: valid sections come back as they were.
pub proof fn split_undoes_build(sections: IdSections)
    requires
        sections.valid(),
    ensures
        sections_of(sections.text()) == Some(sections),
{
    assert(is_id_of(sections.text(), sections));
    let found = sections_of(sections.text())->0;
    sections_unique(sections.text(), sections, found);
}

/// A built id passes the check exactly when no section holds a separator and the name is not
/// empty.
pub proof fn built_id_checks(sections: IdSections)
    ensures
        sections_of(sections.text()) is Some <==> sections.valid(),
{
    if sections.valid() {
        split_undoes_build(sections);
    }
    if sections_of(sections.text()) is Some {
        let found = sections_of(sections.text())->0;
        assert(is_id_of(sections.text(), found));
        separators_of_id(sections);
        separators_of_id(found);
        separators_of_section(found.name);
        separators_of_section(found.version);
        separators_of_section(found.arch);
        separators_of_section(found.data);
        separators_of_section(sections.name);
        separators_of_section(sections.version);
        separators_of_section(sections.arch);
        separators_of_section(sections.data);
        if sections.name.len() == 0 {
            assert(sections.text()[0] == ';');
            assert(found.text()[0] == found.name[0]);
        }
    }
}

/// The id of the four sections.
pub fn pk_package_id_build(name: &str, version: &str, arch: &str, data: &str) -> (id: String)
    ensures
        id@ == (IdSections { name: name@, version: version@, arch: arch@, data: data@ }).text(),
        id@ == name@ + seq![';'] + version@ + seq![';'] + arch@ + seq![';'] + data@,
{
    proof {
        reveal_strlit(";");
        assert(";"@ =~= separator());
    }
    name.to_owned().concat(";").concat(version).concat(";").concat(arch).concat(";").concat(data)
}

/// The first separator at or after `from`, or the end of `chars`.
fn section_end(chars: &Vec<char>, from: usize) -> (end: usize)
    requires
        from <= chars@.len(),
    ensures
        from <= end <= chars@.len(),
        is_section(chars@.subrange(from as int, end as int)),
        end < chars@.len() ==> chars@[end as int] == ';',
{
    let mut i: usize = from;
    while i < chars.len() && chars[i] != ';'
        invariant
            from <= i <= chars@.len(),
            forall|j: int| from <= j < i ==> #[trigger] chars@[j] != ';',
        decreases chars@.len() - i,
    {
        i += 1;
    }
    i
}

/// Whether a section of `chars` stands between `from` and `end`, where the text or a separator ends
/// it.
spec fn stands_between(chars: Seq<char>, from: int, end: int) -> bool {
    &&& 0 <= from <= end <= chars.len()
    &&& is_section(chars.subrange(from, end))
    &&& end < chars.len() ==> chars[end] == ';'
}

/// A text whose sections make it an id has exactly three separators.
proof fn id_has_three_separators(text: Seq<char>)
    requires
        sections_of(text) is Some,
    ensures
        separators(text) == 3,
{
    let found = sections_of(text)->0;
    assert(is_id_of(text, found));
    separators_of_id(found);
    separators_of_section(found.name);
    separators_of_section(found.version);
    separators_of_section(found.arch);
    separators_of_section(found.data);
}

proof fn one_separator()
    ensures
        separators(separator()) == 1,
{
    assert(separator().drop_last() =~= Seq::<char>::empty());
    assert(separators(Seq::<char>::empty()) == 0);
}

/// A section, and another one behind a separator, hold one separator.
proof fn separators_of_two(c: Seq<char>, first: int, second: int)
    requires
        stands_between(c, 0, first),
        first < c.len(),
        stands_between(c, first + 1, second),
    ensures
        separators(c.take(second)) == 1,
{
    let a = c.subrange(0, first);
    let b = c.subrange(first + 1, second);
    one_separator();
    separators_of_section(a);
    separators_of_section(b);
    assert(c.take(second) =~= a + separator() + b);
    separators_add(a, separator());
    separators_add(a + separator(), b);
}

/// A further section behind a separator adds one separator.
proof fn separators_of_next(c: Seq<char>, from: int, end: int)
    requires
        0 <= from < c.len(),
        c[from] == ';',
        stands_between(c, from + 1, end),
    ensures
        separators(c.take(end)) == separators(c.take(from)) + 1,
{
    let a = c.take(from);
    let b = c.subrange(from + 1, end);
    one_separator();
    separators_of_section(b);
    assert(c.take(end) =~= a + separator() + b);
    separators_add(a, separator());
    separators_add(a + separator(), b);
}

/// A text with fewer than four sections is no id.
proof fn too_few_sections(c: Seq<char>, first: int, second: int)
    requires
        stands_between(c, 0, first),
        first < c.len() ==> stands_between(c, first + 1, second),
        first == c.len() ==> second == c.len(),
        second < c.len() ==> stands_between(c, second + 1, c.len() as int),
    ensures
        sections_of(c) is None,
{
    assert(c.take(c.len() as int) =~= c);
    if first == c.len() {
        assert(c.subrange(0, first) =~= c);
        separators_of_section(c);
    } else {
        separators_of_two(c, first, second);
        if second < c.len() {
            separators_of_next(c, second, c.len() as int);
        }
    }
    if sections_of(c) is Some {
        id_has_three_separators(c);
    }
}

/// A text with at least four sections is an id exactly if it has no more of them and the first is
/// not empty.
proof fn four_sections(c: Seq<char>, first: int, second: int, third: int, fourth: int)
    requires
        stands_between(c, 0, first),
        first < c.len(),
        stands_between(c, first + 1, second),
        second < c.len(),
        stands_between(c, second + 1, third),
        third < c.len(),
        stands_between(c, third + 1, fourth),
    ensures
        sections_of(c) == if fourth == c.len() && first > 0 {
            Some(
                IdSections {
                    name: c.subrange(0, first),
                    version: c.subrange(first + 1, second),
                    arch: c.subrange(second + 1, third),
                    data: c.subrange(third + 1, fourth),
                },
            )
        } else {
            None
        },
{
    let head = IdSections {
        name: c.subrange(0, first),
        version: c.subrange(first + 1, second),
        arch: c.subrange(second + 1, third),
        data: c.subrange(third + 1, fourth),
    };
    assert(c.take(fourth) =~= head.text());
    if fourth == c.len() {
        assert(c.take(fourth) =~= c);
        built_id_checks(head);
        if first > 0 {
            split_undoes_build(head);
        }
    } else {
        let rest = c.skip(fourth);
        separators_of_two(c, first, second);
        separators_of_next(c, second, third);
        separators_of_next(c, third, fourth);
        assert(c =~= c.take(fourth) + rest);
        separators_add(c.take(fourth), rest);
        separators_of_section(rest);
        assert(rest[0] == ';');
        if sections_of(c) is Some {
            id_has_three_separators(c);
        }
    }
}

/// The four sections of `id`, if it has exactly four and the first is not empty.
pub fn pk_package_id_split(id: &str) -> (parts: Option<PackageIdParts>)
    ensures
        match parts {
            Some(parts) => sections_of(id@) == Some(parts@),
            None => sections_of(id@) is None,
        },
        parts matches Some(parts) ==> {
            &&& id@ == parts.name@ + seq![';'] + parts.version@ + seq![';'] + parts.arch@ + seq![';']
                + parts.data@
            &&& parts.name@.len() > 0
            &&& !parts.name@.contains(';')
            &&& !parts.version@.contains(';')
            &&& !parts.arch@.contains(';')
            &&& !parts.data@.contains(';')
        },
{
    let chars: Vec<char> = chars_of(id);
    let first: usize = section_end(&chars, 0);
    let second: usize = if first < chars.len() { section_end(&chars, first + 1) } else { first };
    let third: usize = if second < chars.len() { section_end(&chars, second + 1) } else { second };
    if third >= chars.len() {
        proof {
            too_few_sections(chars@, first as int, second as int);
        }
        return None;
    }
    let fourth: usize = section_end(&chars, third + 1);
    proof {
        four_sections(chars@, first as int, second as int, third as int, fourth as int);
        if sections_of(id@) is Some {
            id_is_made_of_four_texts(id@);
        }
    }
    if fourth == chars.len() && first > 0 {
        Some(
            PackageIdParts {
                name: id.substring_char(0, first).to_owned(),
                version: id.substring_char(first + 1, second).to_owned(),
                arch: id.substring_char(second + 1, third).to_owned(),
                data: id.substring_char(third + 1, fourth).to_owned(),
            },
        )
    } else {
        None
    }
}

/// Whether `id` is a package id.
pub fn pk_package_id_check(id: &str) -> (valid: bool)
    ensures
        valid == (sections_of(id@) is Some),
{
    pk_package_id_split(id).is_some()
}

/// The id of a distribution: its name, its version and the machine's architecture.
pub fn pk_get_distro_id(name: &str, version: &str, arch: &str) -> (id: String)
    ensures
        id@ == name@ + separator() + version@ + separator() + arch@,
{
    proof {
        reveal_strlit(";");
        assert(";"@ =~= separator());
    }
    name.to_owned().concat(";").concat(version).concat(";").concat(arch)
}

/// The repository that offers `remote`, if it is known.
pub open spec fn origin_of(remote: Option<&Package>) -> Option<Seq<char>> {
    match remote {
        Some(package) => match package.origin {
            Some(origin) => Some(origin@),
            None => None,
        },
        None => None,
    }
}

/// The data section of a package: whether it is installed, and the repository that offers it.
pub open spec fn data_section(installed: bool, origin: Option<Seq<char>>) -> Seq<char> {
    match origin {
        Some(origin) => if installed {
            "installed:"@ + origin
        } else {
            origin
        },
        None => if installed {
            "installed"@
        } else {
            "unknown"@
        },
    }
}

/// The sections of the id of `package`, of which a repository offers `remote`.
pub open spec fn package_sections(package: Package, remote: Option<&Package>) -> IdSections {
    IdSections {
        name: package.name@,
        version: package.version_identifier@,
        arch: package.architecture@,
        data: data_section(package.flags.installed, origin_of(remote)),
    }
}

/// The data section of a package.
fn status_of(package: &Package, remote: Option<&Package>) -> (status: String)
    ensures
        status@ == data_section(package.flags.installed, origin_of(remote)),
{
    let origin: Option<&String> = match remote {
        Some(remote) => match &remote.origin {
            Some(origin) => Some(origin),
            None => None,
        },
        None => None,
    };
    match origin {
        Some(origin) => if package.flags.installed {
            joined("installed:", origin.as_str())
        } else {
            origin.clone()
        },
        None => if package.flags.installed {
            "installed".to_owned()
        } else {
            "unknown".to_owned()
        },
    }
}

/// The id of `package`, of which a repository offers `remote`. A section that holds a NUL is
/// refused.
pub fn moss_build_package_id_from_registry(
    package: &Package,
    remote: Option<&Package>,
) -> (result: Result<CText, NulError>)
    ensures
        ({
            let sections = package_sections(*package, remote);
            let texts = seq![sections.name, sections.version, sections.arch, sections.data];
            match result {
                Ok(id) => first_with_nul(texts) is None && id@ == sections.text(),
                Err(e) => first_with_nul(texts) == Some(e.text@),
            }
        }),
{
    let status: String = status_of(package, remote);
    let ghost sections = package_sections(*package, remote);
    proof {
        first_with_nul_of_four(sections.name, sections.version, sections.arch, sections.data);
    }
    let name: CText = match CText::copy_of(package.name.as_str()) {
        Ok(text) => text,
        Err(e) => return Err(e),
    };
    let version: CText = match CText::copy_of(package.version_identifier.as_str()) {
        Ok(text) => text,
        Err(e) => return Err(e),
    };
    let arch: CText = match CText::copy_of(package.architecture.as_str()) {
        Ok(text) => text,
        Err(e) => return Err(e),
    };
    let data: CText = match CText::new(status) {
        Ok(text) => text,
        Err(e) => return Err(e),
    };
    let id: String = pk_package_id_build(name.as_str(), version.as_str(), arch.as_str(), data.as_str());
    CText::new(id)
}

/// Whether the data section of an id says that the package is installed.
pub open spec fn says_installed(data: Seq<char>) -> bool {
    data == "installed"@ || "installed:"@.is_prefix_of(data)
}

/// The registry query that finds the package of an id.
pub struct PackageQuery {
    pub name: String,
    pub flags: Flags,
}

/// The registry query for the package of `id`: by its name, among the installed packages where
/// the id says so and among the available ones otherwise.
pub fn package_query(id: &str) -> (query: Option<PackageQuery>)
    ensures
        match sections_of(id@) {
            Some(sections) => query matches Some(q) && q.name@ == sections.name && q.flags
                == (Flags {
                installed: says_installed(sections.data),
                available: !says_installed(sections.data),
            }),
            None => query is None,
        },
{
    match pk_package_id_split(id) {
        Some(parts) => {
            let installed: bool = same_text(parts.data.as_str(), "installed") || starts_with(
                parts.data.as_str(),
                "installed:",
            );
            Some(
                PackageQuery { name: parts.name, flags: Flags { installed, available: !installed } },
            )
        },
        None => None,
    }
}

/// The package of the id `id`, where the registry's first answer to its query is `hit`: that
/// package, if it has the version and the architecture of the id.
pub open spec fn package_of(id: Seq<char>, hit: Option<&Package>) -> Option<&Package> {
    match (sections_of(id), hit) {
        (Some(sections), Some(package)) => if package.architecture@ == sections.arch
            && package.version_identifier@ == sections.version {
            Some(package)
        } else {
            None
        },
        _ => None,
    }
}

/// The package of the id `id`, where the registry's first answer to its query is `hit`.
pub fn moss_get_pkg_from_package_id<'a>(id: &str, hit: Option<&'a Package>) -> (package: Option<
    &'a Package,
>)
    ensures
        package == package_of(id@, hit),
{
    match pk_package_id_split(id) {
        Some(parts) => match hit {
            Some(package) => if package.architecture == parts.arch && package.version_identifier
                == parts.version {
                Some(package)
            } else {
                None
            },
            None => None,
        },
        None => None,
    }
}

/// An id leads back to its package: the query for it asks for the package's name among the
/// packages of its kind, and picks the package from the answer. This needs sections that are
/// valid, and a repository that is not itself named like an installed package's data.
pub proof fn id_leads_back(package: Package, remote: Option<&Package>)
    requires
        package_sections(package, remote).valid(),
        !package.flags.installed ==> match origin_of(remote) {
            Some(origin) => !says_installed(origin),
            None => true,
        },
    ensures
        ({
            let sections = package_sections(package, remote);
            &&& sections_of(sections.text()) == Some(sections)
            &&& says_installed(sections.data) == package.flags.installed
            &&& package_of(sections.text(), Some(&package)) == Some(&package)
        }),
{
    let sections = package_sections(package, remote);
    split_undoes_build(sections);
    reveal_strlit("installed");
    reveal_strlit("installed:");
    reveal_strlit("unknown");
    assert("unknown"@.len() != "installed"@.len());
    match origin_of(remote) {
        Some(origin) => {
            assert("installed:"@.is_prefix_of("installed:"@ + origin));
        },
        None => {
            assert("installed:"@.len() > "unknown"@.len());
        },
    }
}

proof fn section_means_no_separator(text: Seq<char>)
    ensures
        is_section(text) <==> !text.contains(';'),
{
    if !is_section(text) {
        let i = choose|i: int| 0 <= i < text.len() && text[i] == ';';
        assert(text[i] == ';');
    }
}

/// Any four texts without a separator, the first of them not empty, make an id that splits into
/// just these texts.
pub proof fn four_texts_make_an_id(
    name: Seq<char>,
    version: Seq<char>,
    arch: Seq<char>,
    data: Seq<char>,
)
    requires
        name.len() > 0,
        !name.contains(';'),
        !version.contains(';'),
        !arch.contains(';'),
        !data.contains(';'),
    ensures
        sections_of(name + seq![';'] + version + seq![';'] + arch + seq![';'] + data) == Some(
            IdSections { name, version, arch, data },
        ),
{
    let sections = IdSections { name, version, arch, data };
    section_means_no_separator(name);
    section_means_no_separator(version);
    section_means_no_separator(arch);
    section_means_no_separator(data);
    split_undoes_build(sections);
    assert(sections.text() =~= name + seq![';'] + version + seq![';'] + arch + seq![';'] + data);
}

/// What splits into sections is made of four texts without a separator, the first of them not
/// empty.
pub proof fn id_is_made_of_four_texts(text: Seq<char>)
    requires
        sections_of(text) is Some,
    ensures
        ({
            let sections = sections_of(text)->0;
            &&& text == sections.name + seq![';'] + sections.version + seq![';'] + sections.arch
                + seq![';'] + sections.data
            &&& sections.name.len() > 0
            &&& !sections.name.contains(';')
            &&& !sections.version.contains(';')
            &&& !sections.arch.contains(';')
            &&& !sections.data.contains(';')
        }),
{
    let sections = sections_of(text)->0;
    assert(is_id_of(text, sections));
    section_means_no_separator(sections.name);
    section_means_no_separator(sections.version);
    section_means_no_separator(sections.arch);
    section_means_no_separator(sections.data);
}

/// The id of a package tells its name, version and architecture, and the repository that offers
/// it: behind `installed:` where the package is installed. Where no repository is known it tells
/// only whether the package is installed.
pub proof fn id_tells_the_package(package: Package, remote: Option<&Package>)
    ensures
        ({
            let sections = package_sections(package, remote);
            let data = match remote {
                Some(remote) => match remote.origin {
                    Some(origin) => if package.flags.installed {
                        "installed:"@ + origin@
                    } else {
                        origin@
                    },
                    None => if package.flags.installed {
                        "installed"@
                    } else {
                        "unknown"@
                    },
                },
                None => if package.flags.installed {
                    "installed"@
                } else {
                    "unknown"@
                },
            };
            &&& sections.name == package.name@
            &&& sections.version == package.version_identifier@
            &&& sections.arch == package.architecture@
            &&& sections.data == data
            &&& sections.text() == package.name@ + seq![';'] + package.version_identifier@ + seq![';']
                + package.architecture@ + seq![';'] + data
        }),
{
}

/// An id says that its package is installed exactly if the part of its data before the first
/// colon, or all of it where there is none, is `installed`.
pub proof fn kind_stands_before_the_colon(kind: Seq<char>, rest: Seq<char>)
    requires
        !kind.contains(':'),
    ensures
        says_installed(kind) <==> kind == "installed"@,
        says_installed(kind + seq![':'] + rest) <==> kind == "installed"@,
{
    reveal_strlit("installed");
    reveal_strlit("installed:");
    let word = "installed"@;
    let mark = "installed:"@;
    let data = kind + seq![':'] + rest;
    assert(mark =~= word + seq![':']);
    if mark.is_prefix_of(kind) {
        assert(kind[9] == mark[9]);
        assert(kind.contains(':'));
    }
    if kind == word {
        assert(data.subrange(0, mark.len() as int) =~= mark);
        assert(mark.is_prefix_of(data));
    }
    assert(data[kind.len() as int] == ':');
    if data == word {
        assert(word[kind.len() as int] == ':');
    }
    if mark.is_prefix_of(data) {
        assert(mark =~= data.subrange(0, mark.len() as int));
        if kind.len() < 9 {
            assert(mark[kind.len() as int] == ':');
        } else if kind.len() > 9 {
            assert(kind[9] == data[9]);
            assert(mark[9] == ':');
            assert(kind.contains(':'));
        }
        assert(kind.len() == 9);
        assert forall|i: int| 0 <= i < 9 implies kind[i] == word[i] by {
            assert(data[i] == kind[i]);
            assert(mark[i] == word[i]);
        }
        assert(kind =~= word);
    }
}

/// An id leads to the registry's first answer exactly if that has the version and architecture
/// between the separators of the id.
pub proof fn id_leads_to_its_version(
    name: Seq<char>,
    version: Seq<char>,
    arch: Seq<char>,
    data: Seq<char>,
    hit: &Package,
)
    requires
        name.len() > 0,
        !name.contains(';'),
        !version.contains(';'),
        !arch.contains(';'),
        !data.contains(';'),
    ensures
        ({
            let id = name + seq![';'] + version + seq![';'] + arch + seq![';'] + data;
            &&& package_of(id, Some(hit)) == if hit.version_identifier@ == version
                && hit.architecture@ == arch {
                Some(hit)
            } else {
                None
            }
            &&& package_of(id, None) is None
        }),
{
    four_texts_make_an_id(name, version, arch, data);
}

/// What is no id leads to no package.
pub proof fn no_id_leads_nowhere(text: Seq<char>, hit: Option<&Package>)
    requires
        forall|name: Seq<char>, version: Seq<char>, arch: Seq<char>, data: Seq<char>|
            name.len() > 0 && !name.contains(';') && !version.contains(';') && !arch.contains(';')
                && !data.contains(';') ==> text != #[trigger] (name + seq![';'] + version + seq![';']
                + arch + seq![';'] + data),
    ensures
        package_of(text, hit) is None,
{
    if sections_of(text) is Some {
        id_is_made_of_four_texts(text);
        let s = sections_of(text)->0;
        assert(text == s.name + seq![';'] + s.version + seq![';'] + s.arch + seq![';'] + s.data);
    }
}

} // verus!
