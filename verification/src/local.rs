//! Package files outside any repository: what their payloads say about the package.

use vstd::prelude::*;

use crate::package_id::{pk_package_id_build, IdSections};
use crate::signals::{outcome_of, unless_nul};
use crate::signals::{Group, JobSignal, SignalView, UNKNOWN_SIZE};
use crate::text::{all_c_texts, has_nul, joined, no_nul, views_of, CText, NulError};
use crate::text::no_nul_means_no_nul;

verus! {

/// What a record of a meta payload is about. Records that the backend does not read are `Other`.
#[derive(Clone, Copy, PartialEq, Eq, Structural, Debug)]
pub enum MetaTag {
    Name,
    Version,
    Architecture,
    Summary,
    License,
    Description,
    Homepage,
    PackageSize,
    Other,
}

/// The value of a record.
pub enum Primitive {
    Text(String),
    Uint64(u64),
    Other,
}

/// A record of a meta payload.
pub struct MetaRecord {
    pub tag: MetaTag,
    pub primitive: Primitive,
}

/// An entry of a layout payload, with its path below `/usr`.
pub enum LayoutFile {
    Regular(String),
    Directory(String),
    Symlink(String),
    Other,
}

/// A payload of a package file.
pub enum Payload {
    Meta(Vec<MetaRecord>),
    Layout(Vec<LayoutFile>),
    Other,
}

/// The records of all meta payloads in turn. Payloads that could not be decoded are `None`.
pub open spec fn records_of(payloads: Seq<Option<Payload>>) -> Seq<MetaRecord>
    decreases payloads.len(),
{
    if payloads.len() == 0 {
        Seq::empty()
    } else {
        let before = records_of(payloads.drop_last());
        match payloads.last() {
            Some(Payload::Meta(records)) => before + records@,
            _ => before,
        }
    }
}

/// The entries of the last layout payload.
pub open spec fn layout_of(payloads: Seq<Option<Payload>>) -> Seq<LayoutFile>
    decreases payloads.len(),
{
    if payloads.len() == 0 {
        Seq::empty()
    } else {
        match payloads.last() {
            Some(Payload::Layout(files)) => files@,
            _ => layout_of(payloads.drop_last()),
        }
    }
}

/// The text of the last record of kind `tag` that holds a text.
pub open spec fn last_text(records: Seq<MetaRecord>, tag: MetaTag) -> Option<Seq<char>>
    decreases records.len(),
{
    if records.len() == 0 {
        None
    } else if records.last().tag == tag && records.last().primitive is Text {
        Some(records.last().primitive->Text_0@)
    } else {
        last_text(records.drop_last(), tag)
    }
}

/// The number of the last record of kind `tag` that holds a number.
pub open spec fn last_number(records: Seq<MetaRecord>, tag: MetaTag) -> Option<u64>
    decreases records.len(),
{
    if records.len() == 0 {
        None
    } else if records.last().tag == tag && records.last().primitive is Uint64 {
        Some(records.last().primitive->Uint64_0)
    } else {
        last_number(records.drop_last(), tag)
    }
}

/// What the records say about a package.
pub struct LocalPackage {
    pub name: Option<String>,
    pub version: Option<String>,
    pub architecture: Option<String>,
    pub summary: Option<String>,
    pub license: Option<String>,
    pub description: Option<String>,
    pub homepage: Option<String>,
    pub download_size: Option<u64>,
}

/// What the records say about a package.
#[verifier::ext_equal]
pub struct LocalView {
    pub name: Option<Seq<char>>,
    pub version: Option<Seq<char>>,
    pub architecture: Option<Seq<char>>,
    pub summary: Option<Seq<char>>,
    pub license: Option<Seq<char>>,
    pub description: Option<Seq<char>>,
    pub homepage: Option<Seq<char>>,
    pub download_size: Option<u64>,
}

/// The text behind an optional string.
pub open spec fn optional_text(text: Option<String>) -> Option<Seq<char>> {
    match text {
        Some(text) => Some(text@),
        None => None,
    }
}

impl View for LocalPackage {
    type V = LocalView;

    open spec fn view(&self) -> LocalView {
        LocalView {
            name: optional_text(self.name),
            version: optional_text(self.version),
            architecture: optional_text(self.architecture),
            summary: optional_text(self.summary),
            license: optional_text(self.license),
            description: optional_text(self.description),
            homepage: optional_text(self.homepage),
            download_size: self.download_size,
        }
    }
}

/// What `records` say about a package: of each field, the last record that fits.
pub open spec fn described_by(records: Seq<MetaRecord>) -> LocalView {
    LocalView {
        name: last_text(records, MetaTag::Name),
        version: last_text(records, MetaTag::Version),
        architecture: last_text(records, MetaTag::Architecture),
        summary: last_text(records, MetaTag::Summary),
        license: last_text(records, MetaTag::License),
        description: last_text(records, MetaTag::Description),
        homepage: last_text(records, MetaTag::Homepage),
        download_size: last_number(records, MetaTag::PackageSize),
    }
}

impl LocalView {
    /// Whether every text that a package's details need is there.
    pub open spec fn complete(self) -> bool {
        &&& self.name is Some
        &&& self.version is Some
        &&& self.architecture is Some
        &&& self.summary is Some
        &&& self.license is Some
        &&& self.description is Some
        &&& self.homepage is Some
    }

    /// Whether the texts of the package's id are there and hold no NUL.
    pub open spec fn identified(self) -> bool {
        &&& self.name matches Some(name) && no_nul(name)
        &&& self.version matches Some(version) && no_nul(version)
        &&& self.architecture matches Some(architecture) && no_nul(architecture)
    }

    /// The id of the package: its name, version and architecture, and that it is a local file.
    pub open spec fn id(self) -> Seq<char> {
        (IdSections {
            name: self.name->0,
            version: self.version->0,
            arch: self.architecture->0,
            data: "local"@,
        }).text()
    }

    /// The texts of the package's details, in the order in which they are read.
    pub open spec fn texts(self) -> Seq<Seq<char>> {
        seq![
            self.name->0,
            self.version->0,
            self.architecture->0,
            self.summary->0,
            self.description->0,
            self.homepage->0,
            self.license->0,
        ]
    }

    /// The package's details.
    pub open spec fn details(self) -> SignalView {
        SignalView::Details {
            id: self.id(),
            summary: self.summary->0,
            license: self.license->0,
            description: self.description->0,
            url: self.homepage->0,
            group: Group::Unknown,
            size: UNKNOWN_SIZE,
            download_size: match self.download_size {
                Some(size) => size,
                None => UNKNOWN_SIZE,
            },
        }
    }
}

impl LocalPackage {
    /// A package of which nothing is known.
    fn unknown() -> (package: LocalPackage)
        ensures
            package@ == described_by(Seq::empty()),
    {
        LocalPackage {
            name: None,
            version: None,
            architecture: None,
            summary: None,
            license: None,
            description: None,
            homepage: None,
            download_size: None,
        }
    }

    /// Takes in a further record.
    fn read_record(&mut self, record: &MetaRecord)
        ensures
            forall|before: Seq<MetaRecord>|
                old(self)@ == #[trigger] described_by(before) ==> final(self)@ == described_by(
                    before.push(*record),
                ),
    {
        proof {
            assert forall|before: Seq<MetaRecord>|
                #![trigger described_by(before)]
                before.push(*record).drop_last() == before && before.push(*record).last()
                    == *record by {
                assert(before.push(*record).drop_last() =~= before);
            }
        }
        match &record.primitive {
            Primitive::Text(text) => match record.tag {
                MetaTag::Name => self.name = Some(text.clone()),
                MetaTag::Version => self.version = Some(text.clone()),
                MetaTag::Architecture => self.architecture = Some(text.clone()),
                MetaTag::Summary => self.summary = Some(text.clone()),
                MetaTag::License => self.license = Some(text.clone()),
                MetaTag::Description => self.description = Some(text.clone()),
                MetaTag::Homepage => self.homepage = Some(text.clone()),
                _ => {},
            },
            Primitive::Uint64(number) => match record.tag {
                MetaTag::PackageSize => self.download_size = Some(*number),
                _ => {},
            },
            Primitive::Other => {},
        }
    }

    /// Whether every text that the details need is there.
    pub fn is_complete(&self) -> (complete: bool)
        ensures
            complete == self@.complete(),
    {
        self.name.is_some() && self.version.is_some() && self.architecture.is_some()
            && self.summary.is_some() && self.license.is_some() && self.description.is_some()
            && self.homepage.is_some()
    }

    /// Whether the texts of the id are there and hold no NUL.
    pub fn is_identified(&self) -> (identified: bool)
        ensures
            identified == self@.identified(),
    {
        match (&self.name, &self.version, &self.architecture) {
            (Some(name), Some(version), Some(architecture)) => !has_nul(name.as_str()) && !has_nul(
                version.as_str(),
            ) && !has_nul(architecture.as_str()),
            _ => false,
        }
    }
}

/// Reads what the payloads say about the package.
pub fn read_local_package(payloads: &Vec<Option<Payload>>) -> (package: LocalPackage)
    ensures
        package@ == described_by(records_of(payloads@)),
{
    let mut package: LocalPackage = LocalPackage::unknown();
    let mut i: usize = 0;
    assert(payloads@.take(0) =~= Seq::empty());
    while i < payloads.len()
        invariant
            i <= payloads@.len(),
            package@ == described_by(records_of(payloads@.take(i as int))),
        decreases payloads@.len() - i,
    {
        let ghost before = records_of(payloads@.take(i as int));
        assert(payloads@.take(i + 1).drop_last() =~= payloads@.take(i as int));
        if let Some(Payload::Meta(records)) = &payloads[i] {
            let mut j: usize = 0;
            assert(before + records@.take(0) =~= before);
            while j < records.len()
                invariant
                    j <= records@.len(),
                    package@ == described_by(before + records@.take(j as int)),
                decreases records@.len() - j,
            {
                package.read_record(&records[j]);
                assert((before + records@.take(j as int)).push(records@[j as int]) =~= before
                    + records@.take(j + 1));
                j += 1;
            }
            assert(records@.take(records@.len() as int) =~= records@);
        }
        i += 1;
    }
    assert(payloads@.take(payloads@.len() as int) =~= payloads@);
    package
}

/// The id of a package file's package.
pub fn local_package_id(package: &LocalPackage) -> (id: CText)
    requires
        package@.identified(),
    ensures
        id@ == package@.id(),
{
    let name: &String = package.name.as_ref().unwrap();
    let version: &String = package.version.as_ref().unwrap();
    let architecture: &String = package.architecture.as_ref().unwrap();
    let id: String = pk_package_id_build(
        name.as_str(),
        version.as_str(),
        architecture.as_str(),
        "local",
    );
    proof {
        reveal_strlit("local");
    }
    CText::known(id.as_str())
}

/// Reports the details of a package file's package, unless one of its texts holds a NUL.
pub fn local_details_signal(package: &LocalPackage) -> (result: Result<JobSignal, NulError>)
    requires
        package@.complete(),
    ensures
        outcome_of(result) == unless_nul(package@.texts(), package@.details()),
{
    let texts: Vec<&str> = vec![
        package.name.as_ref().unwrap().as_str(),
        package.version.as_ref().unwrap().as_str(),
        package.architecture.as_ref().unwrap().as_str(),
        package.summary.as_ref().unwrap().as_str(),
        package.description.as_ref().unwrap().as_str(),
        package.homepage.as_ref().unwrap().as_str(),
        package.license.as_ref().unwrap().as_str(),
    ];
    assert(views_of(texts@) =~= package@.texts());
    let list: Vec<CText> = match all_c_texts(&texts) {
        Ok(list) => list,
        Err(e) => return Err(e),
    };
    assert(list@[0]@ == texts@[0]@ && list@[1]@ == texts@[1]@ && list@[2]@ == texts@[2]@);
    let download_size: u64 = match package.download_size {
        Some(size) => size,
        None => UNKNOWN_SIZE,
    };
    Ok(
        JobSignal::Details {
            id: local_package_id(package),
            summary: list[3].copy(),
            license: list[6].copy(),
            description: list[4].copy(),
            url: list[5].copy(),
            group: Group::Unknown,
            size: UNKNOWN_SIZE,
            download_size,
        },
    )
}

/// The path of a layout entry below `/usr`, if it is a regular file, a directory or a link.
pub open spec fn target_of(file: LayoutFile) -> Option<Seq<char>> {
    match file {
        LayoutFile::Regular(target) => Some(target@),
        LayoutFile::Directory(target) => Some(target@),
        LayoutFile::Symlink(target) => Some(target@),
        LayoutFile::Other => None,
    }
}

/// The installed paths of the regular files, directories and links of a layout, in their order.
pub open spec fn listed_paths(files: Seq<LayoutFile>) -> Seq<Seq<char>>
    decreases files.len(),
{
    if files.len() == 0 {
        Seq::empty()
    } else {
        let before = listed_paths(files.drop_last());
        match target_of(files.last()) {
            Some(target) => before.push("/usr/"@ + target),
            None => before,
        }
    }
}

/// The path of a layout entry below `/usr`, if it is a regular file, a directory or a link.
pub fn layout_target(file: &LayoutFile) -> (target: Option<&String>)
    ensures
        match target {
            Some(target) => target_of(*file) == Some(target@),
            None => target_of(*file) is None,
        },
{
    match file {
        LayoutFile::Regular(target) => Some(target),
        LayoutFile::Directory(target) => Some(target),
        LayoutFile::Symlink(target) => Some(target),
        LayoutFile::Other => None,
    }
}

/// The installed paths of the regular files, directories and links of the last layout payload.
pub fn local_paths(payloads: &Vec<Option<Payload>>) -> (paths: Vec<String>)
    ensures
        paths.deep_view() == listed_paths(layout_of(payloads@)),
{
    let mut paths: Vec<String> = Vec::new();
    let mut i: usize = payloads.len();
    assert(payloads@.take(payloads@.len() as int) =~= payloads@);
    while i > 0
        invariant
            i <= payloads@.len(),
            paths@.len() == 0,
            layout_of(payloads@) == layout_of(payloads@.take(i as int)),
        decreases i,
    {
        i -= 1;
        assert(payloads@.take(i + 1).drop_last() =~= payloads@.take(i as int));
        if let Some(Payload::Layout(files)) = &payloads[i] {
            let mut j: usize = 0;
            assert(paths.deep_view() =~= listed_paths(files@.take(0)));
            while j < files.len()
                invariant
                    j <= files@.len(),
                    paths.deep_view() == listed_paths(files@.take(j as int)),
                decreases files@.len() - j,
            {
                assert(files@.take(j + 1).drop_last() =~= files@.take(j as int));
                if let Some(target) = layout_target(&files[j]) {
                    let ghost before = paths.deep_view();
                    paths.push(joined("/usr/", target.as_str()));
                    assert(paths.deep_view() =~= before.push("/usr/"@ + target@));
                }
                j += 1;
            }
            assert(files@.take(files@.len() as int) =~= files@);
            return paths;
        }
    }
    assert(paths.deep_view() =~= Seq::<Seq<char>>::empty());
    paths
}

/// Every path that is reported of a package file lies below `/usr`.
pub proof fn local_paths_below_usr(files: Seq<LayoutFile>, at: int)
    requires
        0 <= at < listed_paths(files).len(),
    ensures
        "/usr/"@.is_prefix_of(listed_paths(files)[at]),
    decreases files.len(),
{
    let before = listed_paths(files.drop_last());
    if at < before.len() {
        local_paths_below_usr(files.drop_last(), at);
    } else {
        let target = target_of(files.last())->0;
        assert(("/usr/"@ + target).subrange(0, "/usr/"@.len() as int) =~= "/usr/"@);
    }
}

/// A further record replaces the one field that its tag names, if its value is of the kind that the
/// field takes, and leaves every other field as it is.
pub proof fn later_records_replace_earlier_ones(records: Seq<MetaRecord>, record: MetaRecord)
    ensures
        ({
            let before = described_by(records);
            let after = described_by(records.push(record));
            let text = match record.primitive {
                Primitive::Text(text) => Some(text@),
                _ => None,
            };
            &&& after.name == if record.tag is Name && text is Some {
                text
            } else {
                before.name
            }
            &&& after.version == if record.tag is Version && text is Some {
                text
            } else {
                before.version
            }
            &&& after.architecture == if record.tag is Architecture && text is Some {
                text
            } else {
                before.architecture
            }
            &&& after.summary == if record.tag is Summary && text is Some {
                text
            } else {
                before.summary
            }
            &&& after.license == if record.tag is License && text is Some {
                text
            } else {
                before.license
            }
            &&& after.description == if record.tag is Description && text is Some {
                text
            } else {
                before.description
            }
            &&& after.homepage == if record.tag is Homepage && text is Some {
                text
            } else {
                before.homepage
            }
            &&& after.download_size == match record.primitive {
                Primitive::Uint64(number) => if record.tag is PackageSize {
                    Some(number)
                } else {
                    before.download_size
                },
                _ => before.download_size,
            }
        }),
{
    assert(records.push(record).drop_last() =~= records);
}

/// Without records nothing is known of a package.
pub proof fn no_records_say_nothing()
    ensures
        ({
            let nothing = described_by(Seq::empty());
            &&& nothing.name is None
            &&& nothing.version is None
            &&& nothing.architecture is None
            &&& nothing.summary is None
            &&& nothing.license is None
            &&& nothing.description is None
            &&& nothing.homepage is None
            &&& nothing.download_size is None
        }),
{
}

/// A further payload adds its records if it is a meta payload, replaces the layout if it is a
/// layout payload, and changes nothing if it is neither or cannot be read.
pub proof fn payloads_are_read_one_by_one(payloads: Seq<Option<Payload>>, payload: Option<Payload>)
    ensures
        match payload {
            Some(Payload::Meta(records)) => {
                &&& records_of(payloads.push(payload)) == records_of(payloads) + records@
                &&& layout_of(payloads.push(payload)) == layout_of(payloads)
            },
            Some(Payload::Layout(files)) => {
                &&& records_of(payloads.push(payload)) == records_of(payloads)
                &&& layout_of(payloads.push(payload)) == files@
            },
            _ => {
                &&& records_of(payloads.push(payload)) == records_of(payloads)
                &&& layout_of(payloads.push(payload)) == layout_of(payloads)
            },
        },
        records_of(Seq::empty()).len() == 0,
        layout_of(Seq::empty()).len() == 0,
{
    assert(payloads.push(payload).drop_last() =~= payloads);
}

/// A further entry of a layout adds its path below `/usr/`, unless it is neither a regular file nor
/// a directory nor a link.
pub proof fn paths_grow_one_by_one(files: Seq<LayoutFile>, file: LayoutFile)
    ensures
        listed_paths(files.push(file)) == match file {
            LayoutFile::Regular(target) => listed_paths(files).push("/usr/"@ + target@),
            LayoutFile::Directory(target) => listed_paths(files).push("/usr/"@ + target@),
            LayoutFile::Symlink(target) => listed_paths(files).push("/usr/"@ + target@),
            LayoutFile::Other => listed_paths(files),
        },
        listed_paths(Seq::empty()).len() == 0,
{
    assert(files.push(file).drop_last() =~= files);
}

/// The details of a package file are what its records say, under the id of its name, version and
/// architecture.
pub proof fn local_details_are_the_packages_own(
    package: LocalView,
    name: Seq<char>,
    version: Seq<char>,
    architecture: Seq<char>,
)
    requires
        package.name == Some(name),
        package.version == Some(version),
        package.architecture == Some(architecture),
        package.summary is Some,
        package.license is Some,
        package.description is Some,
        package.homepage is Some,
    ensures
        package.complete(),
        package.id() == name + seq![';'] + version + seq![';'] + architecture + seq![';']
            + "local"@,
        ({
            let details = package.details();
            &&& details is Details
            &&& details->Details_id == name + seq![';'] + version + seq![';'] + architecture + seq![
                ';',
            ] + "local"@
            &&& Some(details->Details_summary) == package.summary
            &&& Some(details->Details_license) == package.license
            &&& Some(details->Details_description) == package.description
            &&& Some(details->Details_url) == package.homepage
            &&& details->Details_size == u64::MAX
            &&& package.download_size matches Some(size) ==> details->Details_download_size == size
            &&& package.download_size is None ==> details->Details_download_size == u64::MAX
        }),
        package.texts() == seq![
            name,
            version,
            architecture,
            package.summary->0,
            package.description->0,
            package.homepage->0,
            package.license->0,
        ],
{
}

/// A package file has an id exactly if its name, version and architecture are there and hold no
/// NUL, and details exactly if all seven texts are there.
pub proof fn what_a_package_file_must_say(package: LocalView)
    ensures
        package.identified() <==> {
            &&& package.name matches Some(name) && !name.contains('\0')
            &&& package.version matches Some(version) && !version.contains('\0')
            &&& package.architecture matches Some(architecture) && !architecture.contains('\0')
        },
        package.complete() <==> {
            &&& package.name is Some
            &&& package.version is Some
            &&& package.architecture is Some
            &&& package.summary is Some
            &&& package.license is Some
            &&& package.description is Some
            &&& package.homepage is Some
        },
{
    no_nul_means_no_nul(package.name->0);
    no_nul_means_no_nul(package.version->0);
    no_nul_means_no_nul(package.architecture->0);
}

/// What is known of a package file is what its fields hold.
pub proof fn package_files_show_their_fields(package: LocalPackage)
    ensures
        package.name matches Some(text) ==> package@.name == Some(text@),
        package.name is None ==> package@.name is None,
        package.version matches Some(text) ==> package@.version == Some(text@),
        package.version is None ==> package@.version is None,
        package.architecture matches Some(text) ==> package@.architecture == Some(text@),
        package.architecture is None ==> package@.architecture is None,
        package.summary matches Some(text) ==> package@.summary == Some(text@),
        package.summary is None ==> package@.summary is None,
        package.license matches Some(text) ==> package@.license == Some(text@),
        package.license is None ==> package@.license is None,
        package.description matches Some(text) ==> package@.description == Some(text@),
        package.description is None ==> package@.description is None,
        package.homepage matches Some(text) ==> package@.homepage == Some(text@),
        package.homepage is None ==> package@.homepage is None,
        package@.download_size == package.download_size,
{
}

} // verus!
