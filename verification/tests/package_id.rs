use pk_backend_moss::package::{first_remote, flags_for, is_newest, Flags, Package};
use pk_backend_moss::package_id::{
    moss_build_package_id_from_registry, moss_get_pkg_from_package_id, package_query,
    pk_get_distro_id, pk_package_id_build, pk_package_id_check, pk_package_id_split,
};

fn package(name: &str, version: &str, arch: &str, installed: bool) -> Package {
    Package {
        id: format!("{}-id", name),
        name: name.to_string(),
        version_identifier: version.to_string(),
        source_release: 1,
        architecture: arch.to_string(),
        summary: String::new(),
        description: String::new(),
        homepage: String::new(),
        licenses: Vec::new(),
        download_size: None,
        origin: None,
        flags: Flags { installed, available: !installed },
    }
}

fn offered(origin: Option<&str>) -> Package {
    let mut remote = package("firefox", "141", "x86_64", false);
    remote.origin = origin.map(|o| o.to_string());
    remote
}

fn id_of(package: &Package, remote: Option<&Package>) -> String {
    match moss_build_package_id_from_registry(package, remote) {
        Ok(id) => id.as_str().to_string(),
        Err(e) => panic!("refused: {}", e.text),
    }
}

#[test]
fn pk_distro() {
    let distro = pk_get_distro_id("aerynos", "2025.07", "x86_64");
    println!("distro {}", distro);
    assert_eq!(distro, "aerynos;2025.07;x86_64");
}

#[test]
fn packagekit_id_check() {
    let id = pk_package_id_build("firefox", "140.0.4-367", "x86_64", "installed:Unstable");

    let id_ok = pk_package_id_check(&id);
    assert_eq!(1, i32::from(id_ok));
}

#[test]
fn build_joins_the_sections() {
    assert_eq!(pk_package_id_build("a", "1", "x", "d"), "a;1;x;d");
    assert_eq!(pk_package_id_build("a", "", "", ""), "a;;;");
}

#[test]
fn check_counts_sections() {
    assert!(pk_package_id_check("a;;;"));
    assert!(pk_package_id_check("a;1;x;d"));
    assert!(!pk_package_id_check(""));
    assert!(!pk_package_id_check("a"));
    assert!(!pk_package_id_check("a;1;x"));
    assert!(!pk_package_id_check("a;1;x;d;e"));
    assert!(!pk_package_id_check(";1;x;d"));
}

#[test]
fn split_gives_back_the_sections() {
    let parts = pk_package_id_split("bücher;1.0-2;x86_64;installed:volatile").unwrap();
    assert_eq!(parts.name, "bücher");
    assert_eq!(parts.version, "1.0-2");
    assert_eq!(parts.arch, "x86_64");
    assert_eq!(parts.data, "installed:volatile");
    assert!(pk_package_id_split("a;1;x").is_none());
}

#[test]
fn a_separator_in_a_section_spoils_the_id() {
    assert!(!pk_package_id_check(&pk_package_id_build("a;b", "1", "x", "d")));
    assert!(!pk_package_id_check(&pk_package_id_build("", "1", "x", "d")));
}

#[test]
fn id_names_the_origin() {
    let installed = package("firefox", "140", "x86_64", true);
    let available = package("firefox", "141", "x86_64", false);
    let known = offered(Some("volatile"));
    let nameless = offered(None);
    assert_eq!(id_of(&installed, Some(&known)), "firefox;140;x86_64;installed:volatile");
    assert_eq!(id_of(&installed, Some(&nameless)), "firefox;140;x86_64;installed");
    assert_eq!(id_of(&installed, None), "firefox;140;x86_64;installed");
    assert_eq!(id_of(&available, Some(&known)), "firefox;141;x86_64;volatile");
    assert_eq!(id_of(&available, Some(&nameless)), "firefox;141;x86_64;unknown");
    assert_eq!(id_of(&available, None), "firefox;141;x86_64;unknown");
}

#[test]
fn id_refuses_the_first_section_with_a_nul() {
    let mut broken = package("fire\0fox", "14\00", "x86_64", true);
    match moss_build_package_id_from_registry(&broken, None) {
        Ok(_) => panic!("a NUL in the name"),
        Err(e) => assert_eq!(e.text, "fire\0fox"),
    }
    broken.name = "firefox".to_string();
    match moss_build_package_id_from_registry(&broken, None) {
        Ok(_) => panic!("a NUL in the version"),
        Err(e) => assert_eq!(e.text, "14\00"),
    }
    broken.version_identifier = "140".to_string();
    broken.architecture = "\0".to_string();
    match moss_build_package_id_from_registry(&broken, None) {
        Ok(_) => panic!("a NUL in the architecture"),
        Err(e) => assert_eq!(e.text, "\0"),
    }
    broken.architecture = "x86_64".to_string();
    match moss_build_package_id_from_registry(&broken, Some(&offered(Some("vol\0atile")))) {
        Ok(_) => panic!("a NUL in the origin"),
        Err(e) => assert_eq!(e.text, "installed:vol\0atile"),
    }
}

#[test]
fn query_follows_the_data_section() {
    let query = package_query("firefox;140;x86_64;installed:volatile").unwrap();
    assert_eq!(query.name, "firefox");
    assert_eq!(query.flags, Flags { installed: true, available: false });
    let query = package_query("firefox;140;x86_64;installed").unwrap();
    assert_eq!(query.flags, Flags { installed: true, available: false });
    let query = package_query("firefox;140;x86_64;volatile").unwrap();
    assert_eq!(query.flags, Flags { installed: false, available: true });
    let query = package_query("firefox;140;x86_64;installedx").unwrap();
    assert_eq!(query.flags, Flags { installed: false, available: true });
    let query = package_query("firefox;140;x86_64;").unwrap();
    assert_eq!(query.flags, Flags { installed: false, available: true });
    assert!(package_query("firefox").is_none());
}

#[test]
fn a_hit_must_have_the_version_and_the_architecture() {
    let hit = package("firefox", "140", "x86_64", true);
    let id = "firefox;140;x86_64;installed";
    assert!(moss_get_pkg_from_package_id(id, Some(&hit)).is_some());
    assert!(moss_get_pkg_from_package_id(id, None).is_none());
    assert!(moss_get_pkg_from_package_id("firefox;141;x86_64;installed", Some(&hit)).is_none());
    assert!(moss_get_pkg_from_package_id("firefox;140;aarch64;installed", Some(&hit)).is_none());
    assert!(moss_get_pkg_from_package_id("firefox;140;x86_64", Some(&hit)).is_none());
}

#[test]
fn an_id_leads_back_to_its_package() {
    let installed = package("firefox", "140", "x86_64", true);
    let known = offered(Some("volatile"));
    let id = id_of(&installed, Some(&known));
    let query = package_query(&id).unwrap();
    assert_eq!(query.name, installed.name);
    assert!(query.flags.installed);
    assert_eq!(moss_get_pkg_from_package_id(&id, Some(&installed)).unwrap().id, "firefox-id");
}

#[test]
fn filters_choose_the_query() {
    let installed = Flags { installed: true, available: false };
    let available = Flags { installed: false, available: true };
    let every = Flags { installed: false, available: false };
    assert_eq!(flags_for(1 << 2), installed);
    assert_eq!(flags_for(1 << 3), available);
    assert_eq!(flags_for(1 << 2 | 1 << 3), installed);
    assert_eq!(flags_for(0), every);
    assert_eq!(flags_for(1 << 16), every);
    assert!(is_newest(1 << 16));
    assert!(is_newest(1 << 17));
    assert!(!is_newest(1 << 15 | 1 << 18));
}

#[test]
fn first_remote_skips_installed_packages() {
    let list = vec![
        package("a", "1", "x", true),
        package("b", "1", "x", false),
        package("c", "1", "x", false),
    ];
    assert_eq!(first_remote(&list).unwrap().name, "b");
    assert!(first_remote(&vec![package("a", "1", "x", true)]).is_none());
    assert!(first_remote(&Vec::new()).is_none());
}
