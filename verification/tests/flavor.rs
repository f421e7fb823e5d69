use rnp_src::flavor::{Features, Flavor, RNP_HEAD_REF, RNP_VERSION};

#[test]
fn release_flavor_names_its_cache_and_version() {
    let f = Flavor::Release0181B1;
    assert_eq!(f.cache_dir(), "rnp-0.18.1-b1");
    assert_eq!(f.librnp_version(), RNP_VERSION);
    assert!(!f.is_head());
    assert!(f.needs_json_c(), "0.18.1 tarball links json-c");
}

#[test]
fn head_flavor_reports_head_and_pins_its_cache() {
    let f = Flavor::Head;
    assert_eq!(f.librnp_version(), "head");
    assert!(f.is_head());
    // A new pin changes the directory, so artifacts of the old one are not used.
    assert_eq!(f.cache_dir(), format!("rnp-head-{}", &RNP_HEAD_REF[..8]));
    assert!(
        !f.needs_json_c(),
        "librnp main vendors nlohmann/json; no json-c"
    );
}

#[test]
fn cache_dirs_never_collide_across_flavors() {
    let dirs = [Flavor::Release0181B1.cache_dir(), Flavor::Head.cache_dir()];
    assert_ne!(dirs[0], dirs[1]);
}

#[test]
fn from_features_matches_the_compiled_flavor() {
    for pqc in [false, true] {
        for crypto_refresh in [false, true] {
            let features = Features { pqc, crypto_refresh };
            let expect_head = pqc || crypto_refresh;
            assert_eq!(Flavor::from_features(features).is_head(), expect_head);
        }
    }
}

#[test]
fn head_pin_is_a_full_sha() {
    assert_eq!(RNP_HEAD_REF.len(), 40);
    assert!(RNP_HEAD_REF.chars().all(|c| c.is_ascii_hexdigit()));
}

#[test]
fn head_cache_dir_is_exact() {
    assert_eq!(Flavor::Head.cache_dir(), "rnp-head-470695b9");
    assert_eq!(Flavor::Release0181B1.librnp_version(), "0.18.1");
}

#[test]
fn versions_tell_flavors_apart() {
    assert_ne!(
        Flavor::Head.librnp_version(),
        Flavor::Release0181B1.librnp_version()
    );
}
