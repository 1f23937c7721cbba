use archbrew::aur::{
    aur_dependencies, info_url, normalize_dep_name, search_url, url_encode, AurPackageInfo,
};

fn strings(words: &[&str]) -> Vec<String> {
    words.iter().map(|w| w.to_string()).collect()
}

#[test]
fn dependencies_come_in_three_groups() {
    let info = AurPackageInfo {
        name: "x".to_string(),
        version: "1".to_string(),
        description: None,
        package_base: "x".to_string(),
        depends: strings(&["a", "b>=2"]),
        makedepends: strings(&["cmake"]),
        checkdepends: strings(&["a"]),
    };
    assert_eq!(aur_dependencies(&info), strings(&["a", "b>=2", "cmake", "a"]));
}

#[test]
fn clones_hold_the_same() {
    let info = AurPackageInfo {
        name: "x".to_string(),
        version: "1".to_string(),
        description: Some("d".to_string()),
        package_base: "base".to_string(),
        depends: strings(&["a"]),
        makedepends: vec![],
        checkdepends: strings(&["c"]),
    };
    assert_eq!(format!("{:?}", info.clone()), format!("{info:?}"));
}

#[test]
fn names_of_dependencies() {
    assert_eq!(normalize_dep_name("glibc"), "glibc");
    assert_eq!(normalize_dep_name("glibc>=2.38"), "glibc");
    assert_eq!(normalize_dep_name("python<3.13"), "python");
    assert_eq!(normalize_dep_name(" gcc = 14 "), "gcc");
    assert_eq!(normalize_dep_name("=1"), "");
    assert_eq!(normalize_dep_name(""), "");
    assert_eq!(normalize_dep_name("libfoo.so=1-64"), "libfoo.so");
}

#[test]
fn addresses_are_encoded() {
    assert_eq!(url_encode("yay-bin_1.0~rc"), "yay-bin_1.0~rc");
    assert_eq!(url_encode("gtk+"), "gtk%2B");
    assert_eq!(url_encode("a b/c?d%"), "a%20b%2Fc%3Fd%25");
    assert_eq!(url_encode("é"), "%C3%A9");
    assert_eq!(url_encode("\u{0}\u{7f}"), "%00%7F");
    assert_eq!(url_encode(""), "");
    assert_eq!(info_url("gtk+"), "https://aur.archlinux.org/rpc/v5/info/gtk%2B");
    assert_eq!(search_url("gtk +"), "https://aur.archlinux.org/rpc/v5/search/gtk%20%2B");
}

#[test]
fn every_byte_is_encoded_as_it_should_be() {
    let mut code: u32 = 0;
    while code < 0x300 {
        let c = char::from_u32(code).unwrap();
        let mut expected = String::new();
        let mut buffer = [0u8; 4];
        for b in c.encode_utf8(&mut buffer).bytes() {
            if b.is_ascii_alphanumeric() || b == 45 || b == 95 || b == 46 || b == 126 {
                expected.push(b as char);
            } else {
                expected.push_str(&format!("%{b:02X}"));
            }
        }
        assert_eq!(url_encode(&c.to_string()), expected);
        code += 1;
    }
}

#[test]
fn different_names_have_different_addresses() {
    assert_ne!(url_encode("a+b"), url_encode("a%2Bb"));
    assert_ne!(url_encode("a"), url_encode("A"));
}
