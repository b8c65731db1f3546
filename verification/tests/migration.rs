use messaging_kernel::migration::parse_platforms;

#[test]
fn all_names_every_platform() {
    assert_eq!(
        parse_platforms("all").unwrap(),
        vec!["swift", "kotlin", "flutter", "react-native", "pwa", "web"]
    );
}

#[test]
fn platforms_are_split_at_commas_and_trimmed() {
    assert_eq!(parse_platforms("swift, kotlin ,web").unwrap(), vec!["swift", "kotlin", "web"]);
    assert_eq!(parse_platforms(" a,,b ").unwrap(), vec!["a", "", "b"]);
    assert_eq!(parse_platforms("").unwrap(), vec![""]);
    assert_eq!(parse_platforms("\u{3000}pwa\u{a0},\tweb\n").unwrap(), vec!["pwa", "web"]);
    assert_eq!(parse_platforms("All").unwrap(), vec!["All"]);
    assert_eq!(parse_platforms("día, 東京").unwrap(), vec!["día", "東京"]);
}
