use ipgeod::errors::{ApiError, BuildError};
use ipgeod::herrbischoff::{HerrbischoffProvider, SourceFile};
use ipgeod::ip2location::Ip2locationProvider;
use ipgeod::ipv4_value;
use ipgeod::provider::IpgeoProvider;

fn file(name: &str, lines: &[&str]) -> SourceFile {
    SourceFile {
        name: name.to_string(),
        lines: lines.iter().map(|l| l.to_string()).collect(),
    }
}

fn rows(lines: &[&str]) -> Vec<String> {
    lines.iter().map(|l| l.to_string()).collect()
}

#[test]
fn block_store_scenario() {
    let files = vec![file("us.cidr", &["203.0.113.0/24"])];
    let store = HerrbischoffProvider::from_repo(&files).unwrap();
    assert_eq!(
        store.get_ipv4_country(ipv4_value(203, 0, 113, 5)),
        Some("US".to_string())
    );
    assert_eq!(store.get_ipv4_country(ipv4_value(8, 8, 8, 8)), None);
}

#[test]
fn block_store_prefix_edges() {
    let files = vec![
        file("de.cidr", &["10.0.0.1/32"]),
        file("fr.cidr", &["0.0.0.0/0"]),
    ];
    let store = HerrbischoffProvider::from_repo(&files).unwrap();
    // An exact /32 block matches only its own address.
    assert_eq!(
        store.get_ipv4_country(ipv4_value(10, 0, 0, 1)),
        Some("DE".to_string())
    );
    // A /0 block matches everything, so the first match wins elsewhere.
    assert_eq!(
        store.get_ipv4_country(ipv4_value(10, 0, 0, 2)),
        Some("FR".to_string())
    );
    assert_eq!(
        store.get_ipv4_country(ipv4_value(255, 255, 255, 255)),
        Some("FR".to_string())
    );
}

#[test]
fn block_store_first_match_in_store_order() {
    let files = vec![
        file("aa.cidr", &["198.51.100.0/24"]),
        file("bb.cidr", &["198.51.100.0/25"]),
    ];
    let store = HerrbischoffProvider::from_repo(&files).unwrap();
    assert_eq!(
        store.get_ipv4_country(ipv4_value(198, 51, 100, 7)),
        Some("AA".to_string())
    );
}

#[test]
fn block_store_country_from_file_name() {
    let files = vec![file("usa.cidr", &["203.0.113.0/24"])];
    assert_eq!(
        HerrbischoffProvider::from_repo(&files).unwrap_err(),
        BuildError::Validation
    );
}

#[test]
fn block_store_bad_literals() {
    for bad in [
        "203.0.113.0",
        "203.0.113.0/",
        "203.0.113.0/ab",
        "203.0.113.0/33",
        "203.0.113/24",
        "256.0.113.0/24",
        "203.0.113.x/24",
        "",
    ] {
        let files = vec![file("us.cidr", &[bad])];
        assert_eq!(
            HerrbischoffProvider::from_repo(&files).unwrap_err(),
            BuildError::Parse,
            "literal {bad:?} should be rejected"
        );
    }
}

#[test]
fn block_store_fails_fast_across_files() {
    let files = vec![
        file("us.cidr", &["203.0.113.0/24"]),
        file("ca.cidr", &["not a block"]),
    ];
    assert_eq!(
        HerrbischoffProvider::from_repo(&files).unwrap_err(),
        BuildError::Parse
    );
}

#[test]
fn sorted_range_store_scenario() {
    let lines = rows(&[
        "\"16777216\",\"16777471\",\"US\"",
        "\"16777472\",\"16777727\",\"-\"",
    ]);
    let store = Ip2locationProvider::from_db(&lines).unwrap();
    assert_eq!(store.get_ipv4_country(16777300), Some("US".to_string()));
    assert_eq!(store.get_ipv4_country(16777500), None);
}

#[test]
fn sorted_range_store_boundaries() {
    let lines = rows(&[
        "\"16777216\",\"16777471\",\"US\"",
        "\"16777472\",\"16777727\",\"CA\"",
    ]);
    let store = Ip2locationProvider::from_db(&lines).unwrap();
    // Both endpoints of a retained interval resolve to its country.
    assert_eq!(store.get_ipv4_country(16777216), Some("US".to_string()));
    assert_eq!(store.get_ipv4_country(16777471), Some("US".to_string()));
    // One past an endpoint resolves to the adjacent interval if covered.
    assert_eq!(store.get_ipv4_country(16777472), Some("CA".to_string()));
    assert_eq!(store.get_ipv4_country(16777727), Some("CA".to_string()));
    // Outside every interval: not found.
    assert_eq!(store.get_ipv4_country(16777215), None);
    assert_eq!(store.get_ipv4_country(16777728), None);
}

#[test]
fn sorted_range_store_gap() {
    let lines = rows(&["\"100\",\"200\",\"US\"", "\"300\",\"400\",\"CA\""]);
    let store = Ip2locationProvider::from_db(&lines).unwrap();
    assert_eq!(store.get_ipv4_country(200), Some("US".to_string()));
    assert_eq!(store.get_ipv4_country(201), None);
    assert_eq!(store.get_ipv4_country(250), None);
    assert_eq!(store.get_ipv4_country(299), None);
    assert_eq!(store.get_ipv4_country(300), Some("CA".to_string()));
}

#[test]
fn three_records_ordering_failure() {
    let lines = rows(&["\"100\",\"200\",\"US\"", "\"150\",\"300\",\"CA\""]);
    assert_eq!(
        Ip2locationProvider::from_db(&lines).unwrap_err(),
        BuildError::Ordering
    );
}

#[test]
fn touching_ranges_ordering_failure() {
    // A start equal to the previous end is already a violation.
    let lines = rows(&["\"100\",\"200\",\"US\"", "\"200\",\"300\",\"CA\""]);
    assert_eq!(
        Ip2locationProvider::from_db(&lines).unwrap_err(),
        BuildError::Ordering
    );
}

#[test]
fn inverted_range_ordering_failure() {
    let lines = rows(&["\"200\",\"100\",\"US\""]);
    assert_eq!(
        Ip2locationProvider::from_db(&lines).unwrap_err(),
        BuildError::Ordering
    );
}

#[test]
fn sentinel_row_is_dropped_not_skipped_leniently() {
    // A sentinel row still must carry well-formed numbers.
    let lines = rows(&["\"abc\",\"200\",\"-\""]);
    assert_eq!(
        Ip2locationProvider::from_db(&lines).unwrap_err(),
        BuildError::Parse
    );
}

#[test]
fn range_store_bad_rows() {
    for bad in [
        "\"100\",\"200\"",
        "100,200,US",
        "",
        "\"100\",\"abc\",\"US\"",
        "\"\",\"200\",\"US\"",
        "\"4294967296\",\"4294967297\",\"US\"",
    ] {
        let lines = rows(&[bad]);
        assert_eq!(
            Ip2locationProvider::from_db(&lines).unwrap_err(),
            BuildError::Parse,
            "row {bad:?} should be rejected"
        );
    }
}

#[test]
fn range_store_country_validation() {
    let lines = rows(&["\"100\",\"200\",\"USA\""]);
    assert_eq!(
        Ip2locationProvider::from_db(&lines).unwrap_err(),
        BuildError::Validation
    );
    let lines = rows(&["\"100\",\"200\",\"u\""]);
    assert_eq!(
        Ip2locationProvider::from_db(&lines).unwrap_err(),
        BuildError::Validation
    );
}

#[test]
fn range_store_uppercases_country() {
    let lines = rows(&["\"100\",\"200\",\"us\""]);
    let store = Ip2locationProvider::from_db(&lines).unwrap();
    assert_eq!(store.get_ipv4_country(150), Some("US".to_string()));
}

#[test]
fn range_store_ignores_trailing_fields() {
    let lines = rows(&["\"100\",\"200\",\"US\",\"United States\""]);
    let store = Ip2locationProvider::from_db(&lines).unwrap();
    assert_eq!(store.get_ipv4_country(100), Some("US".to_string()));
}

#[test]
fn construction_is_idempotent() {
    let lines = rows(&[
        "\"100\",\"200\",\"US\"",
        "\"201\",\"300\",\"-\"",
        "\"301\",\"400\",\"ca\"",
    ]);
    let a = Ip2locationProvider::from_db(&lines).unwrap();
    let b = Ip2locationProvider::from_db(&lines).unwrap();
    for q in [0u32, 99, 100, 150, 200, 201, 250, 300, 301, 350, 400, 401, u32::MAX] {
        assert_eq!(a.get_ipv4_country(q), b.get_ipv4_country(q));
    }

    let files = vec![file("us.cidr", &["203.0.113.0/24", "198.51.100.0/25"])];
    let c = HerrbischoffProvider::from_repo(&files).unwrap();
    let d = HerrbischoffProvider::from_repo(&files).unwrap();
    for q in [
        ipv4_value(203, 0, 113, 0),
        ipv4_value(203, 0, 113, 255),
        ipv4_value(198, 51, 100, 7),
        ipv4_value(8, 8, 8, 8),
    ] {
        assert_eq!(c.get_ipv4_country(q), d.get_ipv4_country(q));
    }
}

#[test]
fn facade_selects_exactly_one_backend() {
    let files = vec![file("us.cidr", &["203.0.113.0/24"])];
    let lines = rows(&["\"100\",\"200\",\"US\""]);

    let p = IpgeoProvider::from_sources(Some(&files), None).unwrap();
    assert_eq!(
        p.get_ipv4_country(ipv4_value(203, 0, 113, 5)),
        Some("US".to_string())
    );

    let p = IpgeoProvider::from_sources(None, Some(&lines)).unwrap();
    assert_eq!(p.get_ipv4_country(150), Some("US".to_string()));

    assert_eq!(
        IpgeoProvider::from_sources(None, None).unwrap_err(),
        BuildError::Configuration
    );
    assert_eq!(
        IpgeoProvider::from_sources(Some(&files), Some(&lines)).unwrap_err(),
        BuildError::Configuration
    );
}

#[test]
fn facade_forwards_construction_failure() {
    let files = vec![file("us.cidr", &["bogus"])];
    assert_eq!(
        IpgeoProvider::from_sources(Some(&files), None).unwrap_err(),
        BuildError::Parse
    );
}

#[test]
fn resolve_maps_not_found() {
    let lines = rows(&["\"100\",\"200\",\"US\""]);
    let p = IpgeoProvider::from_sources(None, Some(&lines)).unwrap();
    assert_eq!(p.resolve(150), Ok("US".to_string()));
    assert_eq!(p.resolve(99), Err(ApiError::IpAddressNotFound));
}

#[test]
fn api_error_surface() {
    assert_eq!(ApiError::InvalidIpAddress.status_code(), 400);
    assert_eq!(ApiError::IpAddressNotFound.status_code(), 404);
    assert_eq!(ApiError::InvalidIpAddress.code(), 100);
    assert_eq!(ApiError::IpAddressNotFound.code(), 101);
    assert_eq!(ApiError::InvalidIpAddress.message(), "Invalid IP address");
    assert_eq!(
        ApiError::IpAddressNotFound.message(),
        "IP address not covered in database"
    );
}

#[test]
fn ipv4_value_is_big_endian() {
    assert_eq!(ipv4_value(1, 0, 0, 0), 16777216);
    assert_eq!(ipv4_value(203, 0, 113, 5), 3405803781);
    assert_eq!(ipv4_value(0, 0, 0, 0), 0);
    assert_eq!(ipv4_value(255, 255, 255, 255), u32::MAX);
}

#[test]
fn empty_sources_build_empty_stores() {
    let store = Ip2locationProvider::from_db(&Vec::new()).unwrap();
    assert_eq!(store.get_ipv4_country(0), None);
    assert_eq!(store.get_ipv4_country(u32::MAX), None);

    let store = HerrbischoffProvider::from_repo(&Vec::new()).unwrap();
    assert_eq!(store.get_ipv4_country(ipv4_value(8, 8, 8, 8)), None);

    let store = HerrbischoffProvider::from_repo(&vec![file("us.cidr", &[])]).unwrap();
    assert_eq!(store.get_ipv4_country(ipv4_value(8, 8, 8, 8)), None);
}

#[test]
fn block_store_name_without_extension() {
    // The country code is the text before the first dot, or the whole
    // name when there is none.
    let files = vec![file("de", &["198.51.100.0/24"])];
    let store = HerrbischoffProvider::from_repo(&files).unwrap();
    assert_eq!(
        store.get_ipv4_country(ipv4_value(198, 51, 100, 1)),
        Some("DE".to_string())
    );
}

#[test]
fn facade_forwards_range_store_failure() {
    let lines = rows(&["\"100\",\"200\",\"US\"", "\"150\",\"300\",\"CA\""]);
    assert_eq!(
        IpgeoProvider::from_sources(None, Some(&lines)).unwrap_err(),
        BuildError::Ordering
    );
}
