use rustcapo::config::CapoConfig;
use rustcapo::config_file::CapoConfigurationFile;
use rustcapo::errors::CapoError;

const FIXTURE: &str = "section1.database.user = user
section1.database.password = password
section2.programa.run = true
section2.programa.output = /testing/resources
section2.programb.run = false
section2.programb.contactlist = apples@banannas.com
section3.integer.one = 1
section3.integer.hundred = 100
section4.float.pi = 3.1415
section4.float.phi = 1.6180
";

fn fixture_config() -> CapoConfig {
    let file = CapoConfigurationFile::from_bytes("test", FIXTURE.as_bytes()).unwrap();
    CapoConfig::from_files(String::from("test"), String::from("src/tests"), vec![file]).unwrap()
}

fn config_of(sources: &[(&str, &str)]) -> CapoConfig {
    let mut files = Vec::new();
    for (profile, text) in sources {
        files.push(CapoConfigurationFile::from_bytes(profile, text.as_bytes()).unwrap());
    }
    CapoConfig::from_files(String::from("test"), String::from("a:b"), files).unwrap()
}

#[test]
fn test_override_is_per_key() {
    // Directory A is searched before directory B: B's key K wins, B's own
    // key J is present, and the key only A defined keeps A's value.
    let config = config_of(&[
        ("alpha", "K = 1\nonly.in.a = kept\n"),
        ("beta", "K = 2\nJ = 9\n"),
    ]);
    assert_eq!(config.get("K").unwrap(), "2");
    assert_eq!(config.get("J").unwrap(), "9");
    assert_eq!(config.get("only.in.a").unwrap(), "kept");
}

#[test]
fn test_case_insensitive_queries() {
    let config = fixture_config();
    assert_eq!(
        config.get("section1.database.user"),
        config.get("SECTION1.DATABASE.USER")
    );
    assert_eq!(config.get("Section1.Database.User").unwrap(), "user");
    assert_eq!(
        config.get_bool("SECTION2.PROGRAMA.RUN"),
        config.get_bool("section2.programa.run")
    );
    assert_eq!(config.get_u64("SECTION3.INTEGER.HUNDRED").unwrap(), 100);
}

#[test]
fn test_location_follows_current_value() {
    // The location of a key names the file that set its current value,
    // never an earlier overridden one.
    let config = config_of(&[
        ("alpha", "K = 1\nonly.in.a = kept\n"),
        ("beta", "K = 2\nJ = 9\n"),
    ]);
    assert_eq!(config.get_location("K").unwrap(), "beta.properties");
    assert_eq!(config.get_location("J").unwrap(), "beta.properties");
    assert_eq!(config.get_location("only.in.a").unwrap(), "alpha.properties");
    assert_eq!(config.get_location("unset"), None);
}

#[test]
fn test_bool_absence_is_uniform() {
    let config = config_of(&[("alpha", "flag = maybe\nother = YES\nnay = No\n")]);
    // Unset key and unparsable value are indistinguishable.
    assert_eq!(config.get_bool("unset.key"), None);
    assert_eq!(config.get_bool("flag"), None);
    // Case-insensitive matching of the four accepted words.
    assert_eq!(config.get_bool("other"), Some(true));
    assert_eq!(config.get_bool("nay"), Some(false));
}

#[test]
fn test_construction_fails_without_files() {
    let r = CapoConfig::from_files(String::from("test"), String::from("a:b"), Vec::new());
    let e = match r {
        Ok(_) => panic!("construction must fail with no files"),
        Err(e) => e,
    };
    assert_eq!(e.status_code, 5);
}

#[test]
fn test_snapshot_scenario() {
    let config = fixture_config();
    assert_eq!(config.get_options().len(), 10);
    assert_eq!(config.get_u64("section3.integer.hundred").unwrap(), 100);
    let pi: f64 = config.get("section4.float.pi").unwrap().parse().unwrap();
    assert_eq!(pi, 3.1415);
    assert_eq!(config.get_bool("section2.programa.run"), Some(true));
    assert_eq!(
        config.get_location("section1.database.user").unwrap(),
        "test.properties"
    );
    let locations = config.get_locations();
    assert_eq!(locations.len(), 10);
    for (_, loc) in locations.entries().iter() {
        assert_eq!(loc.as_str(), "test.properties");
    }
}

#[test]
fn test_idempotent_construction() {
    let c1 = fixture_config();
    let c2 = fixture_config();
    let o1 = c1.get_options();
    let o2 = c2.get_options();
    assert_eq!(o1.len(), o2.len());
    for (key, val) in o1.entries().iter() {
        assert_eq!(o2.get(key.as_str()).unwrap(), *val);
    }
    let l1 = c1.get_locations();
    let l2 = c2.get_locations();
    assert_eq!(l1.len(), l2.len());
    for (key, loc) in l1.entries().iter() {
        assert_eq!(l2.get(key.as_str()).unwrap(), *loc);
    }
}

#[test]
fn test_invalid_properties_text_is_skipped() {
    // A malformed unicode escape is a structural parse error: the file
    // contributes nothing.
    let r = CapoConfigurationFile::from_bytes("test", "bad = \\uZZZZ\n".as_bytes());
    assert!(r.is_none());
}

#[test]
fn test_numeric_parsing_is_strict() {
    let config = config_of(&[(
        "alpha",
        "plus = +7\nneg = -5\nempty =\nwords = ten\nspaced = 4 2\nbig = 340282366920938463463374607431768211456\n",
    )]);
    // An explicit plus sign is accepted, for signed and unsigned alike.
    assert_eq!(config.get_u64("plus"), Some(7));
    assert_eq!(config.get_i64("plus"), Some(7));
    // A minus sign only for signed types.
    assert_eq!(config.get_i64("neg"), Some(-5));
    assert_eq!(config.get_u64("neg"), None);
    // Not a number at all.
    assert_eq!(config.get("empty").unwrap(), "");
    assert_eq!(config.get_u64("empty"), None);
    assert_eq!(config.get_u64("words"), None);
    assert_eq!(config.get_u64("spaced"), None);
    // Out of range even for the widest type.
    assert_eq!(config.get_u128("big"), None);
}

#[test]
fn test_width_range_checks() {
    let config = config_of(&[(
        "alpha",
        "w = 256\nx = 255\nlow = -128\nlower = -129\nhigh = 127\nhigher = 128\n",
    )]);
    assert_eq!(config.get_u8("w"), None);
    assert_eq!(config.get_u8("x"), Some(255));
    assert_eq!(config.get_i8("low"), Some(-128));
    assert_eq!(config.get_i8("lower"), None);
    assert_eq!(config.get_i8("high"), Some(127));
    assert_eq!(config.get_i8("higher"), None);
    assert_eq!(config.get_u16("w"), Some(256));
    assert_eq!(config.get_i16("lower"), Some(-129));
}

#[test]
fn test_resolve_profile() {
    assert_eq!(
        CapoConfig::resolve_profile(Some(String::from("production"))).unwrap(),
        "production"
    );
    let e = CapoConfig::resolve_profile(None).unwrap_err();
    assert_eq!(e.status_code, 2);
}

#[test]
fn test_resolve_path_appends_home_entry() {
    let p = CapoConfig::resolve_path(Some(String::from("/etc/capo"))).unwrap();
    assert!(p.starts_with("/etc/capo:"));
    assert!(p.ends_with(".capo"));
}

#[test]
fn test_split_path_preserves_order_and_empties() {
    let parts = CapoConfig::split_path("a:b::c");
    assert_eq!(parts, vec!["a", "b", "", "c"]);
    assert_eq!(CapoConfig::split_path(""), vec![""]);
    assert_eq!(CapoConfig::split_path("solo"), vec!["solo"]);
}

#[test]
fn test_error_codes_and_messages() {
    assert_eq!(CapoError::profile_error().status_code, 2);
    assert_eq!(CapoError::option_error().status_code, 3);
    assert_eq!(CapoError::setting_error().status_code, 4);
    assert_eq!(CapoError::path_error().status_code, 5);
    assert_eq!(CapoError::home_dir_error().status_code, 6);
    assert!(CapoError::home_dir_error().error_msg.contains("home directory"));
}
