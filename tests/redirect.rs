use xdot::package::{packages_root, plan_entry, EntryPlan};
use xdot::redirect::{
    find_override, resolve_redirect, strip_at_sign_prefix, well_known, RedirectError, WellKnown,
    WellKnownDirs,
};

fn overrides(pairs: &[(&str, &str)]) -> Vec<(Vec<u8>, Vec<u8>)> {
    pairs
        .iter()
        .map(|(k, v)| (k.as_bytes().to_vec(), v.as_bytes().to_vec()))
        .collect()
}

#[test]
fn strip_prefix_of_marked_name() {
    assert_eq!(strip_at_sign_prefix(b"@XDG_CONFIG_HOME"), Some(b"XDG_CONFIG_HOME".to_vec()));
}

#[test]
fn strip_prefix_removes_marker_once() {
    assert_eq!(strip_at_sign_prefix(b"@@x"), Some(b"@x".to_vec()));
    assert_eq!(strip_at_sign_prefix(b"@"), Some(Vec::new()));
}

#[test]
fn strip_prefix_of_unmarked_name() {
    assert_eq!(strip_at_sign_prefix(b".bashrc"), None);
    assert_eq!(strip_at_sign_prefix(b"a@b"), None);
    assert_eq!(strip_at_sign_prefix(b""), None);
}

#[test]
fn well_known_dirs_below_home() {
    let dirs = WellKnownDirs::from_home(b"/home/u");
    assert_eq!(dirs.data, b"/home/u/.local/share".to_vec());
    assert_eq!(dirs.state, b"/home/u/.local/state".to_vec());
    assert_eq!(dirs.cache, b"/home/u/.cache".to_vec());
    assert_eq!(dirs.config, b"/home/u/.config".to_vec());
}

#[test]
fn well_known_keys() {
    assert_eq!(well_known(b"XDG_DATA_HOME"), Some(WellKnown::Data));
    assert_eq!(well_known(b"XDG_STATE_HOME"), Some(WellKnown::State));
    assert_eq!(well_known(b"XDG_CACHE_HOME"), Some(WellKnown::Cache));
    assert_eq!(well_known(b"XDG_CONFIG_HOME"), Some(WellKnown::Config));
    assert_eq!(well_known(b"XDG_RUNTIME_DIR"), None);
    assert_eq!(WellKnown::Config.key(), b"XDG_CONFIG_HOME".to_vec());
    assert_eq!(WellKnown::Cache.relative_path(), b".cache".to_vec());
}

#[test]
fn first_override_wins() {
    let ov = overrides(&[("A", "/one"), ("B", "/two"), ("A", "/three")]);
    assert_eq!(find_override(&ov, b"A"), Some(b"/one".to_vec()));
    assert_eq!(find_override(&ov, b"B"), Some(b"/two".to_vec()));
    assert_eq!(find_override(&ov, b"C"), None);
    assert_eq!(find_override(&Vec::new(), b"A"), None);
}

#[test]
fn override_takes_precedence_over_default() {
    let dirs = WellKnownDirs::from_home(b"/home/u");
    let ov = overrides(&[("XDG_CONFIG_HOME", "/cfg")]);
    match resolve_redirect(b"XDG_CONFIG_HOME", &ov, &dirs) {
        Ok(d) => assert_eq!(d, b"/cfg".to_vec()),
        Err(e) => panic!("unexpected error {:?}", e),
    }
}

#[test]
fn redirect_fallback_to_defaults() {
    let dirs = WellKnownDirs::from_home(b"/home/u");
    let ov = overrides(&[("OTHER", "/x")]);
    let cases: [(&[u8], &[u8]); 4] = [
        (b"XDG_DATA_HOME", b"/home/u/.local/share"),
        (b"XDG_STATE_HOME", b"/home/u/.local/state"),
        (b"XDG_CACHE_HOME", b"/home/u/.cache"),
        (b"XDG_CONFIG_HOME", b"/home/u/.config"),
    ];
    for (key, expected) in cases {
        match resolve_redirect(key, &ov, &dirs) {
            Ok(d) => assert_eq!(d, expected.to_vec()),
            Err(e) => panic!("unexpected error {:?}", e),
        }
    }
}

#[test]
fn redirect_unknown_key_fails_naming_it() {
    let dirs = WellKnownDirs::from_home(b"/home/u");
    match resolve_redirect(b"NOT_A_DIR", &Vec::new(), &dirs) {
        Err(RedirectError::Unresolvable { key }) => assert_eq!(key, b"NOT_A_DIR".to_vec()),
        Ok(d) => panic!("unexpected directory {:?}", d),
    }
}

#[test]
fn redirect_custom_key_with_override() {
    let dirs = WellKnownDirs::from_home(b"/home/u");
    let ov = overrides(&[("MY_DIR", "/srv/my")]);
    match resolve_redirect(b"MY_DIR", &ov, &dirs) {
        Ok(d) => assert_eq!(d, b"/srv/my".to_vec()),
        Err(e) => panic!("unexpected error {:?}", e),
    }
}

#[test]
fn packages_root_below_home() {
    assert_eq!(packages_root(b"/home/u"), b"/home/u/.xdot".to_vec());
}

#[test]
fn plan_plain_entry_goes_below_destination_root() {
    let dirs = WellKnownDirs::from_home(b"/home/u");
    match plan_entry(b"/home/u/.xdot/vim", b"etc", b"/", &Vec::new(), &dirs) {
        Ok(EntryPlan::Direct { original, link }) => {
            assert_eq!(original, b"/home/u/.xdot/vim/etc".to_vec());
            assert_eq!(link, b"/etc".to_vec());
        }
        other => panic!("unexpected plan {:?}", other),
    }
}

#[test]
fn plan_marked_entry_is_redirected() {
    let dirs = WellKnownDirs::from_home(b"/home/u");
    match plan_entry(b"/home/u/.xdot/vim", b"@XDG_CONFIG_HOME", b"/", &Vec::new(), &dirs) {
        Ok(EntryPlan::Redirect { original, destination }) => {
            assert_eq!(original, b"/home/u/.xdot/vim/@XDG_CONFIG_HOME".to_vec());
            assert_eq!(destination, b"/home/u/.config".to_vec());
        }
        other => panic!("unexpected plan {:?}", other),
    }
}

#[test]
fn plan_marked_entry_with_unknown_key_fails() {
    let dirs = WellKnownDirs::from_home(b"/home/u");
    match plan_entry(b"/p", b"@NOPE", b"/", &Vec::new(), &dirs) {
        Err(RedirectError::Unresolvable { key }) => assert_eq!(key, b"NOPE".to_vec()),
        other => panic!("unexpected plan {:?}", other),
    }
}
