use cargo_upgrade::requirement::is_pinned_req;

#[test]
fn exact_is_pinned_req() {
    let req = "=3";
    assert!(is_pinned_req(req));
}

#[test]
fn less_than_is_pinned_req() {
    let req = "<3";
    assert!(is_pinned_req(req));
}

#[test]
fn less_than_equal_is_pinned_req() {
    let req = "<=3";
    assert!(is_pinned_req(req));
}

#[test]
fn minor_wildcard_is_pinned_req() {
    let req = "3.*";
    assert!(is_pinned_req(req));
}

#[test]
fn major_wildcard_is_not_pinned() {
    let req = "*";
    assert!(!is_pinned_req(req));
}

#[test]
fn greater_than_is_not_pinned() {
    let req = ">3";
    assert!(!is_pinned_req(req));
}

#[test]
fn greater_than_equal_is_not_pinned() {
    let req = ">=3";
    assert!(!is_pinned_req(req));
}

#[test]
fn caret_is_not_pinned() {
    let req = "^3";
    assert!(!is_pinned_req(req));
}

#[test]
fn default_is_not_pinned() {
    let req = "3";
    assert!(!is_pinned_req(req));
}

#[test]
fn tilde_is_not_pinned() {
    assert!(!is_pinned_req("~1.2"));
}

#[test]
fn pinned_when_any_comparator_pins() {
    assert!(is_pinned_req(">=1.0, <2.0"));
    assert!(!is_pinned_req(">=1.0, ^1.2"));
}

#[test]
fn unparsable_is_not_pinned() {
    assert!(!is_pinned_req("not a requirement"));
}
