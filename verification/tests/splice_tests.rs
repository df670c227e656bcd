use moli::splice::{splice, synth};

fn b(s: &str) -> Vec<u8> {
    s.as_bytes().to_vec()
}

fn lines(ls: &[&str]) -> Vec<Vec<u8>> {
    ls.iter().map(|s| s.as_bytes().to_vec()).collect()
}

#[test]
fn test_splice_replaces_only_the_region() {
    let content = lines(&["before", "START", "old a", "old b", "END", "after"]);
    let got = splice(&content, &b("START"), &b("END"), &lines(&["new"])).unwrap();
    assert_eq!(got, lines(&["before", "START", "new", "END", "after"]));
}

#[test]
fn test_splice_empty_body() {
    let content = lines(&["START", "old", "END"]);
    let got = splice(&content, &b("START"), &b("END"), &lines(&[])).unwrap();
    assert_eq!(got, lines(&["START", "END"]));
}

#[test]
fn test_splice_rejects_missing_markers() {
    let content = lines(&["no markers here"]);
    assert!(splice(&content, &b("START"), &b("END"), &lines(&["x"])).is_none());
}

#[test]
fn test_splice_rejects_duplicate_markers() {
    let content = lines(&["START", "a", "END", "START", "b", "END"]);
    assert!(splice(&content, &b("START"), &b("END"), &lines(&["x"])).is_none());
}

#[test]
fn test_splice_rejects_inverted_markers() {
    let content = lines(&["END", "a", "START"]);
    assert!(splice(&content, &b("START"), &b("END"), &lines(&["x"])).is_none());
}

#[test]
fn test_synth_builds_fresh_managed_file() {
    let got = synth(&lines(&["header"]), &b("START"), &b("END"), &lines(&["a", "b"]));
    assert_eq!(got, lines(&["header", "START", "a", "b", "END"]));
}

#[test]
fn test_splice_after_synth_is_identity() {
    let fresh = synth(&lines(&["header"]), &b("START"), &b("END"), &lines(&["a"]));
    let again = splice(&fresh, &b("START"), &b("END"), &lines(&["a"])).unwrap();
    assert_eq!(again, fresh);
}
