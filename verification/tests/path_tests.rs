use corbel::path::RelPath;

#[test]
fn from_stored_preserves_input_without_normalizing() {
    let rel = RelPath::from_stored("a/b/c.txt");
    assert_eq!(rel.as_ref(), "a/b/c.txt");
    assert_eq!(rel.to_string(), "a/b/c.txt");
}
