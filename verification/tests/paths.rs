use std::path::Path;

use t2_fancontrol::paths::join_path;

#[test]
fn join_path_matches_std() {
    for (base, part) in [
        ("/home/u", ".config"),
        ("/home/u/", ".config"),
        ("", "a"),
        ("a", ""),
        ("a", "/abs"),
        ("/", "x"),
        ("a//", "b/c"),
    ] {
        let expected = Path::new(base).join(part).to_string_lossy().into_owned();
        assert_eq!(join_path(base, part), expected, "{base:?} {part:?}");
    }
}
