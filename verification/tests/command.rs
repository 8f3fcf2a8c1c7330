use honu::command::{base_name_of, Command};

#[test]
fn directory_name() {
    fn case(directory: Option<&str>, expected: Option<&str>) {
        assert_eq!(
            Command {
                directory: directory.map(String::from),
                ..Default::default()
            }
            .directory_name()
            .as_deref(),
            expected,
        );
    }

    case(None, None);
    case(Some("foo/bar"), Some("bar"));
    case(Some("/"), Some("/"));
}

#[test]
fn base_name_follows_path_components() {
    fn case(path: &str, expected: &str) {
        assert_eq!(base_name_of(path), expected);
    }

    case("foo/bar/", "bar");
    case("foo/bar/.", "bar");
    case("foo/./bar", "bar");
    case("foo/..", "foo/..");
    case("..", "..");
    case(".", ".");
    case("./", "./");
    case("", "");
    case("//", "//");
    case("foo/.bar", ".bar");
    case("foo/...", "...");
}
