use amber::paths::{directory, join, parent_length, resolve, starts_at_root, starts_with_cur_dir};

#[test]
fn directory_is_the_path_without_its_last_component() {
    assert_eq!(directory("a/b/main.ab"), "a/b");
    assert_eq!(directory("/main.ab"), "/");
    assert_eq!(directory("main.ab"), "");
    assert_eq!(directory("/a/b"), "/a");
    assert_eq!(directory("a/.."), "a");
    assert_eq!(directory(".."), "");
}

#[test]
fn directory_passes_over_what_is_no_component() {
    assert_eq!(directory("dir/./a.ab"), "dir");
    assert_eq!(directory("a//b"), "a");
    assert_eq!(directory("a/b/"), "a");
    assert_eq!(directory("a/b/."), "a");
    assert_eq!(directory("a/./././b/./"), "a");
    assert_eq!(directory("//a"), "/");
    assert_eq!(directory("/./a"), "/");
}

#[test]
fn leading_dot_is_kept() {
    assert_eq!(directory("./a.ab"), ".");
    assert_eq!(directory("././a.ab"), ".");
    assert_eq!(directory("./x/a.ab"), "./x");
    assert_eq!(directory("."), "");
    assert_eq!(directory("./"), "");
    assert!(starts_with_cur_dir("."));
    assert!(starts_with_cur_dir("./a"));
    assert!(!starts_with_cur_dir(".a"));
    assert!(!starts_with_cur_dir(".."));
    assert!(!starts_with_cur_dir("/."));
    assert!(!starts_with_cur_dir(""));
}

#[test]
fn path_without_component_has_no_parent() {
    assert_eq!(parent_length(""), None);
    assert_eq!(parent_length("/"), None);
    assert_eq!(parent_length("//"), None);
    assert_eq!(parent_length("/."), None);
    assert_eq!(parent_length("."), Some(0));
    assert_eq!(parent_length("a"), Some(0));
    assert_eq!(parent_length("/a"), Some(1));
    assert_eq!(parent_length("ab/cd"), Some(2));
    assert_eq!(directory(""), "");
    assert_eq!(directory("/"), "/");
    assert_eq!(directory("//"), "//");
}

#[test]
fn directory_counts_characters_not_bytes() {
    assert_eq!(directory("żółw/główny.ab"), "żółw");
    assert_eq!(parent_length("żółw/główny.ab"), Some(4));
}

#[test]
fn join_puts_one_slash_between() {
    assert_eq!(join("a".to_string(), "b"), "a/b");
    assert_eq!(join("a/".to_string(), "b"), "a/b");
    assert_eq!(join("/".to_string(), "b"), "/b");
    assert_eq!(join("".to_string(), "b"), "b");
    assert_eq!(join("a".to_string(), ""), "a/");
    assert_eq!(join("a".to_string(), "/b"), "/b");
    assert_eq!(join("a".to_string(), "./b"), "a/./b");
}

#[test]
fn relative_import_is_taken_from_the_importing_file() {
    let base = Some("project/src/main.ab".to_string());
    assert_eq!(resolve(&base, "./util"), "project/src/./util");
    assert_eq!(resolve(&base, "util.ab"), "project/src/util.ab");
    assert_eq!(resolve(&base, "../lib/x.ab"), "project/src/../lib/x.ab");
    assert_eq!(resolve(&Some("dir/./a.ab".to_string()), "b.ab"), "dir/b.ab");
    assert_eq!(resolve(&Some("/main.ab".to_string()), "x.ab"), "/x.ab");
}

#[test]
fn resolution_depends_on_the_importing_file_alone() {
    let first = resolve(&Some("one/main.ab".to_string()), "./util");
    let second = resolve(&Some("two/main.ab".to_string()), "./util");
    assert_eq!(first, "one/./util");
    assert_eq!(second, "two/./util");
    assert_eq!(resolve(&Some("one/main.ab".to_string()), "./util"), first);
}

#[test]
fn spelling_of_a_dot_import_stops_growing() {
    let first = resolve(&Some("a.ab".to_string()), "./a.ab");
    let second = resolve(&Some(first.clone()), "./a.ab");
    let third = resolve(&Some(second.clone()), "./a.ab");
    assert_eq!(first, "./a.ab");
    assert_eq!(second, "././a.ab");
    assert_eq!(third, "././a.ab");
    let first = resolve(&Some("dir/a.ab".to_string()), "./a.ab");
    let second = resolve(&Some(first.clone()), "./a.ab");
    assert_eq!(first, "dir/./a.ab");
    assert_eq!(second, "dir/./a.ab");
}

#[test]
fn bare_import_keeps_the_directory() {
    let resolved = resolve(&Some("x/y/main.ab".to_string()), "lib.ab");
    assert_eq!(directory(&resolved), directory("x/y/main.ab"));
    assert_eq!(resolve(&Some(resolved), "main.ab"), "x/y/main.ab");
}

#[test]
fn absolute_import_stays_as_written() {
    assert!(starts_at_root("/etc/x.ab"));
    assert!(!starts_at_root("etc/x.ab"));
    assert!(!starts_at_root(""));
    assert_eq!(resolve(&Some("a/main.ab".to_string()), "/etc/x.ab"), "/etc/x.ab");
}

#[test]
fn inline_text_resolves_against_the_current_directory() {
    assert_eq!(resolve(&None, "lib.ab"), "lib.ab");
    assert_eq!(resolve(&None, "./dir/lib.ab"), "./dir/lib.ab");
}

#[test]
fn file_without_directory_imports_its_neighbours() {
    assert_eq!(resolve(&Some("main.ab".to_string()), "lib.ab"), "lib.ab");
}

fn parent_and_join(file: &str, literal: &str) -> String {
    let mut path = std::path::Path::new(file).to_path_buf();
    path.pop();
    path.push(literal);
    path.to_str().unwrap().to_string()
}

#[test]
fn resolution_agrees_with_parent_and_join() {
    let files = [
        "", ".", "..", "/", "//", "/.", "./", "a", "a.ab", "./a.ab", "././a.ab", "../a.ab", "a/b",
        "a/b/", "a//b", "a/./b", "a/b/.", "a/b/./", "/a", "/a/b", "//a//b//", "/./a", "dir/./a.ab",
        "./x/a.ab", ".a", ".a/b", "..a/b", "a/..", "a/../b", "./.", "./..", "/..", "żółw/główny.ab",
        "x/y/z/main.ab", ".//a", ".//./a", "a/.b", "a/b./c", "a/./././b/./",
    ];
    let literals = [
        "", ".", "..", "b.ab", "./b.ab", "../b.ab", "/b.ab", "x/y.ab", "./x/./y.ab", "//b", "b/",
        ".b", "gęś.ab",
    ];
    for file in files {
        let parent = std::path::Path::new(file).parent().map(|p| p.to_str().unwrap().chars().count());
        assert_eq!(parent_length(file), parent, "parent of {:?}", file);
        for literal in literals {
            assert_eq!(
                resolve(&Some(file.to_string()), literal),
                parent_and_join(file, literal),
                "{:?} from {:?}",
                literal,
                file
            );
        }
    }
}

#[test]
fn inline_resolution_agrees_with_parent_and_join_from_the_current_directory() {
    for literal in ["", "b.ab", "./b.ab", "../b.ab", "/b.ab", "x/y.ab"] {
        assert_eq!(resolve(&None, literal), parent_and_join(".", literal));
    }
}
