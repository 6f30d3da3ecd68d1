use revision_audit::project::{get_org_repo, join_path, relative_path, split_path};
use std::path::Path;

fn pair(org: &str, repo: &str) -> (String, String) {
    (org.to_string(), repo.to_string())
}

fn components(path: &str) -> Vec<String> {
    let chars: Vec<char> = path.chars().collect();
    split_path(&chars).iter().map(|part| part.iter().collect()).collect()
}

#[test]
fn test_get_org_repo() {
    let root = "/home/user/repos";
    let path = "/home/user/repos/microsoft/DialoGPT/src/model.py";

    let (org, repo) = get_org_repo(path, root);
    assert_eq!(org, "microsoft");
    assert_eq!(repo, "DialoGPT");
}

#[test]
fn test_get_org_repo_with_comma() {
    let root = "/repos";
    let path = "/repos/org, with comma/repo-name/file.py";

    let (org, repo) = get_org_repo(path, root);
    assert_eq!(org, "org, with comma");
    assert_eq!(repo, "repo-name");
}

#[test]
fn a_path_with_fewer_than_three_components_tells_no_project() {
    assert_eq!(get_org_repo("/repos/org/repo/file.py", "/repos"), pair("org", "repo"));
    assert_eq!(get_org_repo("/repos/org/file.py", "/repos"), pair("unknown", "unknown"));
    assert_eq!(get_org_repo("/repos/file.py", "/repos"), pair("unknown", "unknown"));
    assert_eq!(get_org_repo("/repos", "/repos"), pair("unknown", "unknown"));
    assert_eq!(get_org_repo("", ""), pair("unknown", "unknown"));
}

#[test]
fn a_path_outside_the_root_tells_no_project() {
    assert_eq!(get_org_repo("/other/org/repo/file.py", "/repos"), pair("unknown", "unknown"));
    assert_eq!(get_org_repo("/repos2/org/repo/file.py", "/repos"), pair("unknown", "unknown"));
    assert_eq!(get_org_repo("repos/org/repo/file.py", "/repos"), pair("unknown", "unknown"));
    assert_eq!(get_org_repo("/repos/org/repo/file.py", "/repos/org/repo/file.py/x"),
        pair("unknown", "unknown"));
}

#[test]
fn slashes_and_dots_leave_no_trace() {
    assert_eq!(get_org_repo("/repos//org/./repo/file.py", "/repos/"), pair("org", "repo"));
    assert_eq!(get_org_repo("./repos/org/repo/file.py", "./repos"), pair("org", "repo"));
    assert_eq!(get_org_repo("repos/org/repo/file.py", "repos"), pair("org", "repo"));
    assert_eq!(get_org_repo("a/b/c", ""), pair("a", "b"));
    assert_eq!(get_org_repo("./a/b/c", "."), pair("a", "b"));
    assert_eq!(get_org_repo("/a/b/c/d", "/"), pair("a", "b"));
}

#[test]
fn components_of_paths() {
    assert_eq!(components("/a/b"), ["/", "a", "b"]);
    assert_eq!(components("a//b/"), ["a", "b"]);
    assert_eq!(components("a/./b/."), ["a", "b"]);
    assert_eq!(components("./a/b"), [".", "a", "b"]);
    assert_eq!(components("."), ["."]);
    assert_eq!(components(".a/b"), [".a", "b"]);
    assert_eq!(components("../a"), ["..", "a"]);
    assert_eq!(components("/"), ["/"]);
    assert_eq!(components("//"), ["/"]);
    assert_eq!(components("/./a"), ["/", "a"]);
    assert_eq!(components(""), Vec::<String>::new());
    assert_eq!(components("a b/c,d"), ["a b", "c,d"]);
}

#[test]
fn components_agree_with_the_standard_library() {
    let paths = [
        "", ".", "..", "/", "//", "///a", "a", "a/", "a/b", "a//b", "a/./b", "a/b/.", "./a/b",
        "./", ".//a", "../a/./b/..", "/a/b/c", "/./a", "/../a", ".a", "a.", "a/.b/c", "...",
        "/home/user/repos/microsoft/DialoGPT/src/model.py",
        "/repos/org, with comma/repo-name/file.py", "a b/c\td", "\u{e9}t\u{e9}/na\u{ef}ve.py",
        "a/./././b", "./.", "/.", "a/..", ".//.", "/a//b//c//",
    ];
    for path in paths {
        let expected: Vec<String> = Path::new(path)
            .components()
            .map(|c| c.as_os_str().to_string_lossy().to_string())
            .collect();
        assert_eq!(components(path), expected, "components of {:?}", path);
    }
}

#[test]
fn projects_agree_with_the_standard_library() {
    let roots = ["", ".", "/", "/repos", "/repos/", "repos", "./repos", "/a/b", "a//b/", "/repos/./x"];
    let paths = [
        "", ".", "/", "/repos", "/repos/org", "/repos/org/repo", "/repos/org/repo/file.py",
        "/repos/org/repo/src/deep/file.py", "repos/org/repo/file.py", "./repos/org/repo/file.py",
        "/repos//org//repo//file.py", "/repos/./org/./repo/./file.py", "/a/b/c/d/e", "a/b/c/d/e",
        "/repos/x/org/repo/file.py", "/repos2/org/repo/file.py", "org/repo/file.py",
        "./org/repo/file.py", "/repos/org, with comma/repo-name/file.py", "/repos/../a/b/c",
    ];
    for root in roots {
        for path in paths {
            let expected = match Path::new(path).strip_prefix(Path::new(root)) {
                Ok(rel) => {
                    let parts: Vec<String> = rel
                        .components()
                        .map(|c| c.as_os_str().to_string_lossy().to_string())
                        .collect();
                    if parts.len() < 3 {
                        pair("unknown", "unknown")
                    } else {
                        (parts[0].clone(), parts[1].clone())
                    }
                }
                Err(_) => pair("unknown", "unknown"),
            };
            assert_eq!(get_org_repo(path, root), expected, "{:?} in {:?}", path, root);
        }
    }
}

#[test]
fn relative_paths() {
    assert_eq!(relative_path("/repos/org/repo/src/model.py", "/repos"), "org/repo/src/model.py");
    assert_eq!(relative_path("/repos/org/repo/src/model.py", "/repos/"), "org/repo/src/model.py");
    assert_eq!(relative_path("/repos/org", "/repos/org"), "");
    assert_eq!(relative_path("a/b/c.py", ""), "a/b/c.py");
    assert_eq!(relative_path("/a/b/c.py", ""), "/a/b/c.py");
    assert_eq!(relative_path("/a/b/c.py", "/"), "a/b/c.py");
    assert_eq!(relative_path("./a/b.py", "."), "a/b.py");
    // Outside the root the path stays as it is.
    assert_eq!(relative_path("/other//x.py", "/repos"), "/other//x.py");
    assert_eq!(relative_path("x.py", "/repos"), "x.py");
    // Below the root the path comes out in its plain form.
    assert_eq!(relative_path("/repos//org/./repo/", "/repos"), "org/repo");
}

#[test]
fn relative_paths_agree_with_the_standard_library() {
    let roots = ["", ".", "/", "/repos", "repos", "./repos", "/a/b"];
    let paths = [
        "/repos", "/repos/org", "/repos/org/repo/file.py", "repos/org/repo/file.py",
        "./repos/org/repo/file.py", "/a/b/c/d/e", "a/b/c/d/e", "/repos2/org/repo/file.py",
        "org/repo/file.py", "/repos/org, with comma/repo-name/file.py", "/x", "x",
    ];
    for root in roots {
        for path in paths {
            let expected = Path::new(path)
                .strip_prefix(Path::new(root))
                .unwrap_or(Path::new(path))
                .to_string_lossy()
                .to_string();
            assert_eq!(relative_path(path, root), expected, "{:?} below {:?}", path, root);
        }
    }
}

#[test]
fn joined_components_make_the_path_again() {
    for path in ["/a/b", "a/b/c", "./a", "/", ".", "", "a"] {
        let chars: Vec<char> = path.chars().collect();
        let parts = split_path(&chars);
        let joined: String = join_path(&parts).iter().collect();
        assert_eq!(joined, path);
    }
}
