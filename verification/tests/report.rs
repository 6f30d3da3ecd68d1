use revision_audit::aggregate::ProjectEntry;
use revision_audit::report::{format_project_line, format_summary, render_project_csv};
use revision_audit::status::Status;

fn entry(org: &str, repo: &str, status: Status) -> ProjectEntry {
    ProjectEntry { org: org.to_string(), repo: repo.to_string(), status }
}

#[test]
fn the_summary_has_a_line_for_each_number() {
    assert_eq!(
        format_summary((1, 0, 1), (1, 0, 1)),
        "====== Scan Summary ======\n\
         Safe usages (with commit SHA): 1\n\
         Partially safe usages (with tag/branch): 0\n\
         Unsafe usages (no revision): 1\n\
         Safe projects: 1\n\
         Partially safe projects: 0\n\
         Unsafe projects: 1\n"
    );
    assert_eq!(
        format_summary((12, 345, 6789), (10, 200, 3000)),
        format!(
            "====== Scan Summary ======\n\
             Safe usages (with commit SHA): {}\n\
             Partially safe usages (with tag/branch): {}\n\
             Unsafe usages (no revision): {}\n\
             Safe projects: {}\n\
             Partially safe projects: {}\n\
             Unsafe projects: {}\n",
            12, 345, 6789, 10, 200, 3000
        )
    );
}

#[test]
fn project_lines_are_filled_up_to_a_width() {
    let cases = [
        entry("microsoft", "DialoGPT", Status::Safe),
        entry("", "", Status::PartiallySafe),
        entry("exactly_twenty_chars", "r", Status::Unsafe),
        entry("more_than_twenty_characters", "another_name_that_is_long", Status::Safe),
        entry("\u{e9}t\u{e9}", "na\u{ef}ve", Status::Unsafe),
    ];
    for case in cases {
        assert_eq!(
            format_project_line(&case),
            format!("{:<20}/{:<20} {}", case.org, case.repo, case.status.label())
        );
    }
    assert_eq!(
        format_project_line(&entry("org", "repo", Status::PartiallySafe)),
        "org                 /repo                 partially_safe"
    );
}

#[test]
fn the_table_of_projects() {
    assert_eq!(render_project_csv(&Vec::new()), "org,repo,status\n");
    let projects = vec![
        entry("alpha", "one", Status::Safe),
        entry("org, with comma", "repo \"quoted\"", Status::PartiallySafe),
        entry("beta", "two\nlines", Status::Unsafe),
    ];
    assert_eq!(
        render_project_csv(&projects),
        "org,repo,status\n\
         alpha,one,safe\n\
         \"org, with comma\",\"repo \"\"quoted\"\"\",partially_safe\n\
         beta,\"two\nlines\",unsafe\n"
    );
}
