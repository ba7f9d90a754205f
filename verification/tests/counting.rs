use stats_api_rust::database::{Student, StudentDirectory};
use stats_api_rust::error::StatsError;
use stats_api_rust::pulls::{Pull, User};
use stats_api_rust::tally::{
    counted_student, has_passed_mid, record_pull, update_if_room, update_users_pr_counts,
};
use stats_api_rust::timestamp::created_seconds;

fn student(username: &str, passed_mid_evals: Option<&str>) -> Student {
    Student {
        id: 1,
        name: Some(format!("{username} of somewhere")),
        email: None,
        college: Some("a college".to_string()),
        username: username.to_string(),
        passed_mid_evals: passed_mid_evals.map(|flag| flag.to_string()),
        passed_end_evals: None,
        blog_link: None,
        commit_count: Some(3),
        pull_count: None,
        lines_added: None,
        lines_removed: None,
        open_pr_count: 0,
        merged_pr_count: 0,
        languages_used: None,
        projects_worked: None,
        pulls: None,
    }
}

fn directory(students: Vec<Student>) -> StudentDirectory {
    StudentDirectory::from_records(students)
}

fn pull(author: &str, state: &str, created_at: &str, merged_at: Option<&str>) -> Pull {
    Pull {
        url: Some("https://api.github.com/repos/o/r/pulls/1".to_string()),
        id: Some(1),
        state: Some(state.to_string()),
        title: Some("a title".to_string()),
        body: None,
        user: Some(User { login: Some(author.to_string()), id: Some(7) }),
        merged_at: merged_at.map(|at| at.to_string()),
        created_at: Some(created_at.to_string()),
    }
}

fn counts(students: &StudentDirectory, username: &str) -> (u32, u32) {
    let student = students.get(&username.to_string()).expect("the student is in the directory");
    (student.open_pr_count, student.merged_pr_count)
}

// 1500 s, 2500 s and 1999 s after the epoch.
const AT_1500: &str = "1970-01-01T00:25:00Z";
const AT_2500: &str = "1970-01-01T00:41:40Z";
const AT_1999: &str = "1970-01-01T00:33:19Z";
const AT_1000: &str = "1970-01-01T00:16:40Z";
const AT_2000: &str = "1970-01-01T00:33:20Z";
const AT_999: &str = "1970-01-01T00:16:39Z";

#[test]
fn open_pull_in_window_counts_and_late_pull_does_not() {
    let mut students = directory(vec![student("alice", Some("true"))]);
    let pulls = vec![
        pull("alice", "open", AT_1500, None),
        pull("alice", "closed", AT_2500, Some(AT_1999)),
    ];
    assert_eq!(update_users_pr_counts(1000, 2000, &mut students, &pulls, false), Ok(()));
    assert_eq!(counts(&students, "alice"), (1, 0));
}

#[test]
fn end_evals_skip_student_who_failed_mid_evals() {
    let mut students = directory(vec![student("bob", Some("false"))]);
    let pulls = vec![pull("bob", "open", AT_1500, None), pull("bob", "closed", AT_1500, Some(AT_1999))];
    assert_eq!(update_users_pr_counts(1000, 2000, &mut students, &pulls, true), Ok(()));
    assert_eq!(counts(&students, "bob"), (0, 0));
}

#[test]
fn end_evals_skip_student_without_mid_evals_flag() {
    let mut students = directory(vec![student("carol", None), student("dave", Some("TRUE"))]);
    let pulls = vec![pull("carol", "open", AT_1500, None), pull("dave", "open", AT_1500, None)];
    assert_eq!(update_users_pr_counts(1000, 2000, &mut students, &pulls, true), Ok(()));
    assert_eq!(counts(&students, "carol"), (0, 0));
    assert_eq!(counts(&students, "dave"), (0, 0));
}

#[test]
fn end_evals_count_student_who_passed_mid_evals() {
    let mut students = directory(vec![student("alice", Some("true")), student("bob", Some("false"))]);
    let pulls = vec![
        pull("alice", "closed", AT_1500, Some(AT_1999)),
        pull("bob", "closed", AT_1500, Some(AT_1999)),
    ];
    assert_eq!(update_users_pr_counts(1000, 2000, &mut students, &pulls, true), Ok(()));
    assert_eq!(counts(&students, "alice"), (0, 1));
    assert_eq!(counts(&students, "bob"), (0, 0));
}

#[test]
fn without_end_evals_the_flag_is_not_read() {
    let mut students = directory(vec![student("bob", Some("false")), student("carol", None)]);
    let pulls = vec![pull("bob", "open", AT_1500, None), pull("carol", "open", AT_1500, None)];
    assert_eq!(update_users_pr_counts(1000, 2000, &mut students, &pulls, false), Ok(()));
    assert_eq!(counts(&students, "bob"), (1, 0));
    assert_eq!(counts(&students, "carol"), (1, 0));
}

#[test]
fn pull_created_at_end_time_is_excluded() {
    let mut students = directory(vec![student("alice", Some("true"))]);
    let pulls = vec![pull("alice", "open", AT_2000, None), pull("alice", "closed", AT_2000, Some(AT_2500))];
    assert_eq!(update_users_pr_counts(1000, 2000, &mut students, &pulls, false), Ok(()));
    assert_eq!(counts(&students, "alice"), (0, 0));
}

#[test]
fn pull_created_at_start_time_is_included() {
    let mut students = directory(vec![student("alice", Some("true"))]);
    let pulls = vec![pull("alice", "open", AT_1000, None), pull("alice", "closed", AT_1000, Some(AT_1500))];
    assert_eq!(update_users_pr_counts(1000, 2000, &mut students, &pulls, false), Ok(()));
    assert_eq!(counts(&students, "alice"), (1, 1));
}

#[test]
fn pull_created_just_inside_and_just_outside() {
    let mut students = directory(vec![student("alice", Some("true"))]);
    let pulls = vec![pull("alice", "open", AT_999, None), pull("alice", "open", AT_1999, None)];
    assert_eq!(update_users_pr_counts(1000, 2000, &mut students, &pulls, false), Ok(()));
    assert_eq!(counts(&students, "alice"), (1, 0));
}

#[test]
fn empty_window_counts_nothing() {
    let mut students = directory(vec![student("alice", Some("true"))]);
    let pulls = vec![pull("alice", "open", AT_1000, None)];
    assert_eq!(update_users_pr_counts(1000, 1000, &mut students, &pulls, false), Ok(()));
    assert_eq!(counts(&students, "alice"), (0, 0));
}

#[test]
fn each_pull_moves_exactly_one_counter() {
    let mut students = directory(vec![student("alice", Some("true"))]);
    // An open pull request counts as open even if it carries a merge time.
    let pulls = vec![pull("alice", "open", AT_1500, Some(AT_1999))];
    assert_eq!(update_users_pr_counts(1000, 2000, &mut students, &pulls, false), Ok(()));
    assert_eq!(counts(&students, "alice"), (1, 0));
    let pulls = vec![pull("alice", "closed", AT_1500, Some(AT_1999))];
    assert_eq!(update_users_pr_counts(1000, 2000, &mut students, &pulls, false), Ok(()));
    assert_eq!(counts(&students, "alice"), (1, 1));
}

#[test]
fn closed_and_unmerged_pull_is_not_counted() {
    let mut students = directory(vec![student("alice", Some("true"))]);
    let pulls = vec![pull("alice", "closed", AT_1500, None)];
    assert_eq!(update_users_pr_counts(1000, 2000, &mut students, &pulls, false), Ok(()));
    assert_eq!(counts(&students, "alice"), (0, 0));
}

#[test]
fn pull_without_state_counts_only_if_merged() {
    let mut students = directory(vec![student("alice", Some("true"))]);
    let mut merged = pull("alice", "closed", AT_1500, Some(AT_1999));
    merged.state = None;
    let mut unmerged = pull("alice", "closed", AT_1500, None);
    unmerged.state = None;
    assert_eq!(update_users_pr_counts(1000, 2000, &mut students, &vec![merged, unmerged], false), Ok(()));
    assert_eq!(counts(&students, "alice"), (0, 1));
}

#[test]
fn pulls_of_strangers_are_passed_over() {
    let mut students = directory(vec![student("alice", Some("true"))]);
    let mut nobody = pull("alice", "open", AT_1500, None);
    nobody.user = None;
    let mut nameless = pull("alice", "open", AT_1500, None);
    nameless.user = Some(User { login: None, id: Some(3) });
    let pulls = vec![pull("mallory", "open", AT_1500, None), nobody, nameless, pull("Alice", "open", AT_1500, None)];
    assert_eq!(update_users_pr_counts(1000, 2000, &mut students, &pulls, false), Ok(()));
    assert_eq!(counts(&students, "alice"), (0, 0));
}

#[test]
fn malformed_time_of_a_stranger_is_never_read() {
    let mut students = directory(vec![student("alice", Some("true")), student("bob", Some("false"))]);
    let pulls = vec![
        pull("mallory", "open", "yesterday", None),
        pull("bob", "open", "not a time", None),
        pull("alice", "open", AT_1500, None),
    ];
    assert_eq!(update_users_pr_counts(1000, 2000, &mut students, &pulls, true), Ok(()));
    assert_eq!(counts(&students, "alice"), (1, 0));
    assert_eq!(counts(&students, "bob"), (0, 0));
}

#[test]
fn malformed_time_stops_the_pass_and_keeps_what_was_counted() {
    let mut students = directory(vec![student("alice", Some("true")), student("bob", Some("true"))]);
    let pulls = vec![
        pull("alice", "open", AT_1500, None),
        pull("bob", "open", "1970-01-01 00:25:00", None),
        pull("alice", "open", AT_1500, None),
        pull("bob", "open", AT_1500, None),
    ];
    assert_eq!(
        update_users_pr_counts(1000, 2000, &mut students, &pulls, false),
        Err(StatsError::MalformedTimestamp)
    );
    assert_eq!(counts(&students, "alice"), (1, 0));
    assert_eq!(counts(&students, "bob"), (0, 0));
}

#[test]
fn missing_time_stops_the_pass() {
    let mut students = directory(vec![student("alice", Some("true"))]);
    let mut timeless = pull("alice", "open", AT_1500, None);
    timeless.created_at = None;
    assert_eq!(
        update_users_pr_counts(1000, 2000, &mut students, &vec![timeless], false),
        Err(StatsError::MalformedTimestamp)
    );
    assert_eq!(counts(&students, "alice"), (0, 0));
}

#[test]
fn creation_time_is_read_with_its_offset() {
    let mut students = directory(vec![student("alice", Some("true"))]);
    // 01:25 at one hour east of Greenwich is 1500 s after the epoch;
    // 00:25 at one hour west of it is 5100 s after the epoch.
    let pulls = vec![
        pull("alice", "open", "1970-01-01T01:25:00+01:00", None),
        pull("alice", "closed", "1970-01-01T00:25:00-01:00", Some(AT_2500)),
    ];
    assert_eq!(update_users_pr_counts(1000, 2000, &mut students, &pulls, false), Ok(()));
    assert_eq!(counts(&students, "alice"), (1, 0));
}

#[test]
fn counts_do_not_depend_on_the_order_of_projects() {
    let one = vec![
        pull("alice", "open", AT_1500, None),
        pull("bob", "closed", AT_1500, Some(AT_1999)),
        pull("alice", "closed", AT_2500, Some(AT_2500)),
    ];
    let other = vec![
        pull("bob", "open", AT_1000, None),
        pull("alice", "closed", AT_1999, Some(AT_2500)),
        pull("mallory", "open", AT_1500, None),
    ];
    let mut forth = directory(vec![student("alice", Some("true")), student("bob", None)]);
    assert_eq!(update_users_pr_counts(1000, 2000, &mut forth, &one, false), Ok(()));
    assert_eq!(update_users_pr_counts(1000, 2000, &mut forth, &other, false), Ok(()));
    let mut back = directory(vec![student("alice", Some("true")), student("bob", None)]);
    assert_eq!(update_users_pr_counts(1000, 2000, &mut back, &other, false), Ok(()));
    assert_eq!(update_users_pr_counts(1000, 2000, &mut back, &one, false), Ok(()));
    assert_eq!(counts(&forth, "alice"), (1, 1));
    assert_eq!(counts(&forth, "bob"), (1, 1));
    assert_eq!(counts(&back, "alice"), counts(&forth, "alice"));
    assert_eq!(counts(&back, "bob"), counts(&forth, "bob"));
}

#[test]
fn a_second_pass_from_fresh_counters_counts_the_same() {
    let pulls = vec![pull("alice", "open", AT_1500, None), pull("alice", "closed", AT_1500, Some(AT_1999))];
    let mut first = directory(vec![student("alice", Some("true"))]);
    let mut second = directory(vec![student("alice", Some("true"))]);
    assert_eq!(update_users_pr_counts(1000, 2000, &mut first, &pulls, false), Ok(()));
    assert_eq!(update_users_pr_counts(1000, 2000, &mut second, &pulls, false), Ok(()));
    assert_eq!(counts(&first, "alice"), (1, 1));
    assert_eq!(counts(&second, "alice"), (1, 1));
}

#[test]
fn counting_keeps_the_profile() {
    let mut students = directory(vec![student("alice", Some("true"))]);
    let pulls = vec![pull("alice", "open", AT_1500, None)];
    assert_eq!(update_users_pr_counts(1000, 2000, &mut students, &pulls, false), Ok(()));
    let alice = students.get(&"alice".to_string()).unwrap();
    assert_eq!(alice.name, Some("alice of somewhere".to_string()));
    assert_eq!(alice.college, Some("a college".to_string()));
    assert_eq!(alice.commit_count, Some(3));
    assert_eq!(alice.passed_mid_evals, Some("true".to_string()));
    assert_eq!(alice.username, "alice");
}

#[test]
fn no_pulls_change_nothing() {
    let mut students = directory(vec![student("alice", Some("true"))]);
    assert_eq!(update_users_pr_counts(1000, 2000, &mut students, &Vec::new(), true), Ok(()));
    assert_eq!(counts(&students, "alice"), (0, 0));
}

#[test]
fn counted_student_is_the_known_author() {
    let students = directory(vec![student("alice", Some("true")), student("bob", Some("false"))]);
    let by_alice = pull("alice", "open", AT_1500, None);
    let by_bob = pull("bob", "open", AT_1500, None);
    let by_mallory = pull("mallory", "open", AT_1500, None);
    assert_eq!(counted_student(&students, &by_alice, true), Some(&"alice".to_string()));
    assert_eq!(counted_student(&students, &by_bob, true), None);
    assert_eq!(counted_student(&students, &by_bob, false), Some(&"bob".to_string()));
    assert_eq!(counted_student(&students, &by_mallory, false), None);
}

#[test]
fn mid_evals_flag_must_read_true() {
    assert!(has_passed_mid(&student("a", Some("true"))));
    assert!(!has_passed_mid(&student("a", Some("false"))));
    assert!(!has_passed_mid(&student("a", Some("True"))));
    assert!(!has_passed_mid(&student("a", Some(" true"))));
    assert!(!has_passed_mid(&student("a", Some(""))));
    assert!(!has_passed_mid(&student("a", None)));
}

#[test]
fn record_pull_follows_window_and_kind() {
    let mut students = directory(vec![student("alice", Some("true"))]);
    let alice = "alice".to_string();
    record_pull(&mut students, &alice, true, false, 1000, 1000, 2000);
    assert_eq!(counts(&students, "alice"), (1, 0));
    record_pull(&mut students, &alice, true, true, 1999, 1000, 2000);
    assert_eq!(counts(&students, "alice"), (2, 0));
    record_pull(&mut students, &alice, false, true, 1500, 1000, 2000);
    assert_eq!(counts(&students, "alice"), (2, 1));
    record_pull(&mut students, &alice, false, false, 1500, 1000, 2000);
    assert_eq!(counts(&students, "alice"), (2, 1));
    record_pull(&mut students, &alice, true, true, 2000, 1000, 2000);
    record_pull(&mut students, &alice, false, true, 999, 1000, 2000);
    record_pull(&mut students, &alice, true, false, -5, 1000, 2000);
    assert_eq!(counts(&students, "alice"), (2, 1));
    record_pull(&mut students, &alice, true, false, -5, -10, 0);
    assert_eq!(counts(&students, "alice"), (3, 1));
}

#[test]
fn created_seconds_reads_rfc3339() {
    assert_eq!(created_seconds(&Some("2015-05-15T00:00:00Z".to_string())), Ok(1431648000));
    assert_eq!(created_seconds(&Some("1996-12-19T16:39:57-08:00".to_string())), Ok(851042397));
    assert_eq!(created_seconds(&Some("1970-01-01T00:00:00Z".to_string())), Ok(0));
    assert_eq!(created_seconds(&Some("1969-12-31T23:59:59Z".to_string())), Ok(-1));
    assert_eq!(created_seconds(&Some("1970-01-01T00:25:00.750Z".to_string())), Ok(1500));
}

#[test]
fn created_seconds_refuses_what_is_no_timestamp() {
    assert_eq!(created_seconds(&None), Err(StatsError::MalformedTimestamp));
    assert_eq!(created_seconds(&Some(String::new())), Err(StatsError::MalformedTimestamp));
    assert_eq!(created_seconds(&Some("1500".to_string())), Err(StatsError::MalformedTimestamp));
    assert_eq!(created_seconds(&Some("2015-05-15".to_string())), Err(StatsError::MalformedTimestamp));
    assert_eq!(created_seconds(&Some("2015-13-15T00:00:00Z".to_string())), Err(StatsError::MalformedTimestamp));
    assert_eq!(created_seconds(&Some("2015-05-15T00:00:00".to_string())), Err(StatsError::MalformedTimestamp));
}

#[test]
fn full_counter_of_a_student_without_pulls_is_no_hindrance() {
    let mut students = StudentDirectory::new();
    let mut bob = student("bob", Some("true"));
    bob.open_pr_count = u32::MAX;
    bob.merged_pr_count = u32::MAX - 1;
    students.insert(bob);
    students.insert(student("alice", Some("true")));
    let pulls = vec![
        pull("alice", "open", AT_1500, None),
        pull("bob", "closed", AT_1500, Some(AT_1999)),
        pull("bob", "open", AT_2500, None),
        pull("bob", "closed", AT_1500, None),
    ];
    assert_eq!(update_users_pr_counts(1000, 2000, &mut students, &pulls, false), Ok(()));
    assert_eq!(counts(&students, "alice"), (1, 0));
    assert_eq!(counts(&students, "bob"), (u32::MAX, u32::MAX));
}

#[test]
fn update_if_room_counts_where_every_counter_has_room() {
    let mut students = directory(vec![student("alice", Some("true")), student("bob", Some("false"))]);
    let pulls = vec![
        pull("alice", "open", AT_1500, None),
        pull("bob", "closed", AT_1500, Some(AT_1999)),
        pull("alice", "closed", AT_2000, Some(AT_2500)),
    ];
    assert_eq!(update_if_room(1000, 2000, &mut students, &pulls, false), Some(Ok(())));
    assert_eq!(counts(&students, "alice"), (1, 0));
    assert_eq!(counts(&students, "bob"), (0, 1));
    let stopping = vec![pull("alice", "open", "no time", None)];
    assert_eq!(
        update_if_room(1000, 2000, &mut students, &stopping, false),
        Some(Err(StatsError::MalformedTimestamp))
    );
    assert_eq!(counts(&students, "alice"), (1, 0));
}

#[test]
fn update_if_room_counts_nothing_where_a_counter_lacks_room() {
    let mut students = StudentDirectory::new();
    let mut bob = student("bob", Some("true"));
    bob.merged_pr_count = u32::MAX - 1;
    students.insert(bob);
    students.insert(student("alice", Some("true")));
    let pulls = vec![pull("alice", "open", AT_1500, None), pull("alice", "open", AT_1500, None)];
    assert_eq!(update_if_room(1000, 2000, &mut students, &pulls, false), None);
    assert_eq!(counts(&students, "alice"), (0, 0));
    assert_eq!(counts(&students, "bob"), (0, u32::MAX - 1));
    let one = vec![pull("alice", "open", AT_1500, None)];
    assert_eq!(update_if_room(1000, 2000, &mut students, &one, false), Some(Ok(())));
    assert_eq!(counts(&students, "alice"), (1, 0));
    assert_eq!(update_if_room(1000, 2000, &mut students, &Vec::new(), false), Some(Ok(())));
}

#[test]
fn one_pass_for_each_project_counts_like_one_pass_over_all() {
    let one = vec![pull("alice", "open", AT_1500, None), pull("bob", "closed", AT_1500, Some(AT_1999))];
    let other = vec![pull("bob", "open", AT_1000, None), pull("alice", "open", AT_1999, None)];
    let third = vec![pull("alice", "closed", AT_1500, Some(AT_2500))];
    let fresh = || directory(vec![student("alice", Some("true")), student("bob", None)]);
    let mut in_turn = fresh();
    for listing in [&one, &other, &third] {
        assert_eq!(update_users_pr_counts(1000, 2000, &mut in_turn, listing, false), Ok(()));
    }
    let mut reordered = fresh();
    for listing in [&third, &one, &other] {
        assert_eq!(update_users_pr_counts(1000, 2000, &mut reordered, listing, false), Ok(()));
    }
    let mut at_once = fresh();
    let all: Vec<Pull> = one.iter().chain(other.iter()).chain(third.iter()).cloned().collect();
    assert_eq!(update_users_pr_counts(1000, 2000, &mut at_once, &all, false), Ok(()));
    for name in ["alice", "bob"] {
        assert_eq!(counts(&in_turn, name), counts(&at_once, name));
        assert_eq!(counts(&reordered, name), counts(&at_once, name));
    }
    assert_eq!(counts(&at_once, "alice"), (2, 1));
    assert_eq!(counts(&at_once, "bob"), (1, 1));
}
