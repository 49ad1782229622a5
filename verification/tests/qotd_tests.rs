use uess::qotd::{first_question, general_chat_from_env, next_post_at, post_plan, wait_before_post, QotdPost, QotdResponse};

#[test]
fn the_first_question_is_posted() {
    let resp = QotdResponse { questions: vec!["Tabs or spaces?".to_string(), "Vim or Emacs?".to_string()] };
    assert_eq!(first_question(resp), Ok("Tabs or spaces?".to_string()));
    assert_eq!(first_question(QotdResponse { questions: vec![] }), Err("empty questions list".to_string()));
}

#[test]
fn posts_are_embeds_or_log_lines() {
    match post_plan(Ok("Why?".to_string())) {
        QotdPost::Send { title, description } => {
            assert_eq!(title, "Question of the Day");
            assert_eq!(description, "Why?");
        }
        _ => panic!("expected a post"),
    }
    match post_plan(Err("404".to_string())) {
        QotdPost::Skip { log } => assert_eq!(log, "qotd fetch failed: 404"),
        _ => panic!("expected a skip"),
    }
}

#[test]
fn posting_time_is_ten_in_new_york() {
    // 2024-01-15 12:00 UTC is 07:00 EST: today at 10:00 EST, 15:00 UTC.
    assert_eq!(next_post_at(1705320000), Some(1705330800));
    // 16:00 UTC is past 10:00 EST: tomorrow.
    assert_eq!(next_post_at(1705334400), Some(1705417200));
    // Exactly at the posting time: tomorrow.
    assert_eq!(next_post_at(1705330800), Some(1705417200));
    // Summer time: 10:00 EDT is 14:00 UTC.
    assert_eq!(next_post_at(1719842399), Some(1719842400));
    assert_eq!(next_post_at(1719849600), Some(1719928800));
    // The day before clocks go forward: 11:00 EST on 2024-03-09 is past 10:00, so the post is
    // 24 hours after today's 10:00 EST (15:00 UTC), which is 11:00 EDT on 2024-03-10.
    assert_eq!(next_post_at(1710000000), Some(1710082800));
}

#[test]
fn times_outside_chronos_range_have_no_posting_time() {
    assert_eq!(next_post_at(i64::MIN), None);
    assert_eq!(next_post_at(i64::MAX), None);
    assert_eq!(next_post_at(-8334601315200), None);
    assert_eq!(next_post_at(-8334601315200 + 17761), None);
}

#[test]
fn sleeping_ends_at_the_post() {
    for (next, secs, nanos) in [(100i64, 40i64, 500_000_000u32), (100, 100, 0), (100, 100, 1), (100, 250, 7)] {
        let (ws, wn) = wait_before_post(next, secs, nanos);
        let end = secs as i128 * 1_000_000_000 + nanos as i128 + ws as i128 * 1_000_000_000 + wn as i128;
        assert!(end >= next as i128 * 1_000_000_000);
    }
}

#[test]
fn waits_until_the_post() {
    assert_eq!(wait_before_post(100, 40, 500_000_000), (59, 500_000_000));
    assert_eq!(wait_before_post(100, 100, 0), (0, 0));
    assert_eq!(wait_before_post(100, 100, 1), (60, 0));
    assert_eq!(wait_before_post(100, 200, 0), (60, 0));
}

#[test]
fn general_chat_comes_from_the_variable() {
    assert_eq!(general_chat_from_env(Some("555")), Some(555));
    assert_eq!(general_chat_from_env(Some("")), None);
}
