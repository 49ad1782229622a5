use vstd::prelude::*;
use crate::number::{id_from_var, id_in};

verus! {

/// Where the question of the day is fetched.
pub const QOTD_URL: &'static str = "https://api.harys.is-a.dev/v1/qotd";

/// The hour of the day, New York time, at which the question is posted.
pub const POST_HOUR_EST: u32 = 10;

/// The general chat that the value of `GENERAL_CHAT` names.
pub fn general_chat_from_env(value: Option<&str>) -> (r: Option<u64>)
    ensures
        r == id_in(
            match value {
                Some(v) => Some(v@),
                None => None,
            },
        ),
{
    id_from_var(value)
}

/// What the question-of-the-day service answers.
pub struct QotdResponse {
    pub questions: Vec<String>,
}

/// The question to post: the first one of the answer.
pub fn first_question(resp: QotdResponse) -> (r: Result<String, String>)
    ensures
        resp.questions@.len() > 0 ==> r == Ok::<String, String>(resp.questions@[0]),
        resp.questions@.len() == 0 ==> (r matches Err(e) && e@ == "empty questions list"@),
{
    let mut questions = resp.questions;
    if questions.len() == 0 {
        return Err(String::from_str("empty questions list"));
    }
    Ok(questions.swap_remove(0))
}

/// What to do once the question has been fetched.
pub enum QotdPost {
    /// Post an embed with this title and description.
    Send { title: String, description: String },
    /// Post nothing; log this line instead.
    Skip { log: String },
}

/// The post for the result of fetching the question.
pub fn post_plan(fetched: Result<String, String>) -> (p: QotdPost)
    ensures
        match fetched {
            Ok(q) => p matches QotdPost::Send { title, description } && title@
                == "Question of the Day"@ && description@ == q@,
            Err(e) => p matches QotdPost::Skip { log } && log@ == "qotd fetch failed: "@ + e@,
        },
{
    match fetched {
        Ok(q) => QotdPost::Send { title: String::from_str("Question of the Day"), description: q },
        Err(e) => {
            let mut log = String::from_str("qotd fetch failed: ");
            log.append(e.as_str());
            QotdPost::Skip { log }
        },
    }
}

// ---------------------------------------------------------------------------
// When to post
// ---------------------------------------------------------------------------

/// The wall-clock time in New York at the instant `instant` (seconds since the Unix epoch), as
/// seconds since 1970-01-01 00:00 on the local calendar; `None` when the instant or its local
/// time lies outside chrono's range.
pub uninterp spec fn new_york_local_time(instant: i64) -> Option<i64>;

/// The instant at which New York's clocks show the local time `local` (seconds on the local
/// calendar), when there is exactly one; `None` when the local time is skipped or repeated by a
/// clock change, or outside chrono's range.
pub uninterp spec fn new_york_unique_instant(local: i64) -> Option<i64>;

/// Calls `DateTime::from_timestamp`, New York's `offset_from_utc_datetime` (chrono-tz) and
/// `NaiveDateTime::checked_add_offset` (what `with_timezone(&New_York).naive_local()` computes,
/// without its panic near the ends of chrono's range): the result is named
/// `new_york_local_time` of `instant`.
#[verifier::external_body]
fn new_york_wall_clock(instant: i64) -> (r: Option<i64>)
    ensures
        r == new_york_local_time(instant),
{
    match chrono::DateTime::from_timestamp(instant, 0) {
        Some(t) => {
            let utc = t.naive_utc();
            let offset = chrono::TimeZone::offset_from_utc_datetime(&chrono_tz::America::New_York, &utc);
            match utc.checked_add_offset(chrono::Offset::fix(&offset)) {
                Some(local) => Some(local.and_utc().timestamp()),
                None => None,
            }
        },
        None => None,
    }
}

/// Calls `New_York.from_local_datetime(..).single()` (chrono-tz) on the local time `local`
/// (built with `DateTime::from_timestamp(local, 0).naive_utc()`): the result is named
/// `new_york_unique_instant` of `local`.
#[verifier::external_body]
fn new_york_instant(local: i64) -> (r: Option<i64>)
    ensures
        r == new_york_unique_instant(local),
{
    match chrono::DateTime::from_timestamp(local, 0) {
        Some(t) => match chrono::TimeZone::from_local_datetime(
            &chrono_tz::America::New_York,
            &t.naive_utc(),
        ).single() {
            Some(d) => Some(d.timestamp()),
            None => None,
        },
        None => None,
    }
}

/// The next posting time after `now` (seconds since the Unix epoch): today at
/// `POST_HOUR_EST`:00 New York time, or the same instant a day later when that is not after
/// `now`. When the local time is ambiguous or skipped, the local clock reading is taken as a UTC
/// time instead. `None` outside chrono's range.
pub open spec fn next_post_time(now: i64) -> Option<i64> {
    match new_york_local_time(now) {
        None => None,
        Some(local) => {
            let target_local = local - local % 86400 + POST_HOUR_EST * 3600;
            if !(i64::MIN <= target_local <= i64::MAX) {
                None
            } else {
                let target: int = match new_york_unique_instant(target_local as i64) {
                    Some(t) => t as int,
                    None => target_local,
                };
                let next = if target <= now {
                    target + 86400
                } else {
                    target
                };
                if next <= i64::MAX {
                    Some(next as i64)
                } else {
                    None
                }
            }
        },
    }
}

/// When the next question is posted, for the current time `now` (whole seconds since the Unix
/// epoch).
pub fn next_post_at(now: i64) -> (r: Option<i64>)
    ensures
        r == next_post_time(now),
{
    let local = match new_york_wall_clock(now) {
        Some(l) => l,
        None => {
            return None;
        },
    };
    let shifted: u128 = ((local as i128) + 12159718993900339200i128) as u128;
    let rem: u128 = shifted % 86400;
    proof {
        vstd::arithmetic::div_mod::lemma_mod_multiples_vanish(
            140737488355328,
            local as int,
            86400,
        );
        assert(86400 * 140737488355328 + local as int == shifted as int);
    }
    let target_local: i128 = (local as i128) - (rem as i128) + (POST_HOUR_EST as i128) * 3600;
    if target_local < -0x8000_0000_0000_0000i128 || target_local > 0x7fff_ffff_ffff_ffffi128 {
        return None;
    }
    let target: i128 = match new_york_instant(target_local as i64) {
        Some(t) => t as i128,
        None => target_local,
    };
    let next: i128 = if target <= now as i128 {
        target + 86400
    } else {
        target
    };
    if next > 0x7fff_ffff_ffff_ffffi128 {
        return None;
    }
    Some(next as i64)
}

/// How long to sleep before posting at `next` (whole seconds since the Unix epoch), the time now
/// being `now_secs` seconds and `now_nanos` nanoseconds since the epoch: the difference, as
/// seconds and nanoseconds, or one minute when `next` is already past.
pub open spec fn wait_time(next: i64, now_secs: i64, now_nanos: u32) -> (u64, u32) {
    let delta = next * 1_000_000_000 - (now_secs * 1_000_000_000 + now_nanos);
    if delta < 0 {
        (60, 0)
    } else {
        ((delta / 1_000_000_000) as u64, (delta % 1_000_000_000) as u32)
    }
}

/// The time to sleep before the next post.
pub fn wait_before_post(next: i64, now_secs: i64, now_nanos: u32) -> (w: (u64, u32))
    requires
        now_nanos < 1_000_000_000,
    ensures
        w == wait_time(next, now_secs, now_nanos),
        w.1 < 1_000_000_000,
{
    let delta: i128 = (next as i128) * 1_000_000_000 - ((now_secs as i128) * 1_000_000_000
        + now_nanos as i128);
    if delta < 0 {
        (60, 0)
    } else {
        let secs: i128 = delta / 1_000_000_000;
        let nanos: i128 = delta % 1_000_000_000;
        assert(secs <= u64::MAX) by (nonlinear_arith)
            requires
                secs == delta / 1_000_000_000,
                0 <= delta <= 0x7fff_ffff_ffff_ffff * 2_000_000_000 + 1_000_000_000,
        ;
        (secs as u64, nanos as u32)
    }
}

/// Sleeping for `wait_time(next, ..)` from the moment `now_secs` s and `now_nanos` ns never
/// ends before `next`: it ends exactly at `next` when that is still ahead, and one minute later
/// (already past `next`) otherwise. So no question is posted before the instant it waits for.
pub proof fn law_sleep_never_ends_before_the_post(next: i64, now_secs: i64, now_nanos: u32)
    requires
        now_nanos < 1_000_000_000,
    ensures
        ({
            let (secs, nanos) = wait_time(next, now_secs, now_nanos);
            let start = now_secs * 1_000_000_000 + now_nanos;
            let end = start + secs * 1_000_000_000 + nanos;
            &&& end >= next * 1_000_000_000
            &&& start <= next * 1_000_000_000 ==> end == next * 1_000_000_000
        }),
{
    let delta = next * 1_000_000_000 - (now_secs * 1_000_000_000 + now_nanos);
    if delta >= 0 {
        assert(delta == (delta / 1_000_000_000) * 1_000_000_000 + delta % 1_000_000_000);
        assert(delta / 1_000_000_000 <= u64::MAX) by (nonlinear_arith)
            requires
                0 <= delta <= 0x7fff_ffff_ffff_ffff * 2_000_000_000 + 1_000_000_000,
        ;
    }
}

} // verus!
