//! Source records and how each becomes a datapoint.
use vstd::prelude::*;
use crate::calendar::{CivilTime, civil_time, civil_time_matches, day_bucket, day_bucket_of, day_bucket_text, format_day_bucket, in_calendar};
use crate::datapoint::{CanonicalDatapoint, CanonicalModel, MappingError, TargetDatapoint, UNIT, opt_text, target_models};
use crate::dedup::{DedupIndex, DedupKey, KeyModel, KeyStrategy, stored_keys};
use crate::text::{contains_seq, decimal, line_at, lines_of, push_decimal, push_zero_padded, text_contains, texts, trim_of, trimmed, zero_padded};

verus! {

// ----- completed tasks -----

/// A completed task of the task manager, as far as mirroring reads it.
#[derive(Debug)]
pub struct TaskRecord {
    pub id: Option<String>,
    pub title: Option<String>,
    /// Milliseconds since the Unix epoch.
    pub done_at: Option<u64>,
}

/// The comment of a task without a title.
pub open spec fn untitled_task() -> Seq<char> {
    "Untitled task"@
}

/// A task as a datapoint, when its id and completion instant are usable.
pub open spec fn task_datapoint(id: Seq<char>, title: Option<Seq<char>>, done_at: int) -> CanonicalModel {
    CanonicalModel {
        value: UNIT as int,
        timestamp: Some(done_at / 1000),
        day_bucket: Some(day_bucket_of(done_at / 1000)),
        comment: match title {
            Some(t) => t,
            None => untitled_task(),
        },
        external_id: Some(id),
    }
}

/// Maps a completed task to a datapoint keyed by the task's id and dated at
/// its completion (to the second).
pub fn task_to_datapoint(task: &TaskRecord) -> (r: Result<CanonicalDatapoint, MappingError>)
    ensures
        task.id is None ==> r == Err::<CanonicalDatapoint, MappingError>(MappingError::MissingId),
        task.id is Some && task.done_at is None ==> r == Err::<CanonicalDatapoint, MappingError>(
            MappingError::MissingTimestamp,
        ),
        task.id is Some && task.done_at is Some && !in_calendar(task.done_at->0 as int / 1000)
            ==> r == Err::<CanonicalDatapoint, MappingError>(MappingError::TimestampOutOfRange),
        task.id is Some && task.done_at is Some && in_calendar(task.done_at->0 as int / 1000) ==> r is Ok
            && r->Ok_0@ == task_datapoint(
            task.id->0@,
            opt_text(task.title),
            task.done_at->0 as int,
        ),
{
    let id = match &task.id {
        Some(id) => id,
        None => {
            return Err(MappingError::MissingId);
        },
    };
    let millis = match task.done_at {
        Some(m) => m,
        None => {
            return Err(MappingError::MissingTimestamp);
        },
    };
    let seconds = (millis / 1000) as i64;
    let bucket = match day_bucket(seconds) {
        Some(b) => b,
        None => {
            return Err(MappingError::TimestampOutOfRange);
        },
    };
    let comment = match &task.title {
        Some(t) => t.clone(),
        None => String::from_str("Untitled task"),
    };
    Ok(
        CanonicalDatapoint {
            value: UNIT,
            timestamp: Some(seconds),
            day_bucket: Some(bucket),
            comment,
            external_id: Some(id.clone()),
        },
    )
}

// ----- forecasting questions -----

/// A forecasting question.
#[derive(Debug)]
pub struct Question {
    pub id: String,
    pub title: String,
    /// Seconds since the Unix epoch.
    pub resolve_by: i64,
    /// Seconds since the Unix epoch.
    pub created_at: i64,
    pub comment: Option<String>,
    pub profile_id: Option<String>,
    pub question_type: String,
    pub resolved: bool,
    pub pinged_for_resolution: bool,
    pub resolution: Option<String>,
    /// Seconds since the Unix epoch.
    pub resolved_at: Option<i64>,
    pub notes: Option<String>,
    pub hide_forecasts_until: Option<String>,
    pub hide_forecasts_until_prediction: bool,
    pub user_id: String,
}

/// Maps a question to a datapoint keyed by the question's id and dated at its
/// creation.
pub fn question_to_datapoint(question: &Question) -> (r: Result<CanonicalDatapoint, MappingError>)
    ensures
        r is Ok <==> in_calendar(question.created_at as int),
        !in_calendar(question.created_at as int) ==> r == Err::<CanonicalDatapoint, MappingError>(
            MappingError::TimestampOutOfRange,
        ),
        r is Ok ==> r->Ok_0@ == (CanonicalModel {
            value: UNIT as int,
            timestamp: Some(question.created_at as int),
            day_bucket: Some(day_bucket_of(question.created_at as int)),
            comment: question.title@,
            external_id: Some(question.id@),
        }),
{
    match day_bucket(question.created_at) {
        Some(bucket) => Ok(
            CanonicalDatapoint {
                value: UNIT,
                timestamp: Some(question.created_at),
                day_bucket: Some(bucket),
                comment: question.title.clone(),
                external_id: Some(question.id.clone()),
            },
        ),
        None => Err(MappingError::TimestampOutOfRange),
    }
}

// ----- commits -----

/// A commit of a repository.
#[derive(Debug)]
pub struct Commit {
    pub sha: String,
    pub message: String,
    pub repository: String,
    /// Seconds since the Unix epoch.
    pub committer_date: i64,
}

/// The first line of a text, or nothing for an empty text.
pub open spec fn first_line(s: Seq<char>) -> Seq<char> {
    if lines_of(s).len() > 0 {
        lines_of(s)[0]
    } else {
        Seq::empty()
    }
}

/// The first line of a text, or nothing for an empty text.
pub fn first_line_of(s: &str) -> (r: String)
    ensures
        r@ == first_line(s@),
{
    match line_at(s, 0) {
        Some(line) => line,
        None => String::new(),
    }
}

/// The comment of a commit: the repository, a colon and the trimmed first
/// line of the message.
pub open spec fn commit_comment_text(repository: Seq<char>, summary: Seq<char>) -> Seq<char> {
    repository + ": "@ + summary
}

/// The comment of a commit, given the trimmed first line of its message.
pub fn commit_comment(repository: &str, summary: &str) -> (r: String)
    ensures
        r@ == commit_comment_text(repository@, summary@),
{
    let mut out = String::from_str(repository);
    out.append(": ");
    out.append(summary);
    out
}

/// Maps a commit to a datapoint keyed by its hash and dated at its commit
/// instant.
pub fn commit_to_datapoint(commit: &Commit) -> (r: Result<CanonicalDatapoint, MappingError>)
    ensures
        r is Ok <==> in_calendar(commit.committer_date as int),
        !in_calendar(commit.committer_date as int) ==> r == Err::<CanonicalDatapoint, MappingError>(
            MappingError::TimestampOutOfRange,
        ),
        r is Ok ==> r->Ok_0@ == (CanonicalModel {
            value: UNIT as int,
            timestamp: Some(commit.committer_date as int),
            day_bucket: Some(day_bucket_of(commit.committer_date as int)),
            comment: commit_comment_text(commit.repository@, trim_of(first_line(commit.message@))),
            external_id: Some(commit.sha@),
        }),
{
    match day_bucket(commit.committer_date) {
        Some(bucket) => {
            let line = first_line_of(commit.message.as_str());
            let comment = commit_comment(commit.repository.as_str(), trimmed(line.as_str()));
            Ok(
                CanonicalDatapoint {
                    value: UNIT,
                    timestamp: Some(commit.committer_date),
                    day_bucket: Some(bucket),
                    comment,
                    external_id: Some(commit.sha.clone()),
                },
            )
        },
        None => Err(MappingError::TimestampOutOfRange),
    }
}

// ----- meeting sessions -----

/// A participant of a meeting session.
#[derive(Debug)]
pub struct Participant {
    pub session_title: Option<String>,
}

/// A meeting session; the first participant is the user.
#[derive(Debug)]
pub struct SessionRecord {
    /// Seconds since the Unix epoch.
    pub start_time: i64,
    /// Milliseconds.
    pub duration: i64,
    pub completed: bool,
    pub users: Vec<Participant>,
    /// The partner's name, where it could be looked up.
    pub partner: Option<String>,
}

/// The user's title of a session: the first participant's, or nothing.
pub open spec fn session_title_of(s: SessionRecord) -> Seq<char> {
    match s.users@[0].session_title {
        Some(t) => t@,
        None => Seq::empty(),
    }
}

/// The user's title of a session; fails when the session lists nobody.
pub fn get_session_title(session: &SessionRecord) -> (r: Result<String, MappingError>)
    ensures
        session.users@.len() == 0 <==> r == Err::<String, MappingError>(
            MappingError::MissingParticipant,
        ),
        r is Ok <==> session.users@.len() > 0,
        r is Ok ==> r->Ok_0@ == session_title_of(*session),
{
    if session.users.len() == 0 {
        return Err(MappingError::MissingParticipant);
    }
    match &session.users[0].session_title {
        Some(t) => Ok(t.clone()),
        None => Ok(String::new()),
    }
}

/// The English name of a weekday counted from Monday.
pub open spec fn weekday_name(d: int) -> Seq<char> {
    if d == 0 {
        "Monday"@
    } else if d == 1 {
        "Tuesday"@
    } else if d == 2 {
        "Wednesday"@
    } else if d == 3 {
        "Thursday"@
    } else if d == 4 {
        "Friday"@
    } else if d == 5 {
        "Saturday"@
    } else {
        "Sunday"@
    }
}

fn weekday_str(d: u8) -> (r: &'static str)
    ensures
        r@ == weekday_name(d as int),
{
    if d == 0 {
        "Monday"
    } else if d == 1 {
        "Tuesday"
    } else if d == 2 {
        "Wednesday"
    } else if d == 3 {
        "Thursday"
    } else if d == 4 {
        "Friday"
    } else if d == 5 {
        "Saturday"
    } else {
        "Sunday"
    }
}

/// The partner's name in a session comment when it is not known.
pub open spec fn unknown_partner() -> Seq<char> {
    "unknown partner"@
}

/// The comment of a session: `<Weekday>, <HH>:<MM> (UTC), <title> with
/// <partner> for <minutes> mins`.
pub open spec fn session_comment_text(
    c: CivilTime,
    title: Seq<char>,
    partner: Option<Seq<char>>,
    minutes: int,
) -> Seq<char> {
    weekday_name(c.weekday as int) + ", "@ + zero_padded(c.hour as nat, 2) + ":"@ + zero_padded(
        c.minute as nat,
        2,
    ) + " (UTC), "@ + title + " with "@ + match partner {
        Some(p) => p,
        None => unknown_partner(),
    } + " for "@ + signed_decimal(minutes) + " mins"@
}

/// Whole minutes in a number of milliseconds, rounded toward zero.
pub open spec fn minutes_of(millis: int) -> int {
    if millis >= 0 {
        millis / 60000
    } else {
        -((-millis) / 60000)
    }
}

/// The decimal notation of an integer, with a minus sign when negative.
pub open spec fn signed_decimal(n: int) -> Seq<char> {
    if n >= 0 {
        decimal(n as nat)
    } else {
        "-"@ + decimal((-n) as nat)
    }
}

fn session_comment(c: &CivilTime, title: &str, partner: &Option<String>, millis: i64) -> (r: String)
    ensures
        r@ == session_comment_text(*c, title@, opt_text(*partner), minutes_of(millis as int)),
{
    let mut out = String::from_str(weekday_str(c.weekday));
    out.append(", ");
    push_zero_padded(&mut out, c.hour as u64, 2);
    out.append(":");
    push_zero_padded(&mut out, c.minute as u64, 2);
    out.append(" (UTC), ");
    out.append(title);
    out.append(" with ");
    match partner {
        Some(p) => out.append(p.as_str()),
        None => out.append("unknown partner"),
    }
    out.append(" for ");
    let ghost before = out@;
    let d = millis as i128;
    if d >= 0 {
        push_decimal(&mut out, (d / 60000) as u64);
    } else {
        let whole: i128 = (-d) / 60000;
        if whole > 0 {
            out.append("-");
            proof {
                reveal_strlit("-");
            }
        }
        push_decimal(&mut out, whole as u64);
        assert(out@ =~= before + signed_decimal(minutes_of(millis as int)));
    }
    out.append(" mins");
    out
}

/// A session as a datapoint, keyed by its start instant.
pub open spec fn session_datapoint(s: SessionRecord, c: CivilTime) -> CanonicalModel {
    CanonicalModel {
        value: UNIT as int,
        timestamp: Some(s.start_time as int),
        day_bucket: Some(day_bucket_text(c.year as int, c.month as int, c.day as int)),
        comment: session_comment_text(
            c,
            session_title_of(s),
            opt_text(s.partner),
            minutes_of(s.duration as int),
        ),
        external_id: None,
    }
}

/// Maps a session to a datapoint dated at its start, with the start read on
/// a UTC clock, the user's title, the partner and the length in whole
/// minutes in its comment.
pub fn session_to_datapoint(session: &SessionRecord) -> (r: Result<CanonicalDatapoint, MappingError>)
    ensures
        !in_calendar(session.start_time as int) ==> r == Err::<CanonicalDatapoint, MappingError>(
            MappingError::TimestampOutOfRange,
        ),
        in_calendar(session.start_time as int) && session.users@.len() == 0 ==> r == Err::<
            CanonicalDatapoint,
            MappingError,
        >(MappingError::MissingParticipant),
        in_calendar(session.start_time as int) && session.users@.len() > 0 ==> r is Ok
            && exists|c: CivilTime|
            civil_time_matches(session.start_time as int, c) && r->Ok_0@ == session_datapoint(
                *session,
                c,
            ),
{
    let c = match civil_time(session.start_time) {
        Some(c) => c,
        None => {
            return Err(MappingError::TimestampOutOfRange);
        },
    };
    let title = match get_session_title(session) {
        Ok(t) => t,
        Err(e) => {
            return Err(e);
        },
    };
    let comment = session_comment(&c, title.as_str(), &session.partner, session.duration);
    let bucket = format_day_bucket(&c);
    let r = CanonicalDatapoint {
        value: UNIT,
        timestamp: Some(session.start_time),
        day_bucket: Some(bucket),
        comment,
        external_id: None,
    };
    assert(r@ == session_datapoint(*session, c));
    Ok(r)
}

/// The outcomes of mapping each completed session, in order; sessions that
/// were not completed are left out.
pub open spec fn completed_sessions(s: Seq<SessionRecord>) -> Seq<SessionRecord>
    decreases s.len(),
{
    if s.len() == 0 {
        seq![]
    } else if s.last().completed {
        completed_sessions(s.drop_last()).push(s.last())
    } else {
        completed_sessions(s.drop_last())
    }
}

/// Maps each completed session; the result has one outcome per completed
/// session, in order, each the outcome of `session_to_datapoint`.
pub fn map_completed_sessions(sessions: &[SessionRecord]) -> (r: Vec<
    Result<CanonicalDatapoint, MappingError>,
>)
    ensures
        r@.len() == completed_sessions(sessions@).len(),
        forall|i: int|
            0 <= i < r@.len() ==> {
                let s = #[trigger] completed_sessions(sessions@)[i];
                &&& (!in_calendar(s.start_time as int) ==> r@[i] == Err::<
                    CanonicalDatapoint,
                    MappingError,
                >(MappingError::TimestampOutOfRange))
                &&& (in_calendar(s.start_time as int) && s.users@.len() == 0 ==> r@[i] == Err::<
                    CanonicalDatapoint,
                    MappingError,
                >(MappingError::MissingParticipant))
                &&& (in_calendar(s.start_time as int) && s.users@.len() > 0 ==> r@[i] is Ok
                    && exists|c: CivilTime|
                    civil_time_matches(s.start_time as int, c) && r@[i]->Ok_0@ == session_datapoint(
                        s,
                        c,
                    ))
            },
{
    let mut out: Vec<Result<CanonicalDatapoint, MappingError>> = Vec::new();
    let mut i: usize = 0;
    assert(sessions@.subrange(0, 0) =~= Seq::<SessionRecord>::empty());
    while i < sessions.len()
        invariant
            i <= sessions@.len(),
            out@.len() == completed_sessions(sessions@.subrange(0, i as int)).len(),
            forall|k: int|
                0 <= k < out@.len() ==> {
                    let s = #[trigger] completed_sessions(sessions@.subrange(0, i as int))[k];
                    &&& (!in_calendar(s.start_time as int) ==> out@[k] == Err::<
                        CanonicalDatapoint,
                        MappingError,
                    >(MappingError::TimestampOutOfRange))
                    &&& (in_calendar(s.start_time as int) && s.users@.len() == 0 ==> out@[k]
                        == Err::<CanonicalDatapoint, MappingError>(
                        MappingError::MissingParticipant,
                    ))
                    &&& (in_calendar(s.start_time as int) && s.users@.len() > 0 ==> out@[k] is Ok
                        && exists|c: CivilTime|
                        civil_time_matches(s.start_time as int, c) && out@[k]->Ok_0@
                            == session_datapoint(s, c))
                },
        decreases sessions@.len() - i,
    {
        let ghost prev = sessions@.subrange(0, i as int);
        let ghost next = sessions@.subrange(0, i + 1);
        assert(next.drop_last() =~= prev);
        assert(next.last() == sessions@[i as int]);
        if sessions[i].completed {
            let m = session_to_datapoint(&sessions[i]);
            out.push(m);
            assert forall|k: int| 0 <= k < out@.len() - 1 implies #[trigger] completed_sessions(next)[k]
                == completed_sessions(prev)[k] by {}
        }
        i = i + 1;
    }
    assert(sessions@.subrange(0, sessions@.len() as int) =~= sessions@);
    out
}

// ----- tags -----

/// The tags whose `#tag` occurs in `comment`, in their order.
pub open spec fn matching_tags(tags: Seq<Seq<char>>, comment: Seq<char>) -> Seq<Seq<char>>
    decreases tags.len(),
{
    if tags.len() == 0 {
        seq![]
    } else {
        let p = matching_tags(tags.drop_last(), comment);
        if contains_seq(comment, seq!['#'] + tags.last()) {
            p.push(tags.last())
        } else {
            p
        }
    }
}

/// The tags mentioned in a comment as `#tag`: each is also a goal that gets
/// a copy of the datapoint.
pub fn find_matching_tags(tags: &[String], comment: &str) -> (r: Vec<String>)
    ensures
        texts(r@) == matching_tags(texts(tags@), comment@),
{
    let mut out: Vec<String> = Vec::new();
    let mut i: usize = 0;
    assert(texts(tags@).subrange(0, 0) =~= Seq::<Seq<char>>::empty());
    assert(texts(out@) =~= Seq::<Seq<char>>::empty());
    while i < tags.len()
        invariant
            i <= tags@.len(),
            texts(out@) == matching_tags(texts(tags@).subrange(0, i as int), comment@),
        decreases tags@.len() - i,
    {
        let ghost prev = texts(tags@).subrange(0, i as int);
        let ghost next = texts(tags@).subrange(0, i + 1);
        assert(next.drop_last() =~= prev);
        assert(next.last() == tags@[i as int]@);
        let mut needle = String::from_str("#");
        needle.append(tags[i].as_str());
        proof {
            reveal_strlit("#");
        }
        assert(needle@ =~= seq!['#'] + tags@[i as int]@);
        if text_contains(comment, needle.as_str()) {
            let ghost before = out@;
            out.push(tags[i].clone());
            assert(texts(out@) =~= texts(before).push(tags@[i as int]@));
        }
        i = i + 1;
    }
    assert(texts(tags@).subrange(0, tags@.len() as int) =~= texts(tags@));
    out
}

// ----- watched videos -----

/// Maps a watched video to a datapoint keyed by its title, dated `now`.
pub fn video_to_datapoint(title: &str, now: i64) -> (r: CanonicalDatapoint)
    ensures
        r@ == (CanonicalModel {
            value: UNIT as int,
            timestamp: Some(now as int),
            day_bucket: None,
            comment: title@,
            external_id: None,
        }),
{
    CanonicalDatapoint {
        value: UNIT,
        timestamp: Some(now),
        day_bucket: None,
        comment: String::from_str(title),
        external_id: None,
    }
}

/// For each session, whether its partner's name is needed: it was completed
/// and no stored datapoint has its start instant, so it will be created.
pub fn partner_wanted(sessions: &[SessionRecord], existing: &[TargetDatapoint]) -> (r: Vec<bool>)
    ensures
        r@.len() == sessions@.len(),
        forall|i: int|
            0 <= i < r@.len() ==> #[trigger] r@[i] == (sessions@[i].completed && !stored_keys(
                KeyStrategy::Timestamp,
                target_models(existing@),
            ).contains(KeyModel::At(sessions@[i].start_time as int))),
{
    let index = DedupIndex::build(KeyStrategy::Timestamp, existing);
    let mut out: Vec<bool> = Vec::new();
    let mut i: usize = 0;
    while i < sessions.len()
        invariant
            i <= sessions@.len(),
            out@.len() == i,
            index@ == stored_keys(KeyStrategy::Timestamp, target_models(existing@)),
            forall|k: int|
                0 <= k < i ==> #[trigger] out@[k] == (sessions@[k].completed && !index@.contains(
                    KeyModel::At(sessions@[k].start_time as int),
                )),
        decreases sessions@.len() - i,
    {
        let wanted = sessions[i].completed && !index.contains(&DedupKey::At(sessions[i].start_time));
        out.push(wanted);
        i = i + 1;
    }
    out
}

} // verus!
