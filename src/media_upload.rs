//! The media upload workflow: register, upload to storage, poll until done.
//! The caller performs each request; these functions make every decision.
use vstd::prelude::*;
use crate::error::{EngineError, RegistrationField};
use crate::json::{field, get_field, pairs_view, JsonValue};
use crate::text::{concat, str_eq};

verus! {

/// How long processing may take, in seconds.
pub const POLL_TIMEOUT_SECS: u64 = 180;

/// The pause between two polls, in seconds.
pub const POLL_INTERVAL_SECS: u64 = 2;

/// What a media registration gives: the media id, where to upload, and the
/// form fields that authorize the upload.
#[derive(Clone, Debug, PartialEq)]
pub struct Registration {
    pub media_id: String,
    pub upload_url: String,
    pub fields: Vec<(String, String)>,
}

/// The phases of the upload workflow.
#[derive(PartialEq, Eq, Structural, Clone, Copy, Debug)]
pub enum UploadPhase {
    Registering,
    Uploading,
    Polling,
    Done,
}

/// The phase after `phase` completes: registering leads to uploading;
/// uploading leads to polling when the caller waits, else the workflow is
/// done; polling and done stay as they are (only `poll_step` ends polling).
pub fn next_phase(phase: UploadPhase, wait: bool) -> (r: UploadPhase)
    ensures
        phase == UploadPhase::Registering ==> r == UploadPhase::Uploading,
        phase == UploadPhase::Uploading && wait ==> r == UploadPhase::Polling,
        phase == UploadPhase::Uploading && !wait ==> r == UploadPhase::Done,
        phase == UploadPhase::Polling ==> r == UploadPhase::Polling,
        phase == UploadPhase::Done ==> r == UploadPhase::Done,
{
    match phase {
        UploadPhase::Registering => UploadPhase::Uploading,
        UploadPhase::Uploading => if wait {
            UploadPhase::Polling
        } else {
            UploadPhase::Done
        },
        other => other,
    }
}

/// The string-valued members of an object, in order.
pub open spec fn string_fields(m: Seq<(String, JsonValue)>) -> Seq<(Seq<char>, Seq<char>)>
    decreases m.len(),
{
    if m.len() == 0 {
        Seq::empty()
    } else {
        match m.last().1 {
            JsonValue::Str(s) => string_fields(m.drop_last()).push((m.last().0@, s@)),
            _ => string_fields(m.drop_last()),
        }
    }
}

/// A string field of a value.
pub open spec fn str_field(v: JsonValue, key: Seq<char>) -> Option<Seq<char>> {
    match field(v, key) {
        Some(JsonValue::Str(s)) => Some(s@),
        _ => None,
    }
}

/// The members of the `upload_parameters` object, if it is one.
pub open spec fn upload_params(v: JsonValue) -> Option<Seq<(String, JsonValue)>> {
    match field(v, "upload_parameters"@) {
        Some(JsonValue::Object(m, _)) => Some(m@),
        _ => None,
    }
}

/// Reads a registration response: `media_id` and `upload_url` must be
/// strings and `upload_parameters` an object, whose string members become
/// the upload form fields; its other members are skipped.
pub fn parse_registration(resp: &JsonValue) -> (r: Result<Registration, EngineError>)
    ensures
        str_field(*resp, "media_id"@) is None ==> r matches Err(EngineError::MalformedRegistration(RegistrationField::MediaId)),
        str_field(*resp, "media_id"@) is Some && str_field(*resp, "upload_url"@) is None
            ==> r matches Err(EngineError::MalformedRegistration(RegistrationField::UploadUrl)),
        str_field(*resp, "media_id"@) is Some && str_field(*resp, "upload_url"@) is Some && upload_params(*resp) is None
            ==> r matches Err(EngineError::MalformedRegistration(RegistrationField::UploadParameters)),
        str_field(*resp, "media_id"@) is Some && str_field(*resp, "upload_url"@) is Some && upload_params(*resp) is Some
            ==> (r matches Ok(reg) && Some(reg.media_id@) == str_field(*resp, "media_id"@)
                && Some(reg.upload_url@) == str_field(*resp, "upload_url"@)
                && pairs_view(reg.fields@) == string_fields(upload_params(*resp)->0)),
{
    let media_id = match get_field(resp, "media_id") {
        Some(JsonValue::Str(s)) => s.clone(),
        _ => return Err(EngineError::MalformedRegistration(RegistrationField::MediaId)),
    };
    let upload_url = match get_field(resp, "upload_url") {
        Some(JsonValue::Str(s)) => s.clone(),
        _ => return Err(EngineError::MalformedRegistration(RegistrationField::UploadUrl)),
    };
    let m = match get_field(resp, "upload_parameters") {
        Some(JsonValue::Object(m, _)) => m,
        _ => return Err(EngineError::MalformedRegistration(RegistrationField::UploadParameters)),
    };
    let mut fields: Vec<(String, String)> = Vec::new();
    let mut i: usize = 0;
    assert(pairs_view(fields@) =~= Seq::empty());
    while i < m.len()
        invariant
            i <= m.len(),
            pairs_view(fields@) == string_fields(m@.subrange(0, i as int)),
        decreases m.len() - i,
    {
        assert(m@.subrange(0, i + 1).drop_last() =~= m@.subrange(0, i as int));
        if let JsonValue::Str(s) = &m[i].1 {
            let ghost b = fields@;
            fields.push((m[i].0.clone(), s.clone()));
            assert(pairs_view(fields@) =~= pairs_view(b).push((m@[i as int].0@, s@)));
        }
        i = i + 1;
    }
    assert(m@.subrange(0, m@.len() as int) =~= m@);
    Ok(Registration { media_id, upload_url, fields })
}

/// The path of a media resource: `/media/<id>`.
pub fn media_path(media_id: &str) -> (r: String)
    ensures
        r@ == "/media/"@ + media_id@,
{
    concat("/media/", media_id)
}

/// Judges the storage upload by its status: a 2xx status is success,
/// anything else fails with the status and the response text.
pub fn check_upload(status: u16, text: String) -> (r: Result<(), EngineError>)
    ensures
        crate::request::is_success(status) ==> r is Ok,
        !crate::request::is_success(status) ==> (r matches Err(EngineError::UploadFailed(s, t)) && s == status && t == text),
{
    if 200 <= status && status <= 299 {
        Ok(())
    } else {
        Err(EngineError::UploadFailed(status, text))
    }
}

/// The processing status a poll response reports; `unknown` when it has
/// no string `status`.
pub open spec fn status_of(resp: JsonValue) -> Seq<char> {
    match str_field(resp, "status"@) {
        Some(s) => s,
        None => "unknown"@,
    }
}

/// How a poll ends.
pub enum PollEnd {
    Failed,
    Unexpected(Seq<char>),
    Timeout,
}

/// The decision on one poll response at `elapsed` seconds: `Ok(true)` when
/// processing succeeded, `Ok(false)` to poll again, `Err` to stop. Only
/// `registered` and `processing` are waited on, and only within the budget.
pub open spec fn poll_decision(resp: JsonValue, elapsed: u64) -> Result<bool, PollEnd> {
    let s = status_of(resp);
    if s == "succeeded"@ {
        Ok(true)
    } else if s == "failed"@ {
        Err(PollEnd::Failed)
    } else if s == "registered"@ || s == "processing"@ {
        if elapsed >= POLL_TIMEOUT_SECS {
            Err(PollEnd::Timeout)
        } else {
            Ok(false)
        }
    } else {
        Err(PollEnd::Unexpected(s))
    }
}

/// Decides on one poll response (see `poll_decision`).
pub fn poll_step(resp: &JsonValue, elapsed_secs: u64) -> (r: Result<bool, EngineError>)
    ensures
        match poll_decision(*resp, elapsed_secs) {
            Ok(b) => r == Ok::<bool, EngineError>(b),
            Err(PollEnd::Failed) => r matches Err(EngineError::ProcessingFailed),
            Err(PollEnd::Timeout) => r matches Err(EngineError::ProcessingTimeout),
            Err(PollEnd::Unexpected(s)) => r matches Err(EngineError::UnexpectedStatus(t)) && t@ == s,
        },
{
    let status: String = match get_field(resp, "status") {
        Some(JsonValue::Str(s)) => s.clone(),
        _ => "unknown".to_owned(),
    };
    if str_eq(status.as_str(), "succeeded") {
        return Ok(true);
    }
    if str_eq(status.as_str(), "failed") {
        return Err(EngineError::ProcessingFailed);
    }
    if str_eq(status.as_str(), "registered") || str_eq(status.as_str(), "processing") {
        if elapsed_secs >= POLL_TIMEOUT_SECS {
            return Err(EngineError::ProcessingTimeout);
        }
        return Ok(false);
    }
    Err(EngineError::UnexpectedStatus(status))
}

/// The index of the poll that ends a run of polls, given each response and
/// the elapsed time at which it was judged; `None` if none of them ends it.
pub open spec fn stopping_poll(resps: Seq<JsonValue>, clock: Seq<u64>, from: nat) -> Option<nat>
    decreases resps.len() - from,
{
    if from >= resps.len() || from >= clock.len() {
        None
    } else if poll_decision(resps[from as int], clock[from as int]) != Ok::<bool, PollEnd>(false) {
        Some(from)
    } else {
        stopping_poll(resps, clock, from + 1)
    }
}

/// Polls that report `processing` within the budget and then `succeeded`
/// end at the last poll, with success: with n responses, after exactly n polls.
pub proof fn lemma_polls_end_on_success(resps: Seq<JsonValue>, clock: Seq<u64>)
    requires
        resps.len() == clock.len(),
        resps.len() >= 1,
        forall|i: int| 0 <= i < resps.len() - 1 ==> status_of(#[trigger] resps[i]) == "processing"@ && clock[i] < POLL_TIMEOUT_SECS,
        status_of(resps.last()) == "succeeded"@,
    ensures
        stopping_poll(resps, clock, 0) == Some((resps.len() - 1) as nat),
        poll_decision(resps.last(), clock.last()) == Ok::<bool, PollEnd>(true),
{
    lemma_processing_run(resps, clock, 0);
}

/// Polls that keep reporting `processing` end in a timeout at the first poll
/// judged at or past the budget.
pub proof fn lemma_polls_time_out(resps: Seq<JsonValue>, clock: Seq<u64>)
    requires
        resps.len() == clock.len(),
        resps.len() >= 1,
        forall|i: int| 0 <= i < resps.len() ==> status_of(#[trigger] resps[i]) == "processing"@,
        forall|i: int| 0 <= i < clock.len() - 1 ==> #[trigger] clock[i] < POLL_TIMEOUT_SECS,
        clock.last() >= POLL_TIMEOUT_SECS,
    ensures
        stopping_poll(resps, clock, 0) == Some((resps.len() - 1) as nat),
        poll_decision(resps.last(), clock.last()) == Err::<bool, PollEnd>(PollEnd::Timeout),
{
    lemma_processing_not_terminal();
    lemma_processing_run(resps, clock, 0);
}

proof fn lemma_processing_run(resps: Seq<JsonValue>, clock: Seq<u64>, from: nat)
    requires
        resps.len() == clock.len(),
        resps.len() >= 1,
        from <= resps.len() - 1,
        forall|i: int| 0 <= i < resps.len() - 1 ==> status_of(#[trigger] resps[i]) == "processing"@ && clock[i] < POLL_TIMEOUT_SECS,
        poll_decision(resps.last(), clock.last()) != Ok::<bool, PollEnd>(false),
    ensures
        stopping_poll(resps, clock, from) == Some((resps.len() - 1) as nat),
    decreases resps.len() - from,
{
    lemma_processing_not_terminal();
    if from < resps.len() - 1 {
        assert(status_of(resps[from as int]) == "processing"@);
        lemma_processing_run(resps, clock, from + 1);
    }
}

/// `processing` is neither terminal status.
proof fn lemma_processing_not_terminal()
    ensures
        "processing"@ != "succeeded"@,
        "processing"@ != "failed"@,
{
    reveal_strlit("processing");
    reveal_strlit("succeeded");
    reveal_strlit("failed");
    assert("processing"@.len() != "succeeded"@.len());
    assert("processing"@.len() != "failed"@.len());
}

/// The number of polls is bounded: when poll `i` is judged no earlier than
/// `i` pauses of `POLL_INTERVAL_SECS` into the wait, some poll among the
/// first `POLL_TIMEOUT_SECS / POLL_INTERVAL_SECS + 1` ends the run, whatever
/// the responses.
pub proof fn lemma_polls_bounded(resps: Seq<JsonValue>, clock: Seq<u64>)
    requires
        resps.len() == clock.len(),
        resps.len() > POLL_TIMEOUT_SECS / POLL_INTERVAL_SECS,
        forall|i: int| 0 <= i < clock.len() ==> #[trigger] clock[i] >= POLL_INTERVAL_SECS * i,
    ensures
        stopping_poll(resps, clock, 0) matches Some(k) && k <= POLL_TIMEOUT_SECS / POLL_INTERVAL_SECS,
{
    lemma_polls_bounded_from(resps, clock, 0);
}

proof fn lemma_polls_bounded_from(resps: Seq<JsonValue>, clock: Seq<u64>, from: nat)
    requires
        resps.len() == clock.len(),
        resps.len() > POLL_TIMEOUT_SECS / POLL_INTERVAL_SECS,
        from <= POLL_TIMEOUT_SECS / POLL_INTERVAL_SECS,
        forall|i: int| 0 <= i < clock.len() ==> #[trigger] clock[i] >= POLL_INTERVAL_SECS * i,
    ensures
        stopping_poll(resps, clock, from) matches Some(k) && k <= POLL_TIMEOUT_SECS / POLL_INTERVAL_SECS,
    decreases POLL_TIMEOUT_SECS / POLL_INTERVAL_SECS - from,
{
    if poll_decision(resps[from as int], clock[from as int]) == Ok::<bool, PollEnd>(false) {
        if from == POLL_TIMEOUT_SECS / POLL_INTERVAL_SECS {
            assert(clock[from as int] >= POLL_TIMEOUT_SECS);
        } else {
            lemma_polls_bounded_from(resps, clock, from + 1);
        }
    }
}

} // verus!
