//! The decisions of the workflow: configuration checking, the two
//! authenticated request descriptions, and what happens after each HTTP
//! response.
//!
//! The surrounding binary performs the I/O: it reads the environment,
//! sends the planned requests, and hands each response's status and body
//! back to these functions as plain values.

use vstd::prelude::*;
use vstd::string::StringExecFns;
use crate::b64::auth_header;
use crate::b64::auth_header_chars;
use crate::events::select_workout;
use crate::json::events_spec;
use crate::json::first_cycling_ev;
use crate::json::lemma_first_cycling_matches;
use crate::json::parse_events;
use crate::text::dec_chars;
use crate::text::i32_to_string;

verus! {

/// The two required configuration values.
pub struct Credentials {
    pub athlete_id: String,
    pub token: String,
}

/// A missing required configuration value.
pub enum ConfigError {
    MissingId,
    MissingToken,
}

/// Checks the configuration read from the environment. The athlete id is
/// examined first, as every endpoint path needs it; a missing value is a
/// fatal error, reported before any request is built or sent.
pub fn config_step(athlete_id: Option<String>, token: Option<String>) -> (r: Result<
    Credentials,
    ConfigError,
>)
    ensures
        r is Ok <==> (athlete_id is Some && token is Some),
        athlete_id is None ==> r == Err::<Credentials, ConfigError>(ConfigError::MissingId),
        (athlete_id is Some && token is None) ==> r == Err::<Credentials, ConfigError>(
            ConfigError::MissingToken,
        ),
        r is Ok ==> r->Ok_0.athlete_id@ == athlete_id->0@ && r->Ok_0.token@ == token->0@,
{
    match (athlete_id, token) {
        (Some(a), Some(t)) => Ok(Credentials { athlete_id: a, token: t }),
        (None, _) => Err(ConfigError::MissingId),
        (Some(_), None) => Err(ConfigError::MissingToken),
    }
}

/// The HTTP method of a planned request. Both platform calls use GET.
pub enum HttpMethod {
    Get,
}

/// One fully-described HTTP request, ready for a transport layer to send.
/// The body is the fixed placeholder neither endpoint reads.
pub struct RequestPlan {
    pub method: HttpMethod,
    pub uri: String,
    pub authorization: String,
    pub body: String,
}

/// The fixed origin of the platform API.
pub open spec fn base_chars() -> Seq<char> {
    "https://intervals.icu"@
}

/// The events-listing endpoint for one athlete and one day: the inclusive
/// date range has the same date at both ends.
pub open spec fn events_uri_chars(athlete: Seq<char>, date: Seq<char>) -> Seq<char> {
    base_chars() + "/api/v1/athlete/"@ + athlete + "/events?oldest="@ + date + "&newest="@ + date
}

/// The structured-workout download endpoint; the format extension is
/// appended to the word `download` as-is.
pub open spec fn download_uri_chars(athlete: Seq<char>, workout_id: int) -> Seq<char> {
    base_chars() + "/api/v1/athlete/"@ + athlete + "/events/"@ + dec_chars(workout_id)
        + "/downloadzwo"@
}

/// Builds the request that lists the day's scheduled events.
pub fn lookup_request(creds: &Credentials, date: &str) -> (r: RequestPlan)
    ensures
        r.method == HttpMethod::Get,
        r.uri@ == events_uri_chars(creds.athlete_id@, date@),
        r.authorization@ == auth_header_chars(creds.token@),
        r.body@ == "test"@,
{
    let mut uri = String::from_str("https://intervals.icu");
    uri.append("/api/v1/athlete/");
    uri.append(creds.athlete_id.as_str());
    uri.append("/events?oldest=");
    uri.append(date);
    uri.append("&newest=");
    uri.append(date);
    RequestPlan {
        method: HttpMethod::Get,
        uri,
        authorization: auth_header(creds.token.as_str()),
        body: String::from_str("test"),
    }
}

/// Builds the request that downloads one workout's file.
pub fn download_request(creds: &Credentials, workout_id: i32) -> (r: RequestPlan)
    ensures
        r.method == HttpMethod::Get,
        r.uri@ == download_uri_chars(creds.athlete_id@, workout_id as int),
        r.authorization@ == auth_header_chars(creds.token@),
        r.body@ == "test"@,
{
    let mut uri = String::from_str("https://intervals.icu");
    uri.append("/api/v1/athlete/");
    uri.append(creds.athlete_id.as_str());
    uri.append("/events/");
    let id_text = i32_to_string(workout_id);
    uri.append(id_text.as_str());
    uri.append("/downloadzwo");
    RequestPlan {
        method: HttpMethod::Get,
        uri,
        authorization: auth_header(creds.token.as_str()),
        body: String::from_str("test"),
    }
}

/// A failure of the workflow after configuration: an unexpected HTTP
/// status on one of the two calls, or an events body the grammar refuses.
/// Either one stops the run.
pub enum FlowError {
    BadStatus(u16),
    MalformedEvents,
}

/// What the run does once the events lookup has answered.
pub enum AfterLookup {
    /// The run stops with this error; nothing is downloaded or written.
    Fail(FlowError),
    /// No cycling workout is scheduled: the run ends cleanly, with nothing
    /// downloaded or written.
    NoWorkout,
    /// The first cycling workout's file is downloaded next, with this
    /// request.
    Download { request: RequestPlan, workout_id: i32, workout_name: String },
}

/// Decides what follows the events lookup. A response status other than
/// 200 fails the run before any download; so does a body the event grammar
/// refuses. Otherwise the first cycling-type event in list order is
/// selected, and a list with none ends the run cleanly.
pub fn lookup_step(creds: &Credentials, status: u16, body: &Vec<u8>) -> (r: AfterLookup)
    ensures
        (status != 200) <==> r == AfterLookup::Fail(FlowError::BadStatus(status)),
        (status == 200 && events_spec(body@) is None) <==> r == AfterLookup::Fail(
            FlowError::MalformedEvents,
        ),
        r is NoWorkout <==> (status == 200 && events_spec(body@) is Some && first_cycling_ev(
            events_spec(body@)->0,
        ) is None),
        r is Download <==> (status == 200 && events_spec(body@) is Some && first_cycling_ev(
            events_spec(body@)->0,
        ) is Some),
        r matches AfterLookup::Download { request, workout_id, workout_name } ==> ({
            let sel = first_cycling_ev(events_spec(body@)->0);
            let (sid, sname) = sel->0;
            &&& status == 200
            &&& events_spec(body@) is Some
            &&& sel is Some
            &&& workout_id as int == sid
            &&& workout_name@ == sname
            &&& request.method == HttpMethod::Get
            &&& request.uri@ == download_uri_chars(creds.athlete_id@, sid)
            &&& request.authorization@ == auth_header_chars(creds.token@)
            &&& request.body@ == "test"@
        }),
{
    if status != 200 {
        return AfterLookup::Fail(FlowError::BadStatus(status));
    }
    match parse_events(body) {
        Err(_) => AfterLookup::Fail(FlowError::MalformedEvents),
        Ok(ws) => {
            proof {
                lemma_first_cycling_matches(ws@, events_spec(body@)->0);
            }
            match select_workout(&ws) {
                None => AfterLookup::NoWorkout,
                Some((id, name)) => {
                    let request = download_request(creds, id);
                    AfterLookup::Download { request, workout_id: id, workout_name: name }
                },
            }
        },
    }
}

/// What the run does once the download call has answered.
pub enum AfterDownload {
    /// The run stops with this error; the output file is not touched.
    Fail(FlowError),
    /// These bytes, exactly as the response carried them, are written to
    /// the output file.
    Save(Vec<u8>),
}

/// Decides what follows the workout download. Only a 200 response reaches
/// the file writer, and the saved bytes are exactly the response body.
pub fn download_step(status: u16, body: Vec<u8>) -> (r: AfterDownload)
    ensures
        (r is Save) <==> status == 200,
        status == 200 ==> r == AfterDownload::Save(body),
        status != 200 ==> r == AfterDownload::Fail(FlowError::BadStatus(status)),
{
    if status == 200 {
        AfterDownload::Save(body)
    } else {
        AfterDownload::Fail(FlowError::BadStatus(status))
    }
}

} // verus!
