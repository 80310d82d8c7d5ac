//! When to repeat a request to a metadata provider.
use vstd::prelude::*;

use crate::chars::CharSet;
use crate::cli::EpisodeApi;
use crate::number;
use crate::text;

verus! {

/// How often a request is sent at most.
pub const MAX_ATTEMPTS: u32 = 3;

/// The longest wait between two attempts: thirty seconds, in nanoseconds.
pub const MAX_RETRY_WAIT: u128 = 30_000_000_000;

/// The date that `httpdate::parse_http_date` reads, in seconds after the start
/// of 1970.
pub uninterp spec fn http_date(value: Seq<char>) -> Option<u64>;

/// `httpdate::parse_http_date`: the point in time that an HTTP date denotes, in
/// whole seconds after the start of 1970, where the text is such a date. Which
/// texts are dates, and which second each denotes, has a name only.
#[verifier::external_body]
pub(crate) fn parse_http_date(value: &str) -> (res: Option<u64>)
    ensures
        res == http_date(value@),
{
    let time = httpdate::parse_http_date(value).ok()?;
    let since = time.duration_since(std::time::SystemTime::UNIX_EPOCH).ok()?;
    Some(since.as_secs())
}

/// How long a server asks to wait, in nanoseconds: a number of seconds, or until
/// the date that the header was read as. `header` is the header without the
/// white space around it.
pub open spec fn asked_delay(
    header: Option<Seq<char>>,
    date: Option<u64>,
    now: u128,
    fallback: u128,
) -> int {
    match header {
        None => fallback as int,
        Some(value) => match number::u64_value(value) {
            Some(seconds) => seconds * 1_000_000_000,
            None => match date {
                Some(seconds) => if seconds * 1_000_000_000 > now {
                    seconds * 1_000_000_000 - now
                } else {
                    0
                },
                None => fallback as int,
            },
        },
    }
}

/// A header without the white space around it.
pub open spec fn trimmed_header(header: Option<Seq<char>>) -> Option<Seq<char>> {
    match header {
        Some(value) => Some(text::trimmed(value, CharSet::Space)),
        None => None,
    }
}

/// The date in a header.
pub open spec fn header_date(header: Option<Seq<char>>) -> Option<u64> {
    match trimmed_header(header) {
        Some(value) => http_date(value),
        None => None,
    }
}

/// How long to wait, given the date that the header was read as.
pub fn delay_by(header: &Option<String>, date: Option<u64>, now: u128, fallback: u128) -> (res: u128)
    ensures
        res == asked_delay(text::opt_view(*header), date, now, fallback),
{
    match header {
        None => fallback,
        Some(value) => match number::parse_u64(value.as_str()) {
            Some(seconds) => seconds as u128 * 1_000_000_000,
            None => match date {
                Some(seconds) => {
                    let deadline: u128 = seconds as u128 * 1_000_000_000;
                    if deadline > now {
                        deadline - now
                    } else {
                        0
                    }
                },
                None => fallback,
            },
        },
    }
}

/// How long to wait before the next attempt, in nanoseconds: as the server's
/// `Retry-After` header asks, in seconds or until a date, else the fallback.
/// `now` counts the nanoseconds since the start of 1970.
pub fn retry_after_delay(header: &Option<String>, now: u128, fallback: u128) -> (res: u128)
    ensures
        res == asked_delay(
            trimmed_header(text::opt_view(*header)),
            header_date(text::opt_view(*header)),
            now,
            fallback,
        ),
{
    match header {
        None => delay_by(&None, None, now, fallback),
        Some(value) => {
            let plain = text::trim(value.as_str(), CharSet::Space);
            let date = parse_http_date(plain.as_str());
            delay_by(&Some(plain), date, now, fallback)
        },
    }
}

/// Whether a status stands for a failure that may pass: too many requests, or an
/// error of the server.
pub fn is_retryable_status(status: u16) -> (res: bool)
    ensures
        res == (status == 429 || 500 <= status < 600),
{
    status == 429 || (500 <= status && status < 600)
}

/// How a request ended.
#[derive(Debug, Clone, Copy, PartialEq, Eq)]
pub enum Reply {
    /// With a response, whose server asks to wait this long.
    Response { status: u16, delay: u128 },
    /// Without one; a fault of the connection may pass.
    Fault { temporary: bool },
}

/// What to do after a request.
#[derive(Debug, Clone, Copy, PartialEq, Eq)]
pub enum RetryStep {
    /// Hand the response on.
    Accept,
    /// Hand the response on, and send nothing more in this run.
    AcceptAndDefer,
    /// Wait this many nanoseconds and send the request again.
    Wait { delay: u128 },
    /// Refuse the wait that was asked for, and send nothing more in this run.
    RefuseWait,
    /// Report the fault.
    Fail,
}

/// How long to wait where the server asks for nothing: a quarter of a second
/// for each attempt so far.
pub open spec fn short_wait(attempt: u32) -> int {
    250_000_000 * attempt
}

/// How long to wait where the server asks for nothing.
pub fn fallback_delay(attempt: u32) -> (res: u128)
    ensures
        res == short_wait(attempt),
{
    250_000_000 * attempt as u128
}

/// What to do after an attempt at TMDb.
pub open spec fn tmdb_next(attempt: u32, reply: Reply) -> RetryStep {
    match reply {
        Reply::Response { status, delay } => if !(status == 429 || 500 <= status < 600) {
            RetryStep::Accept
        } else if delay > MAX_RETRY_WAIT {
            RetryStep::RefuseWait
        } else if attempt >= MAX_ATTEMPTS {
            if status == 429 {
                RetryStep::AcceptAndDefer
            } else {
                RetryStep::Accept
            }
        } else {
            RetryStep::Wait { delay }
        },
        Reply::Fault { temporary } => if !temporary || attempt >= MAX_ATTEMPTS {
            RetryStep::Fail
        } else {
            RetryStep::Wait { delay: short_wait(attempt) as u128 }
        },
    }
}

/// Decides what to do after an attempt at TMDb. Failures that may pass are
/// repeated; a service that limits requests to the end, or asks for a long
/// wait, is left alone for the rest of the run.
pub fn tmdb_step(attempt: u32, reply: Reply) -> (res: RetryStep)
    ensures
        res == tmdb_next(attempt, reply),
{
    match reply {
        Reply::Response { status, delay } => if !is_retryable_status(status) {
            RetryStep::Accept
        } else if delay > MAX_RETRY_WAIT {
            RetryStep::RefuseWait
        } else if attempt >= MAX_ATTEMPTS {
            if status == 429 {
                RetryStep::AcceptAndDefer
            } else {
                RetryStep::Accept
            }
        } else {
            RetryStep::Wait { delay }
        },
        Reply::Fault { temporary } => if !temporary || attempt >= MAX_ATTEMPTS {
            RetryStep::Fail
        } else {
            RetryStep::Wait { delay: fallback_delay(attempt) }
        },
    }
}

/// What to do after an attempt at TVmaze.
pub open spec fn tvmaze_next(attempt: u32, reply: Reply) -> RetryStep {
    match reply {
        Reply::Response { status, .. } => if !(status == 429 || 500 <= status < 600) || attempt
            >= MAX_ATTEMPTS {
            RetryStep::Accept
        } else if status == 429 {
            RetryStep::Wait { delay: (2_000_000_000 * attempt) as u128 }
        } else {
            RetryStep::Wait { delay: short_wait(attempt) as u128 }
        },
        Reply::Fault { .. } => if attempt >= MAX_ATTEMPTS {
            RetryStep::Fail
        } else {
            RetryStep::Wait { delay: short_wait(attempt) as u128 }
        },
    }
}

/// Decides what to do after an attempt at TVmaze: failures that may pass are
/// repeated, with longer waits where requests are limited.
pub fn tvmaze_step(attempt: u32, reply: Reply) -> (res: RetryStep)
    ensures
        res == tvmaze_next(attempt, reply),
{
    match reply {
        Reply::Response { status, .. } => if !is_retryable_status(status) || attempt
            >= MAX_ATTEMPTS {
            RetryStep::Accept
        } else if status == 429 {
            RetryStep::Wait { delay: 2_000_000_000 * attempt as u128 }
        } else {
            RetryStep::Wait { delay: fallback_delay(attempt) }
        },
        Reply::Fault { .. } => if attempt >= MAX_ATTEMPTS {
            RetryStep::Fail
        } else {
            RetryStep::Wait { delay: fallback_delay(attempt) }
        },
    }
}

/// Why TMDb is not asked, or its answer not taken.
#[derive(Debug, Clone, Copy, PartialEq, Eq)]
pub enum LookupError {
    /// Nothing more is sent in this run.
    Deferred,
    /// The server asks for a wait that is too long.
    LongWait,
}

impl LookupError {
    /// The message shown for an error.
    pub open spec fn words(self) -> Seq<char> {
        match self {
            LookupError::Deferred => "TMDb lookups are deferred after rate limiting or a long server wait. Run again later."@,
            LookupError::LongWait => "TMDb requested a wait longer than 30 seconds; remaining lookups are deferred. Run again later."@,
        }
    }

    /// The message shown for this error.
    pub fn message(self) -> (res: &'static str)
        ensures
            res@ == self.words(),
    {
        match self {
            LookupError::Deferred => "TMDb lookups are deferred after rate limiting or a long server wait. Run again later.",
            LookupError::LongWait => "TMDb requested a wait longer than 30 seconds; remaining lookups are deferred. Run again later.",
        }
    }
}

/// One request to TMDb, with what the run remembers from one request to the
/// next.
#[derive(Debug, Clone, Copy, PartialEq, Eq)]
pub struct Lookups {
    /// Whether nothing more is sent in this run.
    pub deferred: bool,
}

impl Lookups {
    /// A run that has not been deferred.
    pub fn new() -> (res: Lookups)
        ensures
            !res.deferred,
    {
        Lookups { deferred: false }
    }

    /// Whether a request may be sent.
    pub fn begin(&self) -> (res: Result<(), LookupError>)
        ensures
            match res {
                Ok(()) => !self.deferred,
                Err(e) => self.deferred && e == LookupError::Deferred,
            },
    {
        if self.deferred {
            Err(LookupError::Deferred)
        } else {
            Ok(())
        }
    }

    /// Decides what to do after an attempt at TMDb, and remembers where nothing
    /// more is to be sent.
    pub fn after(&mut self, attempt: u32, reply: Reply) -> (res: RetryStep)
        ensures
            res == tmdb_next(attempt, reply),
            final(self).deferred == (old(self).deferred || res is AcceptAndDefer || res is RefuseWait),
    {
        let step = tmdb_step(attempt, reply);
        match step {
            RetryStep::AcceptAndDefer | RetryStep::RefuseWait => {
                self.deferred = true;
            },
            _ => {},
        }
        step
    }
}

/// How often a request is sent, from attempt `attempt` on, to a provider that
/// gives these replies one after the other.
pub open spec fn sends(tmdb: bool, attempt: u32, replies: Seq<Reply>) -> nat
    decreases replies.len(),
{
    if replies.len() == 0 {
        0
    } else {
        let step = if tmdb {
            tmdb_next(attempt, replies[0])
        } else {
            tvmaze_next(attempt, replies[0])
        };
        if step is Wait {
            1 + sends(tmdb, (attempt + 1) as u32, replies.skip(1))
        } else {
            1
        }
    }
}

/// No request is sent more than three times.
pub proof fn law_requests_are_sent_three_times_at_most(tmdb: bool, replies: Seq<Reply>)
    ensures
        sends(tmdb, 1, replies) <= MAX_ATTEMPTS,
{
    lemma_sends(tmdb, 1, replies);
}

proof fn lemma_sends(tmdb: bool, attempt: u32, replies: Seq<Reply>)
    requires
        1 <= attempt <= MAX_ATTEMPTS,
    ensures
        sends(tmdb, attempt, replies) <= MAX_ATTEMPTS - attempt + 1,
    decreases replies.len(),
{
    if replies.len() > 0 && attempt < MAX_ATTEMPTS {
        lemma_sends(tmdb, (attempt + 1) as u32, replies.skip(1));
    }
}

/// No wait is longer than thirty seconds, at either provider.
pub proof fn law_waits_are_bounded(attempt: u32, reply: Reply)
    requires
        1 <= attempt,
    ensures
        tmdb_next(attempt, reply) matches RetryStep::Wait { delay } ==> delay <= MAX_RETRY_WAIT,
        tvmaze_next(attempt, reply) matches RetryStep::Wait { delay } ==> delay <= MAX_RETRY_WAIT,
{
}

/// A response that is neither a rate limit nor a server error is handed on at
/// once, and the run goes on.
pub proof fn law_other_responses_are_accepted(attempt: u32, status: u16, delay: u128)
    requires
        status != 429,
        status < 500 || status >= 600,
    ensures
        tmdb_next(attempt, Reply::Response { status, delay }) == RetryStep::Accept,
        tvmaze_next(attempt, Reply::Response { status, delay }) == RetryStep::Accept,
{
}

/// The last attempt at TMDb ends in a rate limit or the server asks for a long
/// wait just where the rest of the run is deferred.
pub proof fn law_runs_are_deferred_on_limits_only(attempt: u32, reply: Reply)
    ensures
        tmdb_next(attempt, reply) is AcceptAndDefer || tmdb_next(attempt, reply) is RefuseWait <==> (
        reply matches Reply::Response { status, delay } && (status == 429 || 500 <= status < 600)
            && (delay > MAX_RETRY_WAIT || (attempt >= MAX_ATTEMPTS && status == 429))),
{
}

/// What to do with the status of a response.
pub open spec fn status_refusal(api: EpisodeApi, status: u16, shown: Seq<char>) -> Option<Seq<char>> {
    if api == EpisodeApi::Tmdb && status == 401 {
        Some(
            "TMDb rejected the API key (401 Unauthorized). Check --api-key / $TMDB_API_KEY."@,
        )
    } else if status == 429 {
        Some(api.shown() + " rate limit reached. Try again later."@)
    } else if !(200 <= status < 300) {
        Some(api.shown() + " request returned HTTP "@ + shown)
    } else {
        None
    }
}

/// Refuses a response that reports no success, with a message. `shown` is the
/// status in words.
pub fn check_status(api: EpisodeApi, status: u16, shown: &str) -> (res: Result<(), String>)
    ensures
        match res {
            Ok(()) => status_refusal(api, status, shown@) is None,
            Err(message) => status_refusal(api, status, shown@) == Some(message@),
        },
{
    if api == EpisodeApi::Tmdb && status == 401 {
        return Err(
            String::from_str(
                "TMDb rejected the API key (401 Unauthorized). Check --api-key / $TMDB_API_KEY.",
            ),
        );
    }
    if status == 429 {
        let mut out = String::from_str(api.display_name());
        out.append(" rate limit reached. Try again later.");
        return Err(out);
    }
    if !(200 <= status && status < 300) {
        let mut out = String::from_str(api.display_name());
        out.append(" request returned HTTP ");
        out.append(shown);
        return Err(out);
    }
    Ok(())
}

/// The message that a request failed after some attempts.
pub open spec fn failed_words(attempt: u32) -> Seq<char> {
    "TMDb request failed after "@ + number::decimal(attempt as nat) + (if attempt == 1 {
        " attempt"@
    } else {
        " attempts"@
    })
}

/// Writes the message that a request failed after some attempts.
pub fn failed_after(attempt: u32) -> (res: String)
    ensures
        res@ == failed_words(attempt),
{
    let mut out = String::from_str("TMDb request failed after ");
    out.append(number::decimal_text(attempt as u64).as_str());
    if attempt == 1 {
        out.append(" attempt");
    } else {
        out.append(" attempts");
    }
    out
}

/// A server is waited for as long as it asks: the number of seconds it writes,
/// or until the moment it names, and not at all where that has passed; where it
/// names neither, the fallback holds.
pub proof fn law_servers_are_waited_for_as_they_ask(
    seconds: u64,
    value: Seq<char>,
    date: Option<u64>,
    now: u128,
    fallback: u128,
)
    ensures
        asked_delay(Some(number::decimal(seconds as nat)), date, now, fallback) == seconds
            * 1_000_000_000,
        asked_delay(None, date, now, fallback) == fallback,
        number::u64_value(value) is None && date is None ==> asked_delay(
            Some(value),
            date,
            now,
            fallback,
        ) == fallback,
        number::u64_value(value) is None && date is Some && date->0 * 1_000_000_000 >= now ==> now
            + asked_delay(Some(value), date, now, fallback) == date->0 * 1_000_000_000,
        number::u64_value(value) is None && date is Some && date->0 * 1_000_000_000 < now
            ==> asked_delay(Some(value), date, now, fallback) == 0,
{
    number::law_written_numbers_read_back(seconds as nat, 0);
}

/// White space around a header makes no difference, and the date in a header is
/// the one that its text between the white space denotes.
pub proof fn law_headers_are_read_without_white_space(
    left: Seq<char>,
    value: Seq<char>,
    right: Seq<char>,
)
    requires
        forall|i: int| 0 <= i < left.len() ==> CharSet::Space.contains(#[trigger] left[i]),
        forall|i: int| 0 <= i < right.len() ==> CharSet::Space.contains(#[trigger] right[i]),
        value.len() > 0 ==> !CharSet::Space.contains(value[0]) && !CharSet::Space.contains(
            value.last(),
        ),
    ensures
        trimmed_header(Some(left + value + right)) == Some(value),
        trimmed_header(None) is None,
        header_date(Some(left + value + right)) == http_date(value),
        header_date(None) is None,
{
    text::law_trimming_takes_the_ends_off(left, value, right, CharSet::Space);
}

/// A failure that may pass is tried again on the first two attempts: at TMDb
/// after the wait that the server asks for, up to thirty seconds, and after a
/// quarter of a second for each attempt where the connection failed; at TVmaze
/// after two seconds for each attempt where requests are limited, and else after
/// a quarter of a second for each. The third attempt is the last.
pub proof fn law_passing_failures_are_tried_again(attempt: u32, status: u16, delay: u128)
    requires
        status == 429 || 500 <= status < 600,
    ensures
        attempt < 3 && delay <= 30_000_000_000 ==> tmdb_next(
            attempt,
            Reply::Response { status, delay },
        ) == (RetryStep::Wait { delay }),
        delay > 30_000_000_000 ==> tmdb_next(attempt, Reply::Response { status, delay })
            == RetryStep::RefuseWait,
        attempt >= 3 && delay <= 30_000_000_000 ==> tmdb_next(
            attempt,
            Reply::Response { status, delay },
        ) == (if status == 429 {
            RetryStep::AcceptAndDefer
        } else {
            RetryStep::Accept
        }),
        attempt >= 3 ==> tvmaze_next(attempt, Reply::Response { status, delay })
            == RetryStep::Accept,
        attempt < 3 && status == 429 ==> tvmaze_next(attempt, Reply::Response { status, delay }) == (
        RetryStep::Wait { delay: (2_000_000_000 * attempt) as u128 }),
        attempt < 3 && status != 429 ==> tvmaze_next(attempt, Reply::Response { status, delay }) == (
        RetryStep::Wait { delay: (250_000_000 * attempt) as u128 }),
        attempt < 3 ==> tmdb_next(attempt, Reply::Fault { temporary: true }) == (RetryStep::Wait {
            delay: (250_000_000 * attempt) as u128,
        }),
        tmdb_next(attempt, Reply::Fault { temporary: false }) == RetryStep::Fail,
        attempt >= 3 ==> tmdb_next(attempt, Reply::Fault { temporary: true }) == RetryStep::Fail,
        attempt < 3 ==> tvmaze_next(attempt, Reply::Fault { temporary: true }) == (RetryStep::Wait {
            delay: (250_000_000 * attempt) as u128,
        }) && tvmaze_next(attempt, Reply::Fault { temporary: false }) == (RetryStep::Wait {
            delay: (250_000_000 * attempt) as u128,
        }),
        attempt >= 3 ==> tvmaze_next(attempt, Reply::Fault { temporary: true }) == RetryStep::Fail
            && tvmaze_next(attempt, Reply::Fault { temporary: false }) == RetryStep::Fail,
        short_wait(attempt) == 250_000_000 * attempt,
{
}

/// A response is taken just where its status is one of success, from 200 to 299;
/// any other is refused with the provider's name or the status in the message.
pub proof fn law_only_successes_are_taken(api: EpisodeApi, status: u16, shown: Seq<char>)
    ensures
        status_refusal(api, status, shown) is None <==> 200 <= status <= 299,
        status == 429 ==> status_refusal(api, status, shown) == Some(
            api.shown() + " rate limit reached. Try again later."@,
        ),
        status != 429 && status != 401 && !(200 <= status <= 299) ==> status_refusal(
            api,
            status,
            shown,
        ) == Some(api.shown() + " request returned HTTP "@ + shown),
        status == 401 && api == EpisodeApi::Tvmaze ==> status_refusal(api, status, shown) == Some(
            api.shown() + " request returned HTTP "@ + shown,
        ),
{
}

/// A failure tells after how many attempts.
pub proof fn law_failures_count_attempts(attempt: u32)
    ensures
        failed_words(1) == "TMDb request failed after "@ + number::decimal(1) + " attempt"@,
        attempt != 1 ==> failed_words(attempt) == "TMDb request failed after "@ + number::decimal(
            attempt as nat,
        ) + " attempts"@,
{
}

} // verus!
