//! The resolution client's own logic: the request sent for one conflict, the
//! reading of the service's reply, and the decision taken after each attempt.
//! Sending the request and sleeping between attempts are left to the caller,
//! which performs each `RetryStep` it is handed.

use vstd::prelude::*;

use crate::excerpt::{excerpt, extract_conflict_content};
use crate::model::{ConflictFile, Settings};
use crate::text::{decimal, push_decimal};

verus! {

/// The completion endpoint used unless another is given.
pub const OPENAI_CHAT_URL: &'static str = "https://api.openai.com/v1/chat/completions";

/// The fixed instruction sent ahead of every conflict.
pub const SYSTEM_PROMPT: &'static str = "You are a Git merge conflict resolver. Analyze the conflict and choose the most appropriate resolution. Return ONLY the resolved content without any explanation.";

/// Delay before the first retry is twice this; each further retry doubles it.
pub const BASE_DELAY_MS: u64 = 500;

/// A lower-case hexadecimal digit, for `d < 16`.
pub open spec fn hex_digit(d: nat) -> char {
    if d < 10 {
        ((d + 48) as u8) as char
    } else {
        ((d + 87) as u8) as char
    }
}

/// How one character is written inside a JSON string: quote and backslash
/// are escaped, the control characters with a short escape use it, the other
/// control characters become `\u00XX`, everything else stands as it is.
pub open spec fn json_escape(c: char) -> Seq<char> {
    if c == '"' {
        seq!['\\', '"']
    } else if c == '\\' {
        seq!['\\', '\\']
    } else if c == '\x08' {
        seq!['\\', 'b']
    } else if c == '\t' {
        seq!['\\', 't']
    } else if c == '\n' {
        seq!['\\', 'n']
    } else if c == '\x0c' {
        seq!['\\', 'f']
    } else if c == '\r' {
        seq!['\\', 'r']
    } else if (c as u32) < 0x20 {
        seq!['\\', 'u', '0', '0', hex_digit((c as u32 / 16) as nat), hex_digit((c as u32 % 16) as nat)]
    } else {
        seq![c]
    }
}

/// The characters of `s`, each escaped for a JSON string.
pub open spec fn json_escaped(s: Seq<char>) -> Seq<char>
    decreases s.len(),
{
    if s.len() == 0 {
        Seq::empty()
    } else {
        json_escaped(s.drop_last()) + json_escape(s.last())
    }
}

/// The JSON string literal that holds `s`.
pub open spec fn json_string_literal(s: Seq<char>) -> Seq<char> {
    seq!['"'] + json_escaped(s) + seq!['"']
}

/// Relies on `serde_json::to_string` applied to a `str`: it writes the text
/// between double quotes, escaping each character through serde_json's
/// escape table (`ESCAPE` and `write_char_escape` in its `ser.rs`), as
/// `json_escape` states; serialising a `str` into memory cannot fail.
#[verifier::external_body]
fn json_quote(s: &str) -> (r: String)
    ensures
        r@ == json_string_literal(s@),
{
    serde_json::to_string(s).unwrap_or_default()
}

/// The part of the description that shows the common ancestor, if any.
pub open spec fn base_part(base: Option<String>) -> Seq<char> {
    match base {
        Some(b) => "Base version: "@ + excerpt(b@),
        None => Seq::empty(),
    }
}

/// The description of one conflict sent to the service.
pub open spec fn conflict_description(c: ConflictFile) -> Seq<char> {
    "Resolve this Git merge conflict in "@ + c.path@
        + ". Here are the conflicting parts:\n\nOur version: "@ + excerpt(c.our_content@)
        + "\n\nTheir version: "@ + excerpt(c.their_content@) + "\n\n"@ + base_part(
        c.base_content,
    )
}

/// The JSON body of a request, from the JSON string literals of the model,
/// the instruction and the description.
pub open spec fn request_frame(
    model_literal: Seq<char>,
    system_literal: Seq<char>,
    user_literal: Seq<char>,
) -> Seq<char> {
    "{\"model\":"@ + model_literal + ",\"messages\":[{\"role\":\"system\",\"content\":"@
        + system_literal + "},{\"role\":\"user\",\"content\":"@ + user_literal
        + "}],\"temperature\":0.7}"@
}

/// The JSON body of a request for `model` carrying `description`.
pub open spec fn request_json(model: Seq<char>, description: Seq<char>) -> Seq<char> {
    request_frame(
        json_string_literal(model),
        json_string_literal(SYSTEM_PROMPT@),
        json_string_literal(description),
    )
}

/// Frames a request body around the JSON string literals of the model, the
/// instruction and the description.
pub fn frame_request_body(model_literal: &str, system_literal: &str, user_literal: &str) -> (r:
    String)
    ensures
        r@ == request_frame(model_literal@, system_literal@, user_literal@),
{
    let mut r = String::from_str("{\"model\":");
    r.append(model_literal);
    r.append(",\"messages\":[{\"role\":\"system\",\"content\":");
    r.append(system_literal);
    r.append("},{\"role\":\"user\",\"content\":");
    r.append(user_literal);
    r.append("}],\"temperature\":0.7}");
    r
}

/// Builds the description of `conflict`: its path and the excerpts of both
/// sides, then of the common ancestor when there is one.
pub fn describe_conflict(conflict: &ConflictFile) -> (r: String)
    ensures
        r@ == conflict_description(*conflict),
{
    let mut r = String::from_str("Resolve this Git merge conflict in ");
    r.append(conflict.path.as_str());
    r.append(". Here are the conflicting parts:\n\nOur version: ");
    let ours = extract_conflict_content(conflict.our_content.as_str());
    r.append(ours.as_str());
    r.append("\n\nTheir version: ");
    let theirs = extract_conflict_content(conflict.their_content.as_str());
    r.append(theirs.as_str());
    r.append("\n\n");
    let ghost head = r@;
    match &conflict.base_content {
        Some(b) => {
            r.append("Base version: ");
            let base = extract_conflict_content(b.as_str());
            r.append(base.as_str());
            proof {
                assert(r@ =~= head + base_part(conflict.base_content));
            }
        },
        None => {
            proof {
                assert(r@ =~= head + base_part(conflict.base_content));
            }
        },
    }
    r
}

/// Sends conflicts of one run to the completion service at `api_url`.
pub struct ConflictResolver {
    pub settings: Settings,
    pub api_url: String,
}

impl ConflictResolver {
    /// A resolver that talks to the public completion endpoint.
    pub fn new(settings: Settings) -> (r: Self)
        ensures
            r.settings == settings,
            r.api_url@ == OPENAI_CHAT_URL@,
    {
        ConflictResolver { settings, api_url: String::from_str(OPENAI_CHAT_URL) }
    }

    /// A resolver that talks to the endpoint at `api_url`.
    pub fn with_api_url(settings: Settings, api_url: String) -> (r: Self)
        ensures
            r.settings == settings,
            r.api_url == api_url,
    {
        ConflictResolver { settings, api_url }
    }

    /// The JSON body of the request for `conflict`.
    pub fn request_body(&self, conflict: &ConflictFile) -> (r: String)
        ensures
            r@ == request_json(self.settings.model@, conflict_description(*conflict)),
    {
        let description = describe_conflict(conflict);
        let model = json_quote(self.settings.model.as_str());
        let system = json_quote(SYSTEM_PROMPT);
        let user = json_quote(description.as_str());
        frame_request_body(model.as_str(), system.as_str(), user.as_str())
    }

    /// The `Authorization` header value, when a key is configured.
    pub fn authorization(&self) -> (r: Option<String>)
        ensures
            self.settings.openai_api_key is None ==> r is None,
            self.settings.openai_api_key is Some ==> r is Some && r->0@ == "Bearer "@
                + self.settings.openai_api_key->0@,
    {
        match &self.settings.openai_api_key {
            Some(k) => {
                let mut r = String::from_str("Bearer ");
                r.append(k.as_str());
                Some(r)
            },
            None => None,
        }
    }

    /// Starts the attempts for one conflict. Without a key this is refused
    /// at once, before any attempt.
    pub fn begin(&self) -> (r: Result<RetrySession, ResolutionError>)
        ensures
            self.settings.openai_api_key is None ==> r == Err::<RetrySession, ResolutionError>(
                ResolutionError::MissingCredential,
            ),
            self.settings.openai_api_key is Some ==> r == Ok::<RetrySession, ResolutionError>(
                RetrySession { max_retries: self.settings.max_retries, attempts: 0 },
            ),
    {
        match &self.settings.openai_api_key {
            Some(_) => Ok(RetrySession::new(self.settings.max_retries)),
            None => Err(ResolutionError::MissingCredential),
        }
    }
}

/// Why one attempt failed.
#[derive(Debug)]
pub enum AttemptError {
    /// The request could not be sent or its reply not received.
    Transport(String),
    /// The service answered with a status outside `200..=299`.
    HttpStatus { status: u16, body: String },
    /// The reply body, sent with this status, is not the expected JSON.
    Malformed { status: u16, reason: String, body: String },
    /// The reply holds no candidate.
    NoCandidates,
}

/// Why a conflict was not resolved.
#[derive(Debug)]
pub enum ResolutionError {
    /// No key is configured; nothing was sent.
    MissingCredential,
    /// Every permitted attempt failed; `last` is the final failure.
    Exhausted { attempts: u64, last: AttemptError },
}

pub open spec fn attempt_error_text(e: AttemptError) -> Seq<char> {
    match e {
        AttemptError::Transport(m) => "Failed to send request to OpenAI API: "@ + m@,
        AttemptError::HttpStatus { status, body } => "API request failed with status "@ + decimal(
            status as nat,
        ) + ": "@ + body@,
        AttemptError::Malformed { reason, body, .. } => "Failed to parse API response: "@
            + reason@ + ", Response: "@ + body@,
        AttemptError::NoCandidates => "No resolution provided by AI"@,
    }
}

pub open spec fn resolution_error_text(e: ResolutionError) -> Seq<char> {
    match e {
        ResolutionError::MissingCredential => "OpenAI API key not set"@,
        ResolutionError::Exhausted { attempts, last } => "Failed to get AI resolution after "@
            + decimal(attempts as nat) + " attempts: "@ + attempt_error_text(last),
    }
}

impl AttemptError {
    /// The human-readable description of the failure.
    pub fn message(&self) -> (r: String)
        ensures
            r@ == attempt_error_text(*self),
    {
        match self {
            AttemptError::Transport(m) => {
                let mut r = String::from_str("Failed to send request to OpenAI API: ");
                r.append(m.as_str());
                r
            },
            AttemptError::HttpStatus { status, body } => {
                let mut r = String::from_str("API request failed with status ");
                push_decimal(&mut r, *status as u64);
                r.append(": ");
                r.append(body.as_str());
                r
            },
            AttemptError::Malformed { reason, body, .. } => {
                let mut r = String::from_str("Failed to parse API response: ");
                r.append(reason.as_str());
                r.append(", Response: ");
                r.append(body.as_str());
                r
            },
            AttemptError::NoCandidates => String::from_str("No resolution provided by AI"),
        }
    }
}

impl ResolutionError {
    /// The human-readable description of the failure.
    pub fn message(&self) -> (r: String)
        ensures
            r@ == resolution_error_text(*self),
    {
        match self {
            ResolutionError::MissingCredential => String::from_str("OpenAI API key not set"),
            ResolutionError::Exhausted { attempts, last } => {
                let mut r = String::from_str("Failed to get AI resolution after ");
                push_decimal(&mut r, *attempts);
                r.append(" attempts: ");
                let detail = last.message();
                r.append(detail.as_str());
                r
            },
        }
    }
}

pub open spec fn is_success_status(status: u16) -> bool {
    200 <= status <= 299
}

/// What one attempt came to, from the reply's status, its raw body, and the
/// candidate texts read from that body (or why they could not be read).
pub open spec fn reply_outcome(
    status: u16,
    body: String,
    parsed: Result<Vec<String>, String>,
) -> Result<String, AttemptError> {
    if !is_success_status(status) {
        Err(AttemptError::HttpStatus { status, body })
    } else {
        match parsed {
            Err(m) => Err(AttemptError::Malformed { status, reason: m, body }),
            Ok(v) => if v@.len() == 0 {
                Err(AttemptError::NoCandidates)
            } else {
                Ok(v@[0])
            },
        }
    }
}

/// Reads one reply: a status outside `200..=299` fails with the status and
/// body; otherwise the first candidate is the resolution, a body that could
/// not be read fails with the status, the reason and the body, and a body
/// with no candidate fails.
pub fn interpret_reply(status: u16, body: String, parsed: Result<Vec<String>, String>) -> (r: Result<
    String,
    AttemptError,
>)
    ensures
        r == reply_outcome(status, body, parsed),
{
    if status < 200 || status > 299 {
        return Err(AttemptError::HttpStatus { status, body });
    }
    match parsed {
        Err(m) => Err(AttemptError::Malformed { status, reason: m, body }),
        Ok(mut v) => {
            if v.len() == 0 {
                Err(AttemptError::NoCandidates)
            } else {
                Ok(v.swap_remove(0))
            }
        },
    }
}

/// `2` to the power `n`.
pub open spec fn pow2(n: nat) -> nat
    decreases n,
{
    if n == 0 {
        1
    } else {
        2 * pow2((n - 1) as nat)
    }
}

/// The delay, in milliseconds, before retry `n` (counted from 1).
pub open spec fn backoff_ms(n: nat) -> nat {
    (BASE_DELAY_MS * pow2(n)) as nat
}

/// `backoff_ms(n)`, saturated at the largest `u64`.
pub open spec fn capped_backoff(n: nat) -> u64 {
    if backoff_ms(n) <= u64::MAX {
        backoff_ms(n) as u64
    } else {
        u64::MAX
    }
}

proof fn lemma_pow2_monotone(a: nat, b: nat)
    requires
        a <= b,
    ensures
        pow2(a) <= pow2(b),
    decreases b,
{
    if a < b {
        lemma_pow2_monotone(a, (b - 1) as nat);
    }
}

/// The delay before retry `n`, saturated at the largest `u64`.
pub fn backoff_delay_ms(n: u64) -> (d: u64)
    ensures
        d == capped_backoff(n as nat),
{
    let mut d: u64 = BASE_DELAY_MS;
    let mut i: u64 = 0;
    while i < n
        invariant
            i <= n,
            d == capped_backoff(i as nat),
        decreases n - i,
    {
        if d == u64::MAX {
            proof {
                lemma_pow2_monotone(i as nat, n as nat);
            }
            return d;
        }
        if d > u64::MAX / 2 {
            d = u64::MAX;
        } else {
            d = d * 2;
        }
        i = i + 1;
    }
    d
}

/// What the caller does after an attempt.
#[derive(Debug)]
pub enum RetryStep {
    /// Sleep this long, then make the next attempt.
    Wait { delay_ms: u64 },
    /// Stop: the conflict is resolved, or every permitted attempt failed.
    Finished(Result<String, ResolutionError>),
}

/// The step taken after attempt number `attempt` (counted from 1) came to
/// `outcome`, with `max_retries` retries permitted.
pub open spec fn retry_step(
    attempt: nat,
    max_retries: u32,
    outcome: Result<String, AttemptError>,
) -> RetryStep {
    match outcome {
        Ok(t) => RetryStep::Finished(Ok(t)),
        Err(e) => if attempt > max_retries {
            RetryStep::Finished(
                Err(ResolutionError::Exhausted { attempts: attempt as u64, last: e }),
            )
        } else {
            RetryStep::Wait { delay_ms: capped_backoff(attempt) }
        },
    }
}

/// The attempts made so far for one conflict.
#[derive(Debug)]
pub struct RetrySession {
    pub max_retries: u32,
    pub attempts: u64,
}

impl RetrySession {
    /// A session in which no attempt has been made yet.
    pub fn new(max_retries: u32) -> (r: Self)
        ensures
            r == (RetrySession { max_retries, attempts: 0 }),
    {
        RetrySession { max_retries, attempts: 0 }
    }

    /// Whether another attempt is permitted.
    pub fn can_attempt(&self) -> (r: bool)
        ensures
            r == (self.attempts <= self.max_retries),
    {
        self.attempts <= self.max_retries as u64
    }

    /// Records the outcome of the next attempt and says what to do next: stop
    /// with the resolution on success; on failure, wait `BASE_DELAY_MS * 2^n`
    /// before retry `n`, or stop with the failure once `max_retries` retries
    /// have been spent.
    pub fn record(&mut self, outcome: Result<String, AttemptError>) -> (step: RetryStep)
        requires
            old(self).attempts <= old(self).max_retries,
        ensures
            final(self).max_retries == old(self).max_retries,
            final(self).attempts == old(self).attempts + 1,
            step == retry_step((old(self).attempts + 1) as nat, old(self).max_retries, outcome),
    {
        self.attempts = self.attempts + 1;
        match outcome {
            Ok(t) => RetryStep::Finished(Ok(t)),
            Err(e) => {
                if self.attempts > self.max_retries as u64 {
                    RetryStep::Finished(
                        Err(ResolutionError::Exhausted { attempts: self.attempts, last: e }),
                    )
                } else {
                    RetryStep::Wait { delay_ms: backoff_delay_ms(self.attempts) }
                }
            },
        }
    }
}

/// The steps a session that has made `attempts` attempts hands out when the
/// next attempts come to `outcomes` in turn, up to and including the first
/// `Finished`.
pub open spec fn retry_run(
    max_retries: u32,
    attempts: nat,
    outcomes: Seq<Result<String, AttemptError>>,
) -> Seq<RetryStep>
    decreases outcomes.len(),
{
    if outcomes.len() == 0 {
        Seq::empty()
    } else {
        let step = retry_step(attempts + 1, max_retries, outcomes[0]);
        if step is Finished {
            seq![step]
        } else {
            seq![step] + retry_run(max_retries, attempts + 1, outcomes.drop_first())
        }
    }
}

/// The service fails the first `failures` attempts and answers the next one.
pub open spec fn fails_first(outcomes: Seq<Result<String, AttemptError>>, failures: nat) -> bool {
    &&& forall|i: int| 0 <= i < failures && i < outcomes.len() ==> (#[trigger] outcomes[i]) is Err
    &&& failures < outcomes.len() ==> outcomes[failures as int] is Ok
}

pub open spec fn min_nat(a: nat, b: nat) -> nat {
    if a <= b {
        a
    } else {
        b
    }
}

proof fn lemma_retry_run_from(
    max_retries: u32,
    attempts: nat,
    failures: nat,
    outcomes: Seq<Result<String, AttemptError>>,
)
    requires
        attempts <= max_retries,
        fails_first(outcomes, failures),
        outcomes.len() >= 1 + min_nat(failures, (max_retries - attempts) as nat),
    ensures
        ({
            let left = (max_retries - attempts) as nat;
            let n = 1 + min_nat(failures, left);
            let steps = retry_run(max_retries, attempts, outcomes);
            &&& steps.len() == n
            &&& forall|k: int|
                0 <= k < n - 1 ==> #[trigger] steps[k] == RetryStep::Wait {
                    delay_ms: capped_backoff((attempts + k + 1) as nat),
                }
            &&& failures <= left ==> steps[n - 1] == RetryStep::Finished(
                Ok(outcomes[failures as int]->Ok_0),
            )
            &&& failures > left ==> steps[n - 1] == RetryStep::Finished(
                Err(
                    ResolutionError::Exhausted {
                        attempts: (max_retries + 1) as u64,
                        last: outcomes[left as int]->Err_0,
                    },
                ),
            )
        }),
    decreases outcomes.len(),
{
    let left = (max_retries - attempts) as nat;
    let steps = retry_run(max_retries, attempts, outcomes);
    if failures == 0 {
        assert(steps =~= seq![RetryStep::Finished(Ok(outcomes[0]->Ok_0))]);
    } else {
        assert(outcomes[0] is Err);
        if attempts == max_retries {
            assert(steps.len() == 1);
        } else {
            let rest = outcomes.drop_first();
            assert(fails_first(rest, (failures - 1) as nat)) by {
                assert forall|i: int| 0 <= i < failures - 1 && i < rest.len() implies (
                #[trigger] rest[i]) is Err by {
                    assert(rest[i] == outcomes[i + 1]);
                }
            }
            lemma_retry_run_from(max_retries, attempts + 1, (failures - 1) as nat, rest);
            let tail = retry_run(max_retries, attempts + 1, rest);
            assert(steps == seq![
                RetryStep::Wait { delay_ms: capped_backoff(attempts + 1) },
            ] + tail);
            let n = 1 + min_nat(failures, left);
            assert forall|k: int| 0 <= k < n - 1 implies #[trigger] steps[k] == RetryStep::Wait {
                delay_ms: capped_backoff((attempts + k + 1) as nat),
            } by {
                if k > 0 {
                    assert(steps[k] == tail[k - 1]);
                }
            }
            assert(steps[n - 1] == tail[n - 2]);
        }
    }
}

/// A conflict on which the service fails `failures` times before answering
/// gets exactly `1 + min(failures, max_retries)` attempts. The caller waits
/// before each retry, `capped_backoff(n)` before retry `n`, and neither
/// before the first attempt nor after the last: every step but the last is a
/// `Wait`, and the last is `Finished`, with the answer when
/// `failures <= max_retries` and with the last failure otherwise.
pub proof fn lemma_attempt_count(
    max_retries: u32,
    failures: nat,
    outcomes: Seq<Result<String, AttemptError>>,
)
    requires
        fails_first(outcomes, failures),
        outcomes.len() >= 1 + min_nat(failures, max_retries as nat),
    ensures
        ({
            let n = 1 + min_nat(failures, max_retries as nat);
            let steps = retry_run(max_retries, 0, outcomes);
            &&& steps.len() == n
            &&& forall|k: int|
                0 <= k < n - 1 ==> #[trigger] steps[k] == RetryStep::Wait {
                    delay_ms: capped_backoff((k + 1) as nat),
                }
            &&& steps[n - 1] is Finished
            &&& failures <= max_retries ==> steps[n - 1] == RetryStep::Finished(
                Ok(outcomes[failures as int]->Ok_0),
            )
            &&& failures > max_retries ==> steps[n - 1] == RetryStep::Finished(
                Err(
                    ResolutionError::Exhausted {
                        attempts: (max_retries + 1) as u64,
                        last: outcomes[max_retries as int]->Err_0,
                    },
                ),
            )
        }),
{
    lemma_retry_run_from(max_retries, 0, failures, outcomes);
}

/// With no retries permitted, a first attempt that fails is the only one, and
/// the conflict is not resolved.
pub proof fn lemma_no_retry_single_attempt(outcomes: Seq<Result<String, AttemptError>>)
    requires
        outcomes.len() >= 1,
        outcomes[0] is Err,
    ensures
        retry_run(0, 0, outcomes) == seq![
            RetryStep::Finished(
                Err(ResolutionError::Exhausted { attempts: 1, last: outcomes[0]->Err_0 }),
            ),
        ],
{
}

} // verus!
