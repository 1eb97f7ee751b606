//! The remediation poller's decision core.
//!
//! For each configured (action name, shell command) pair, one poll tick
//! queries the alert service for active alerts carrying that action and
//! the monitored instance; a non-empty answer triggers the command, and a
//! successful command is followed by one time-boxed silence so the alert
//! does not re-fire while the remediation takes effect.
//!
//! Everything that decides is here and verified: the per-action state
//! machine, the query URL, and the silence request body.  The unverified
//! rim only performs the HTTP calls and runs the command, feeding the
//! outcomes back in as plain values.

use vstd::prelude::*;

use crate::ascii::{BACKSLASH, QUOTE};
use crate::bytestr::{bytes_eq, copy_bytes};
use crate::config::ActionEntry;
use crate::sample::opt_bytes;

verus! {

/// How long a freshly created silence lasts: fifteen minutes.
pub const SILENCE_WINDOW_MS: i64 = 900000;

/// Latest millisecond count (end of year 9999) for which a silence window
/// is requested; far later counts cannot be formatted as timestamps.
pub const MAX_FORMATTED_MS: i64 = 253402300799999;

/// What one alert query came to, as the rim reports it.
#[derive(Debug, PartialEq, Eq, Clone, Copy)]
pub enum QueryOutcome {
    /// The request failed or the answer did not decode: the action is
    /// skipped for this tick, not retried.
    Failed,
    /// The alert array came back empty.
    NoActive,
    /// The alert array came back non-empty.
    Active,
}

/// The per-action states of one poll tick.
#[derive(Debug, PartialEq, Eq, Clone, Copy)]
pub enum ActionState {
    /// Query answered with at least one active alert.
    Matched,
    /// Query answered with no active alert.
    NoMatch,
    /// Query failed; treated as no match for this tick.
    QueryFailed,
    /// Command exited zero; a silence is requested.
    Silenced,
    /// Command exited non-zero; no silence, the alert stays.
    ExecuteFailed,
}

/// Where a tick stands after its query.
pub open spec fn spec_query_transition(o: QueryOutcome) -> ActionState {
    match o {
        QueryOutcome::Failed => ActionState::QueryFailed,
        QueryOutcome::NoActive => ActionState::NoMatch,
        QueryOutcome::Active => ActionState::Matched,
    }
}

/// Where a tick stands after its command ran.
pub open spec fn spec_execute_transition(exit_ok: bool) -> ActionState {
    if exit_ok {
        ActionState::Silenced
    } else {
        ActionState::ExecuteFailed
    }
}

/// Applies the query outcome.
pub fn query_transition(o: QueryOutcome) -> (s: ActionState)
    ensures
        s == spec_query_transition(o),
{
    match o {
        QueryOutcome::Failed => ActionState::QueryFailed,
        QueryOutcome::NoActive => ActionState::NoMatch,
        QueryOutcome::Active => ActionState::Matched,
    }
}

/// Whether the action's command is to run: exactly when the query found
/// an active alert.
pub fn should_execute(s: &ActionState) -> (r: bool)
    ensures
        r == (*s is Matched),
{
    matches!(s, ActionState::Matched)
}

/// Applies the command's exit status.
pub fn execute_transition(exit_ok: bool) -> (s: ActionState)
    ensures
        s == spec_execute_transition(exit_ok),
{
    if exit_ok {
        ActionState::Silenced
    } else {
        ActionState::ExecuteFailed
    }
}

/// Whether a silence is to be created: exactly when the command exited
/// zero.
pub fn should_silence(s: &ActionState) -> (r: bool)
    ensures
        r == (*s is Silenced),
{
    matches!(s, ActionState::Silenced)
}

/// The command runs exactly when the query reported an active alert:
/// a failed query or an empty answer never executes anything, and one
/// tick of one action runs its command at most once.
pub proof fn lemma_execute_only_on_active(o: QueryOutcome)
    ensures
        (spec_query_transition(o) is Matched) <==> (o is Active),
{
}

/// A silence is requested exactly after a zero exit: a failing command
/// leaves the alert unsuppressed for the next tick.
pub proof fn lemma_silence_only_after_success(exit_ok: bool)
    ensures
        (spec_execute_transition(exit_ok) is Silenced) <==> exit_ok,
{
}

/// The command configured for `name`, if any: the first entry with that
/// name.  Only configured actions can ever hand a command out.
pub open spec fn spec_command_for(actions: Seq<(Seq<u8>, Seq<u8>)>, name: Seq<u8>) -> Option<
    Seq<u8>,
>
    decreases actions.len(),
{
    if actions.len() == 0 {
        None
    } else if actions.first().0 == name {
        Some(actions.first().1)
    } else {
        spec_command_for(actions.drop_first(), name)
    }
}

/// Looks the command for `name` up in the configured actions.
pub fn command_for(actions: &Vec<ActionEntry>, name: &[u8]) -> (r: Option<Vec<u8>>)
    ensures
        opt_bytes(r) == spec_command_for(
            actions@.map_values(|a: ActionEntry| (a.name@, a.command@)),
            name@,
        ),
{
    let ghost m = actions@.map_values(|a: ActionEntry| (a.name@, a.command@));
    let n = actions.len();
    let mut i: usize = 0;
    proof {
        assert(m.skip(0) =~= m);
    }
    while i < n
        invariant
            0 <= i <= n,
            n == actions@.len(),
            m == actions@.map_values(|a: ActionEntry| (a.name@, a.command@)),
            spec_command_for(m, name@) == spec_command_for(m.skip(i as int), name@),
            forall|j: int| 0 <= j < i ==> m[j].0 != name@,
        decreases n - i,
    {
        proof {
            assert(m.skip(i as int).first() == m[i as int]);
            assert(m.skip(i as int).drop_first() =~= m.skip(i + 1));
        }
        if bytes_eq(actions[i].name.as_slice(), name) {
            return Some(copy_bytes(&actions[i].command));
        }
        i = i + 1;
    }
    proof {
        assert(m.skip(n as int).len() == 0);
    }
    None
}

/// One escaped byte of a JSON string body: quote and backslash get a
/// backslash, control bytes become a `\u00` sequence, everything else
/// stands as itself.
pub open spec fn esc_byte(b: u8) -> Seq<u8> {
    if b == QUOTE {
        seq![BACKSLASH, QUOTE]
    } else if b == BACKSLASH {
        seq![BACKSLASH, BACKSLASH]
    } else if b < 32 {
        seq![BACKSLASH, 117, 48, 48, hex_digit(b / 16), hex_digit(b % 16)]
    } else {
        seq![b]
    }
}

/// The hex digits `0..9a..f`.
pub open spec fn hex_digit(n: u8) -> u8 {
    if n < 10 {
        (48 + n) as u8
    } else {
        (87 + n) as u8
    }
}

/// A byte string escaped for standing inside a JSON string literal.
pub open spec fn json_escaped(s: Seq<u8>) -> Seq<u8>
    decreases s.len(),
{
    if s.len() == 0 {
        Seq::empty()
    } else {
        json_escaped(s.drop_last()) + esc_byte(s.last())
    }
}

/// Appends `s` to `out`.
fn push_all(out: &mut Vec<u8>, s: &[u8])
    ensures
        final(out)@ == old(out)@ + s@,
{
    let n = s.len();
    let mut i: usize = 0;
    while i < n
        invariant
            0 <= i <= n,
            n == s@.len(),
            out@ == old(out)@ + s@.take(i as int),
        decreases n - i,
    {
        out.push(s[i]);
        proof {
            assert(old(out)@ + s@.take(i + 1) =~= (old(out)@ + s@.take(i as int)).push(
                s@[i as int],
            ));
        }
        i = i + 1;
    }
    proof {
        assert(s@.take(n as int) =~= s@);
    }
}

/// Appends the JSON escaping of `s` to `out`.
fn push_escaped(out: &mut Vec<u8>, s: &[u8])
    ensures
        final(out)@ == old(out)@ + json_escaped(s@),
{
    let n = s.len();
    let mut i: usize = 0;
    proof {
        assert(s@.take(0) =~= Seq::<u8>::empty());
        assert(old(out)@ + json_escaped(s@.take(0)) =~= old(out)@);
    }
    while i < n
        invariant
            0 <= i <= n,
            n == s@.len(),
            out@ == old(out)@ + json_escaped(s@.take(i as int)),
        decreases n - i,
    {
        let b = s[i];
        proof {
            assert(s@.take(i + 1).drop_last() =~= s@.take(i as int));
            assert(s@.take(i + 1).last() == s@[i as int]);
        }
        if b == QUOTE {
            out.push(BACKSLASH);
            out.push(QUOTE);
        } else if b == BACKSLASH {
            out.push(BACKSLASH);
            out.push(BACKSLASH);
        } else if b < 32 {
            out.push(BACKSLASH);
            out.push(117);
            out.push(48);
            out.push(48);
            let hi = b / 16;
            let lo = b % 16;
            out.push(if hi < 10 { 48 + hi } else { 87 + hi });
            out.push(if lo < 10 { 48 + lo } else { 87 + lo });
        } else {
            out.push(b);
        }
        proof {
            assert(out@ =~= old(out)@ + json_escaped(s@.take(i + 1)));
        }
        i = i + 1;
    }
    proof {
        assert(s@.take(n as int) =~= s@);
    }
}

/// The alert query URL for one action and the monitored instance:
/// two exact label filters, active alerts only.
pub open spec fn alert_query_url(base: Seq<u8>, action: Seq<u8>, instance: Seq<u8>) -> Seq<u8> {
    base + url_alerts_prefix() + action + url_alerts_mid() + instance + url_alerts_suffix()
}

/// Builds the alert query URL.
pub fn build_alert_query_url(base: &[u8], action: &[u8], instance: &[u8]) -> (r: Vec<u8>)
    ensures
        r@ == alert_query_url(base@, action@, instance@),
{
    let mut out: Vec<u8> = Vec::new();
    proof {
        assert(out@ + base@ =~= base@);
    }
    push_all(&mut out, base);
    push_all(&mut out, url_alerts_prefix_bytes().as_slice());
    push_all(&mut out, action);
    push_all(&mut out, url_alerts_mid_bytes().as_slice());
    push_all(&mut out, instance);
    push_all(&mut out, url_alerts_suffix_bytes().as_slice());
    proof {
        assert(out@ =~= alert_query_url(base@, action@, instance@));
    }
    out
}

/// The silence-creation URL.
pub open spec fn silences_url(base: Seq<u8>) -> Seq<u8> {
    base + url_silences_path()
}

/// Builds the silence-creation URL.
pub fn build_silences_url(base: &[u8]) -> (r: Vec<u8>)
    ensures
        r@ == silences_url(base@),
{
    let mut out: Vec<u8> = Vec::new();
    proof {
        assert(out@ + base@ =~= base@);
    }
    push_all(&mut out, base);
    push_all(&mut out, url_silences_path_bytes().as_slice());
    out
}

/// The silence request body: two exact (non-regex) matchers on the
/// instance and the action, the window's start and end, the fixed creator
/// identity, and a comment naming the action and the instance.
pub open spec fn silence_payload(
    instance: Seq<u8>,
    action: Seq<u8>,
    starts_at: Seq<u8>,
    ends_at: Seq<u8>,
) -> Seq<u8> {
    payload_open() + json_escaped(instance) + payload_mid_action() + json_escaped(action)
        + payload_starts() + json_escaped(starts_at) + payload_ends() + json_escaped(ends_at)
        + payload_created_comment() + json_escaped(action) + payload_on() + json_escaped(instance)
        + payload_close()
}

/// Builds the silence request body from already formatted timestamps.
pub fn build_silence_payload(instance: &[u8], action: &[u8], starts_at: &[u8], ends_at: &[u8]) -> (r:
    Vec<u8>)
    ensures
        r@ == silence_payload(instance@, action@, starts_at@, ends_at@),
{
    let mut out: Vec<u8> = Vec::new();
    proof {
        assert(out@ + payload_open() =~= payload_open());
    }
    push_all(&mut out, payload_open_bytes().as_slice());
    push_escaped(&mut out, instance);
    push_all(&mut out, payload_mid_action_bytes().as_slice());
    push_escaped(&mut out, action);
    push_all(&mut out, payload_starts_bytes().as_slice());
    push_escaped(&mut out, starts_at);
    push_all(&mut out, payload_ends_bytes().as_slice());
    push_escaped(&mut out, ends_at);
    push_all(&mut out, payload_created_comment_bytes().as_slice());
    push_escaped(&mut out, action);
    push_all(&mut out, payload_on_bytes().as_slice());
    push_escaped(&mut out, instance);
    push_all(&mut out, payload_close_bytes().as_slice());
    proof {
        assert(out@ =~= silence_payload(instance@, action@, starts_at@, ends_at@));
    }
    out
}

/// What the timestamp formatter returns for a given millisecond count:
/// the RFC3339 text depends on the count alone.
pub uninterp spec fn rfc3339_of(ms: int) -> Seq<u8>;

/// Relies on chrono's `DateTime::<Utc>::from_timestamp_millis` and
/// `DateTime::to_rfc3339`: the text is a function of the millisecond
/// count alone, and chrono documents `None` only for an out-of-range
/// count, every count from the epoch through year 9999 being in range.
#[verifier::external_body]
fn rfc3339_utc_millis(ms: i64) -> (r: Option<Vec<u8>>)
    ensures
        r matches Some(v) ==> v@ == rfc3339_of(ms as int),
        0 <= ms <= MAX_FORMATTED_MS ==> r is Some,
{
    chrono::DateTime::<chrono::Utc>::from_timestamp_millis(ms).map(|dt| {
        dt.to_rfc3339().into_bytes()
    })
}

/// The silence request for one remediated action: a fifteen-minute window
/// from `now_ms`, both ends formatted as RFC3339 text.
///
/// Returns nothing only when a window end cannot be formatted as a
/// timestamp; any present-day count is formattable.
pub fn make_silence_request(instance: &[u8], action: &[u8], now_ms: i64) -> (r: Option<Vec<u8>>)
    requires
        now_ms <= i64::MAX - SILENCE_WINDOW_MS,
    ensures
        r matches Some(p) ==> p@ == silence_payload(
            instance@,
            action@,
            rfc3339_of(now_ms as int),
            rfc3339_of(now_ms + SILENCE_WINDOW_MS as int),
        ),
        0 <= now_ms && now_ms + SILENCE_WINDOW_MS <= MAX_FORMATTED_MS ==> r is Some,
{
    let end_ms = now_ms + SILENCE_WINDOW_MS;
    let starts = rfc3339_utc_millis(now_ms);
    let ends = rfc3339_utc_millis(end_ms);
    match (starts, ends) {
        (Some(s), Some(e)) => Some(build_silence_payload(instance, action, s.as_slice(), e.as_slice())),
        _ => None,
    }
}

/// First fixed part of the alert query URL.
pub open spec fn url_alerts_prefix() -> Seq<u8> {
    // "/api/v2/alerts?filter=alert_action=%22"
    seq![
        47, 97, 112, 105, 47, 118, 50, 47, 97, 108, 101, 114, 116, 115, 63, 102, 105, 108, 116,
        101, 114, 61, 97, 108, 101, 114, 116, 95, 97, 99, 116, 105, 111, 110, 61, 37, 50, 50,
    ]
}

#[verifier::rlimit(50)]
fn url_alerts_prefix_bytes() -> (r: Vec<u8>)
    ensures
        r@ == url_alerts_prefix(),
{
    let mut v: Vec<u8> = Vec::new();
    v.push(47);
    v.push(97);
    v.push(112);
    v.push(105);
    v.push(47);
    v.push(118);
    v.push(50);
    v.push(47);
    v.push(97);
    v.push(108);
    v.push(101);
    v.push(114);
    v.push(116);
    v.push(115);
    v.push(63);
    v.push(102);
    v.push(105);
    v.push(108);
    v.push(116);
    v.push(101);
    v.push(114);
    v.push(61);
    v.push(97);
    v.push(108);
    v.push(101);
    v.push(114);
    v.push(116);
    v.push(95);
    v.push(97);
    v.push(99);
    v.push(116);
    v.push(105);
    v.push(111);
    v.push(110);
    v.push(61);
    v.push(37);
    v.push(50);
    v.push(50);
    proof {
        assert(v@ =~= url_alerts_prefix());
    }
    v
}

/// Part of the alert query URL between the action and the instance.
pub open spec fn url_alerts_mid() -> Seq<u8> {
    // "%22&filter=instance=%22"
    seq![
        37, 50, 50, 38, 102, 105, 108, 116, 101, 114, 61, 105, 110, 115, 116, 97, 110, 99, 101,
        61, 37, 50, 50,
    ]
}

#[verifier::rlimit(50)]
fn url_alerts_mid_bytes() -> (r: Vec<u8>)
    ensures
        r@ == url_alerts_mid(),
{
    let mut v: Vec<u8> = Vec::new();
    v.push(37);
    v.push(50);
    v.push(50);
    v.push(38);
    v.push(102);
    v.push(105);
    v.push(108);
    v.push(116);
    v.push(101);
    v.push(114);
    v.push(61);
    v.push(105);
    v.push(110);
    v.push(115);
    v.push(116);
    v.push(97);
    v.push(110);
    v.push(99);
    v.push(101);
    v.push(61);
    v.push(37);
    v.push(50);
    v.push(50);
    proof {
        assert(v@ =~= url_alerts_mid());
    }
    v
}

/// Last fixed part of the alert query URL.
pub open spec fn url_alerts_suffix() -> Seq<u8> {
    // "%22&active=true"
    seq![
        37, 50, 50, 38, 97, 99, 116, 105, 118, 101, 61, 116, 114, 117, 101,
    ]
}

#[verifier::rlimit(50)]
fn url_alerts_suffix_bytes() -> (r: Vec<u8>)
    ensures
        r@ == url_alerts_suffix(),
{
    let mut v: Vec<u8> = Vec::new();
    v.push(37);
    v.push(50);
    v.push(50);
    v.push(38);
    v.push(97);
    v.push(99);
    v.push(116);
    v.push(105);
    v.push(118);
    v.push(101);
    v.push(61);
    v.push(116);
    v.push(114);
    v.push(117);
    v.push(101);
    proof {
        assert(v@ =~= url_alerts_suffix());
    }
    v
}

/// Path of the silence-creation endpoint.
pub open spec fn url_silences_path() -> Seq<u8> {
    // "/api/v2/silences"
    seq![
        47, 97, 112, 105, 47, 118, 50, 47, 115, 105, 108, 101, 110, 99, 101, 115,
    ]
}

#[verifier::rlimit(50)]
fn url_silences_path_bytes() -> (r: Vec<u8>)
    ensures
        r@ == url_silences_path(),
{
    let mut v: Vec<u8> = Vec::new();
    v.push(47);
    v.push(97);
    v.push(112);
    v.push(105);
    v.push(47);
    v.push(118);
    v.push(50);
    v.push(47);
    v.push(115);
    v.push(105);
    v.push(108);
    v.push(101);
    v.push(110);
    v.push(99);
    v.push(101);
    v.push(115);
    proof {
        assert(v@ =~= url_silences_path());
    }
    v
}

/// Opening of the silence payload, up to the instance matcher's value.
pub open spec fn payload_open() -> Seq<u8> {
    // "{\"matchers\":[{\"name\":\"instance\",\"value\":\""
    seq![
        123, 34, 109, 97, 116, 99, 104, 101, 114, 115, 34, 58, 91, 123, 34, 110, 97, 109, 101,
        34, 58, 34, 105, 110, 115, 116, 97, 110, 99, 101, 34, 44, 34, 118, 97, 108, 117, 101,
        34, 58, 34,
    ]
}

#[verifier::rlimit(50)]
fn payload_open_bytes() -> (r: Vec<u8>)
    ensures
        r@ == payload_open(),
{
    let mut v: Vec<u8> = Vec::new();
    v.push(123);
    v.push(34);
    v.push(109);
    v.push(97);
    v.push(116);
    v.push(99);
    v.push(104);
    v.push(101);
    v.push(114);
    v.push(115);
    v.push(34);
    v.push(58);
    v.push(91);
    v.push(123);
    v.push(34);
    v.push(110);
    v.push(97);
    v.push(109);
    v.push(101);
    v.push(34);
    v.push(58);
    v.push(34);
    v.push(105);
    v.push(110);
    v.push(115);
    v.push(116);
    v.push(97);
    v.push(110);
    v.push(99);
    v.push(101);
    v.push(34);
    v.push(44);
    v.push(34);
    v.push(118);
    v.push(97);
    v.push(108);
    v.push(117);
    v.push(101);
    v.push(34);
    v.push(58);
    v.push(34);
    proof {
        assert(v@ =~= payload_open());
    }
    v
}

/// Between the instance matcher and the action matcher: both exact, not regex.
pub open spec fn payload_mid_action() -> Seq<u8> {
    // "\",\"isRegex\":false},{\"name\":\"alert_action\",\"value\":\""
    seq![
        34, 44, 34, 105, 115, 82, 101, 103, 101, 120, 34, 58, 102, 97, 108, 115, 101, 125, 44,
        123, 34, 110, 97, 109, 101, 34, 58, 34, 97, 108, 101, 114, 116, 95, 97, 99, 116, 105,
        111, 110, 34, 44, 34, 118, 97, 108, 117, 101, 34, 58, 34,
    ]
}

#[verifier::rlimit(50)]
fn payload_mid_action_bytes() -> (r: Vec<u8>)
    ensures
        r@ == payload_mid_action(),
{
    let mut v: Vec<u8> = Vec::new();
    v.push(34);
    v.push(44);
    v.push(34);
    v.push(105);
    v.push(115);
    v.push(82);
    v.push(101);
    v.push(103);
    v.push(101);
    v.push(120);
    v.push(34);
    v.push(58);
    v.push(102);
    v.push(97);
    v.push(108);
    v.push(115);
    v.push(101);
    v.push(125);
    v.push(44);
    v.push(123);
    v.push(34);
    v.push(110);
    v.push(97);
    v.push(109);
    v.push(101);
    v.push(34);
    v.push(58);
    v.push(34);
    v.push(97);
    v.push(108);
    v.push(101);
    v.push(114);
    v.push(116);
    v.push(95);
    v.push(97);
    v.push(99);
    v.push(116);
    v.push(105);
    v.push(111);
    v.push(110);
    v.push(34);
    v.push(44);
    v.push(34);
    v.push(118);
    v.push(97);
    v.push(108);
    v.push(117);
    v.push(101);
    v.push(34);
    v.push(58);
    v.push(34);
    proof {
        assert(v@ =~= payload_mid_action());
    }
    v
}

/// Closes the matcher list and opens the start time.
pub open spec fn payload_starts() -> Seq<u8> {
    // "\",\"isRegex\":false}],\"startsAt\":\""
    seq![
        34, 44, 34, 105, 115, 82, 101, 103, 101, 120, 34, 58, 102, 97, 108, 115, 101, 125, 93,
        44, 34, 115, 116, 97, 114, 116, 115, 65, 116, 34, 58, 34,
    ]
}

#[verifier::rlimit(50)]
fn payload_starts_bytes() -> (r: Vec<u8>)
    ensures
        r@ == payload_starts(),
{
    let mut v: Vec<u8> = Vec::new();
    v.push(34);
    v.push(44);
    v.push(34);
    v.push(105);
    v.push(115);
    v.push(82);
    v.push(101);
    v.push(103);
    v.push(101);
    v.push(120);
    v.push(34);
    v.push(58);
    v.push(102);
    v.push(97);
    v.push(108);
    v.push(115);
    v.push(101);
    v.push(125);
    v.push(93);
    v.push(44);
    v.push(34);
    v.push(115);
    v.push(116);
    v.push(97);
    v.push(114);
    v.push(116);
    v.push(115);
    v.push(65);
    v.push(116);
    v.push(34);
    v.push(58);
    v.push(34);
    proof {
        assert(v@ =~= payload_starts());
    }
    v
}

/// Between the start and end times.
pub open spec fn payload_ends() -> Seq<u8> {
    // "\",\"endsAt\":\""
    seq![
        34, 44, 34, 101, 110, 100, 115, 65, 116, 34, 58, 34,
    ]
}

#[verifier::rlimit(50)]
fn payload_ends_bytes() -> (r: Vec<u8>)
    ensures
        r@ == payload_ends(),
{
    let mut v: Vec<u8> = Vec::new();
    v.push(34);
    v.push(44);
    v.push(34);
    v.push(101);
    v.push(110);
    v.push(100);
    v.push(115);
    v.push(65);
    v.push(116);
    v.push(34);
    v.push(58);
    v.push(34);
    proof {
        assert(v@ =~= payload_ends());
    }
    v
}

/// Creator identity and the opening of the comment.
pub open spec fn payload_created_comment() -> Seq<u8> {
    // "\",\"createdBy\":\"kreivo-monitor-agent\",\"comment\":\"Auto-silence after "
    seq![
        34, 44, 34, 99, 114, 101, 97, 116, 101, 100, 66, 121, 34, 58, 34, 107, 114, 101, 105,
        118, 111, 45, 109, 111, 110, 105, 116, 111, 114, 45, 97, 103, 101, 110, 116, 34, 44,
        34, 99, 111, 109, 109, 101, 110, 116, 34, 58, 34, 65, 117, 116, 111, 45, 115, 105, 108,
        101, 110, 99, 101, 32, 97, 102, 116, 101, 114, 32,
    ]
}

#[verifier::rlimit(50)]
fn payload_created_comment_bytes() -> (r: Vec<u8>)
    ensures
        r@ == payload_created_comment(),
{
    let mut v: Vec<u8> = Vec::new();
    v.push(34);
    v.push(44);
    v.push(34);
    v.push(99);
    v.push(114);
    v.push(101);
    v.push(97);
    v.push(116);
    v.push(101);
    v.push(100);
    v.push(66);
    v.push(121);
    v.push(34);
    v.push(58);
    v.push(34);
    v.push(107);
    v.push(114);
    v.push(101);
    v.push(105);
    v.push(118);
    v.push(111);
    v.push(45);
    v.push(109);
    v.push(111);
    v.push(110);
    v.push(105);
    v.push(116);
    v.push(111);
    v.push(114);
    v.push(45);
    v.push(97);
    v.push(103);
    v.push(101);
    v.push(110);
    v.push(116);
    v.push(34);
    v.push(44);
    v.push(34);
    v.push(99);
    v.push(111);
    v.push(109);
    v.push(109);
    v.push(101);
    v.push(110);
    v.push(116);
    v.push(34);
    v.push(58);
    v.push(34);
    v.push(65);
    v.push(117);
    v.push(116);
    v.push(111);
    v.push(45);
    v.push(115);
    v.push(105);
    v.push(108);
    v.push(101);
    v.push(110);
    v.push(99);
    v.push(101);
    v.push(32);
    v.push(97);
    v.push(102);
    v.push(116);
    v.push(101);
    v.push(114);
    v.push(32);
    proof {
        assert(v@ =~= payload_created_comment());
    }
    v
}

/// Comment text between the action and the instance.
pub open spec fn payload_on() -> Seq<u8> {
    // " by agent on "
    seq![
        32, 98, 121, 32, 97, 103, 101, 110, 116, 32, 111, 110, 32,
    ]
}

#[verifier::rlimit(50)]
fn payload_on_bytes() -> (r: Vec<u8>)
    ensures
        r@ == payload_on(),
{
    let mut v: Vec<u8> = Vec::new();
    v.push(32);
    v.push(98);
    v.push(121);
    v.push(32);
    v.push(97);
    v.push(103);
    v.push(101);
    v.push(110);
    v.push(116);
    v.push(32);
    v.push(111);
    v.push(110);
    v.push(32);
    proof {
        assert(v@ =~= payload_on());
    }
    v
}

/// End of the payload.
pub open spec fn payload_close() -> Seq<u8> {
    // "\"}"
    seq![
        34, 125,
    ]
}

#[verifier::rlimit(50)]
fn payload_close_bytes() -> (r: Vec<u8>)
    ensures
        r@ == payload_close(),
{
    let mut v: Vec<u8> = Vec::new();
    v.push(34);
    v.push(125);
    proof {
        assert(v@ =~= payload_close());
    }
    v
}

} // verus!
