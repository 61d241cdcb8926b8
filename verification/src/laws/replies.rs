//! Replies of the server, the pace of requests, and waiting.

use vstd::prelude::*;
use crate::clock::{clock_nanos, clock_secs, doubled, jittered, lasts_millis, span_nanos, span_secs};
use crate::feed::{search_objection, search_retry};
use crate::fetch::{asked_pause, follows, paced, tries_after, Reply, Step};
use crate::text::{decimal, has_prefix, holds, unsigned};
use crate::throttle::{after_success, penalized, relaxed, slowed, Throttle};

verus! {

/// A listing is given up as removed exactly on the statuses 404 and 410, at once and
/// without a pause.
pub proof fn law_only_404_and_410_are_removals(
    step: Step,
    code: u16,
    line: String,
    retry_after: Option<String>,
    made: u32,
    max_retries: u32,
)
    requires
        follows(step, Reply::Status { code, line, retry_after }, made, max_retries),
    ensures
        (step matches Step::Failed { message, .. } && has_prefix(message@, "post removed"@)) <==> (code == 404 || code
            == 410),
        code == 404 || code == 410 ==> (step matches Step::Failed { message, pause } && message@ == "post removed (http "@
            + line@ + ")"@ && pause is None),
{
    reveal_strlit("post removed");
    reveal_strlit(" (http ");
    reveal_strlit("post removed (http ");
    reveal_strlit("rate limited (429)");
    reveal_strlit("http status ");
    reveal_strlit(" (gave up after ");
    if code == 404 || code == 410 {
        let words = step->Failed_message@;
        assert(words.take(12) =~= "post removed"@);
        assert(words =~= "post removed (http "@ + line@ + ")"@);
    } else if step is Failed {
        let words = step->Failed_message@;
        if has_prefix(words, "post removed"@) {
            assert(words.take(12)[0] == 'p');
            assert(words[0] == 'r' || words[0] == 'h');
        }
    }
}

/// Every status outside 200 to 299 but 404 and 410 is tried again while retries are left,
/// and fails with the last of them.
pub proof fn law_other_statuses_are_retried(
    step: Step,
    code: u16,
    line: String,
    retry_after: Option<String>,
    made: u32,
    max_retries: u32,
)
    requires
        follows(step, Reply::Status { code, line, retry_after }, made, max_retries),
        code < 200 || code > 299,
        code != 404,
        code != 410,
    ensures
        made < max_retries ==> (step matches Step::Again { message, attempt, .. } && attempt == made + 1 && message@
            == if code == 429 {
            "rate limited (429)"@
        } else {
            "http status "@ + line@
        }),
        made >= max_retries ==> (step matches Step::Failed { message, .. } && message@ == (if code == 429 {
            "rate limited (429)"@
        } else {
            "http status "@ + line@
        }) + " (gave up after "@ + decimal((made + 1) as nat) + " attempts)"@),
        tries_after(Reply::Status { code, line, retry_after }, made) == made + 1,
{
}

/// The body of an answer is read exactly on the statuses 200 to 299, and a payload ends
/// the fetch.
pub proof fn law_good_statuses_are_read(
    step: Step,
    code: u16,
    line: String,
    retry_after: Option<String>,
    made: u32,
    max_retries: u32,
)
    requires
        follows(step, Reply::Status { code, line, retry_after }, made, max_retries),
    ensures
        step is Read <==> 200 <= code <= 299,
        !(step is Done),
        200 <= code <= 299 ==> tries_after(Reply::Status { code, line, retry_after }, made) == made,
{
}

/// What fails without a status is transient: it is tried again while retries are left.
pub proof fn law_broken_connections_are_retried(
    step: Step,
    reply: Reply,
    words: Seq<char>,
    made: u32,
    max_retries: u32,
)
    requires
        follows(step, reply, made, max_retries),
        (reply matches Reply::Unsent { message } && words == message@) || (reply matches Reply::Garbled { message }
            && words == "detail response not JSON: "@ + message@),
    ensures
        made < max_retries ==> (step matches Step::Again { message, pause, attempt } && message@ == words && pause is None
            && attempt == made + 1),
        made >= max_retries ==> (step matches Step::Failed { message, pause } && message@ == words + " (gave up after "@
            + decimal((made + 1) as nat) + " attempts)"@ && pause is None),
        tries_after(reply, made) == made + 1,
{
}

/// A payload is handed back as it is, whatever went before.
pub proof fn law_payload_is_handed_back(step: Step, reply: Reply, made: u32, max_retries: u32)
    requires
        follows(step, reply, made, max_retries),
    ensures
        step is Done <==> reply is Payload,
        (step matches Step::Done(d)) ==> (reply matches Reply::Payload(detail) && step->Done_0@ == detail@),
        reply is Payload ==> tries_after(reply, made) == made,
{
}

/// Before another try, and before a failure is reported, comes the pause that the header
/// of a 429 asks for in seconds. Any other status comes without one.
pub proof fn law_pause_comes_first(
    step: Step,
    code: u16,
    line: String,
    retry_after: Option<String>,
    made: u32,
    max_retries: u32,
)
    requires
        follows(step, Reply::Status { code, line, retry_after }, made, max_retries),
    ensures
        ({
            let rest = if code == 429 && retry_after is Some {
                unsigned(retry_after->0@)
            } else {
                None
            };
            &&& step matches Step::Again { pause, .. } ==> pause == rest
            &&& step matches Step::Failed { pause, .. } ==> pause == rest
        }),
{
}

/// A pause comes with a rate limit only, and is as long as the number in the header.
pub proof fn law_pause_is_the_number_in_the_header(code: u16, line: String, header: String, secs: u64)
    ensures
        unsigned(header@) == Some(secs) && code == 429 ==> asked_pause(
            Reply::Status { code, line, retry_after: Some(header) },
        ) == Some(secs),
        unsigned(header@) is None || code != 429 ==> asked_pause(
            Reply::Status { code, line, retry_after: Some(header) },
        ) is None,
        asked_pause(Reply::Status { code, line, retry_after: None }) is None,
{
}

/// A reply changes the pace only where it is a 429, which slows it, or a payload, which
/// counts as a success.
pub proof fn law_what_changes_the_pace(before: Throttle, after: Throttle, reply: Reply)
    requires
        paced(before, after, reply),
    ensures
        after.max_ms == before.max_ms,
        !(reply is Payload) && !(reply matches Reply::Status { code, .. } && code == 429) ==> after == before,
        (reply matches Reply::Status { code, .. } && code == 429) ==> after.ok_streak == 0 && after.delay_ms
            == penalized(before.delay_ms, before.max_ms),
        reply is Payload && before.ok_streak < 49 ==> after.delay_ms == before.delay_ms && after.ok_streak
            == before.ok_streak + 1,
        reply is Payload && before.ok_streak >= 49 ==> after.ok_streak == 0 && after.delay_ms == relaxed(
            before.delay_ms as int,
        ),
{
}

/// A rate limit makes the delay half as long again, up to the ceiling.
pub proof fn law_penalty(delay_ms: u64, max_ms: u64)
    ensures
        delay_ms >= 34 && delay_ms + delay_ms / 2 <= max_ms ==> penalized(delay_ms, max_ms) == delay_ms + delay_ms / 2,
        delay_ms + delay_ms / 2 > max_ms ==> penalized(delay_ms, max_ms) == max_ms,
        delay_ms < 34 && 50 <= max_ms ==> penalized(delay_ms, max_ms) == 50,
        max_ms < 50 && delay_ms + delay_ms / 2 <= max_ms ==> penalized(delay_ms, max_ms) == delay_ms + delay_ms / 2,
{
}

/// Fifty successes in a row take a tenth off the delay, down to 50; fewer take nothing.
pub proof fn law_relief(delay_ms: int, streak: int)
    requires
        0 <= delay_ms,
        0 <= streak,
    ensures
        streak < 49 ==> after_success(delay_ms, streak) == (delay_ms, streak + 1),
        streak >= 49 ==> after_success(delay_ms, streak).1 == 0,
        streak >= 49 && delay_ms >= 56 ==> after_success(delay_ms, streak).0 == delay_ms - (delay_ms + 9) / 10,
        streak >= 49 && delay_ms < 56 ==> after_success(delay_ms, streak).0 == 50,
{
}

/// A sweep starts at the current delay doubled as often as its number says.
pub proof fn law_sweep_pace(delay_ms: u64, max_ms: u64, pass: u32)
    requires
        pass < u32::MAX,
    ensures
        slowed(delay_ms, max_ms, 0) == if delay_ms <= max_ms {
            delay_ms
        } else {
            max_ms
        },
        slowed(delay_ms, max_ms, (pass + 1) as u32) == if 2 * slowed(delay_ms, max_ms, pass) <= max_ms {
            2 * slowed(delay_ms, max_ms, pass)
        } else {
            max_ms as int
        },
{
    use_pow2(delay_ms, pass);
}

proof fn use_pow2(delay_ms: u64, pass: u32)
    requires
        pass < u32::MAX,
    ensures
        delay_ms * vstd::arithmetic::power2::pow2(0) == delay_ms,
        delay_ms * vstd::arithmetic::power2::pow2((pass + 1) as nat) == 2 * (delay_ms
            * vstd::arithmetic::power2::pow2(pass as nat)),
        delay_ms * vstd::arithmetic::power2::pow2(pass as nat) >= 0,
{
    let p = vstd::arithmetic::power2::pow2(pass as nat) as int;
    vstd::arithmetic::power2::lemma2_to64();
    vstd::arithmetic::power2::lemma_pow2_unfold((pass + 1) as nat);
    vstd::arithmetic::power2::lemma_pow2_pos(pass as nat);
    assert(delay_ms * (2 * p) == 2 * (delay_ms * p)) by (nonlinear_arith);
    assert(delay_ms * p >= 0) by (nonlinear_arith)
        requires
            delay_ms >= 0,
            p >= 0,
    ;
}

/// The wait is the base doubled with each attempt, up to the sixth, and then the
/// nanoseconds of the clock as milliseconds, wrapped so that they are at most a quarter;
/// never more than two minutes.
pub proof fn law_wait(base_ms: u64, attempt: u32, nanos: u32)
    ensures
        doubled(base_ms, 0) == base_ms,
        attempt < 6 && 2 * doubled(base_ms, attempt) <= u64::MAX ==> doubled(base_ms, (attempt + 1) as u32) == 2
            * doubled(base_ms, attempt),
        attempt < 6 && 2 * doubled(base_ms, attempt) > u64::MAX ==> doubled(base_ms, (attempt + 1) as u32) == u64::MAX,
        attempt >= 6 ==> doubled(base_ms, attempt) == doubled(base_ms, 6),
        nanos <= doubled(base_ms, attempt) / 4 && doubled(base_ms, attempt) + nanos <= 120_000 ==> jittered(
            base_ms,
            attempt,
            nanos,
        ) == doubled(base_ms, attempt) + nanos,
        nanos <= doubled(base_ms, attempt) / 4 && doubled(base_ms, attempt) + nanos > 120_000 ==> jittered(
            base_ms,
            attempt,
            nanos,
        ) == 120_000,
        nanos + doubled(base_ms, attempt) / 4 + 1 <= u32::MAX ==> jittered(
            base_ms,
            attempt,
            (nanos + doubled(base_ms, attempt) / 4 + 1) as u32,
        ) == jittered(base_ms, attempt, nanos),
        doubled(base_ms, attempt) > 120_000 ==> jittered(base_ms, attempt, nanos) == 120_000,
{
    crate::clock::law_backoff_grows(base_ms, attempt, attempt);
    crate::clock::law_backoff_is_bounded(base_ms, attempt, nanos);
    let grown = doubled(base_ms, attempt);
    let m = grown / 4 + 1;
    if attempt < 6 {
        let now = crate::clock::growth(attempt);
        let next = crate::clock::growth((attempt + 1) as u32);
        vstd::arithmetic::power2::lemma2_to64();
        vstd::arithmetic::power2::lemma_pow2_unfold((attempt + 1) as nat);
        assert(next == 2 * now);
        assert(base_ms * (2 * now) == 2 * (base_ms * now)) by (nonlinear_arith);
    }
    crate::clock::law_backoff_grows(base_ms, 0, attempt);
    assert(grown >= 0);
    if nanos <= grown / 4 {
        vstd::arithmetic::div_mod::lemma_small_mod(nanos as nat, m as nat);
    }
    vstd::arithmetic::div_mod::lemma_mod_add_multiples_vanish(nanos as int, m);
}

/// A span of milliseconds has no other length.
pub proof fn law_span(span: std::time::Duration, millis: int)
    requires
        lasts_millis(span, millis),
        millis >= 0,
    ensures
        span_secs(span) * 1000 + span_nanos(span) / 1_000_000 == millis,
        span_nanos(span) % 1_000_000 == 0,
{
}

/// A reading of the clock gives its whole seconds and its nanoseconds; one before 1970
/// gives 0.
pub proof fn law_clock(span: std::time::Duration, e: std::time::SystemTimeError)
    ensures
        clock_secs(Ok(span)) == span_secs(span),
        clock_nanos(Ok(span)) == span_nanos(span),
        clock_secs(Err(e)) == 0,
        clock_nanos(Err(e)) == 0,
{
}

/// A search that failed is sent again while retries are left, unless the words say that
/// the request is wrong; then never.
pub proof fn law_search_is_repeated(made: u32, max_retries: u32, message: Seq<char>)
    ensures
        made < max_retries && !holds(message, "request body is wrong"@) ==> search_retry(made, max_retries, message)
            == Some(made + 1),
        made >= max_retries || holds(message, "request body is wrong"@) ==> search_retry(made, max_retries, message)
            is None,
{
}

/// A search is objected to exactly outside the statuses 200 to 299, in words of its own
/// for 429 and for the other statuses from 400 to 499.
pub proof fn law_search_objections(status: u16, line: Seq<char>, detail: Seq<char>)
    ensures
        search_objection(status, line, detail) is None <==> 200 <= status <= 299,
        status == 429 ==> search_objection(status, line, detail) == Some("rate limited (429) on search page"@),
        status < 200 || 300 <= status < 400 || 500 <= status ==> search_objection(status, line, detail) == Some(
            "search page http status "@ + line,
        ),
        400 <= status < 500 && status != 429 && detail.len() <= 300 ==> search_objection(status, line, detail) == Some(
            "search page http status "@ + line
                + " -- the request body is wrong, not the network; retrying will not help. Server said: "@ + detail,
        ),
        400 <= status < 500 && status != 429 && detail.len() > 300 ==> search_objection(status, line, detail)
            == search_objection(status, line, detail.take(300)),
{
}

/// The objection to a status from 500 on does not keep the search from being repeated,
/// provided that the words of the status do not say that the request is wrong.
pub proof fn law_server_errors_are_repeated(
    status: u16,
    line: Seq<char>,
    detail: Seq<char>,
    made: u32,
    max_retries: u32,
)
    requires
        status >= 500,
        made < max_retries,
        !holds("search page http status "@ + line, "request body is wrong"@),
    ensures
        search_objection(status, line, detail) is Some,
        search_retry(made, max_retries, search_objection(status, line, detail)->0) == Some(made + 1),
{
}

} // verus!
