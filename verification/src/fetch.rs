//! Fetching the payloads of listings.

use vstd::prelude::*;
use vstd::string::StringExecFns;
use crate::codec::{alike, fits, json_text, parsed, reads_as};
use crate::feed::{is_success, success};
use crate::json::{trees, Json, JsonView};
use crate::records::{failure_entry, failure_record, raw_entry, raw_line, speaks_of};
use crate::text::{decimal, decimal_text, has_prefix, parse_unsigned, unsigned};
use crate::throttle::{after_success, penalized, slowed, Throttle};

verus! {

/// With these words the failure of a listing starts that is gone for good.
pub open spec fn dead_prefix() -> Seq<char> {
    "post removed"@
}

/// What came of a request for a listing.
pub enum Reply {
    /// No answer at all.
    Unsent { message: String },
    /// An answer, of which the body is not read yet. `line` is the status with its
    /// words.
    Status { code: u16, line: String, retry_after: Option<String> },
    /// A body that is no JSON.
    Garbled { message: String },
    /// The payload.
    Payload(Json),
}

/// What a reply means.
pub enum Meaning {
    /// The body is to be read.
    Readable,
    Payload(JsonView),
    /// The listing is gone; another try will never help.
    Dead(Seq<char>),
    Transient(Seq<char>),
}

/// A status that says the listing is gone.
pub open spec fn gone(code: u16) -> bool {
    code == 404 || code == 410
}

/// What a reply means.
pub open spec fn meaning(reply: Reply) -> Meaning {
    match reply {
        Reply::Unsent { message } => Meaning::Transient(message@),
        Reply::Status { code, line, .. } => if code == 429 {
            Meaning::Transient("rate limited (429)"@)
        } else if gone(code) {
            Meaning::Dead(dead_prefix() + " (http "@ + line@ + ")"@)
        } else if !success(code) {
            Meaning::Transient("http status "@ + line@)
        } else {
            Meaning::Readable
        },
        Reply::Garbled { message } => Meaning::Transient("detail response not JSON: "@ + message@),
        Reply::Payload(detail) => Meaning::Payload(detail@),
    }
}

/// The seconds for which the server asks to be left alone when it limits the rate.
pub open spec fn asked_pause(reply: Reply) -> Option<u64> {
    match reply {
        Reply::Status { code, retry_after: Some(header), .. } => if code == 429 {
            unsigned(header@)
        } else {
            None
        },
        _ => None,
    }
}

/// What follows a reply.
pub enum Step {
    /// Read the body.
    Read,
    /// The listing is fetched.
    Done(Json),
    /// The listing could not be fetched. A pause that the server asked for comes first.
    Failed { message: String, pause: Option<u64> },
    /// Another try, number `attempt`, after the pause that the server asked for.
    Again { message: String, pause: Option<u64>, attempt: u32 },
}

/// The words for a listing that was tried too often.
pub open spec fn gave_up(message: Seq<char>, attempts: nat) -> Seq<char> {
    message + " (gave up after "@ + decimal(attempts) + " attempts)"@
}

/// What follows a reply when `made` tries have failed before.
pub open spec fn follows(step: Step, reply: Reply, made: u32, max_retries: u32) -> bool {
    match meaning(reply) {
        Meaning::Readable => step is Read,
        Meaning::Payload(detail) => step matches Step::Done(d) && d@ == detail,
        Meaning::Dead(words) => step matches Step::Failed { message, pause } && message@ == words && pause is None,
        Meaning::Transient(words) => if made + 1 > max_retries {
            step matches Step::Failed { message, pause } && message@ == gave_up(words, (made + 1) as nat) && pause
                == asked_pause(reply)
        } else {
            step matches Step::Again { message, pause, attempt } && message@ == words && pause == asked_pause(reply)
                && attempt == made + 1
        },
    }
}

/// How many tries have failed after a reply: one more where the failure is transient.
pub open spec fn tries_after(reply: Reply, made: u32) -> int {
    if meaning(reply) is Transient {
        made + 1
    } else {
        made as int
    }
}

/// The server asks for fewer requests.
pub open spec fn rate_limited(reply: Reply) -> bool {
    reply matches Reply::Status { code, .. } && code == 429
}

/// What a reply does to the pace: a rate limit slows it, a payload counts as success.
pub open spec fn paced(before: Throttle, after: Throttle, reply: Reply) -> bool {
    if rate_limited(reply) {
        &&& after.delay_ms == penalized(before.delay_ms, before.max_ms)
        &&& after.max_ms == before.max_ms
        &&& after.ok_streak == 0
    } else if reply is Payload {
        &&& after.max_ms == before.max_ms
        &&& (after.delay_ms as int, after.ok_streak as int) == after_success(
            before.delay_ms as int,
            before.ok_streak as int,
        )
    } else {
        after == before
    }
}

/// The tries at one listing.
#[derive(Debug, PartialEq)]
pub struct Fetch {
    pub made: u32,
    pub max_retries: u32,
}

impl Fetch {
    pub fn new(max_retries: u32) -> (r: Self)
        ensures
            r == (Fetch { made: 0, max_retries }),
    {
        Fetch { made: 0, max_retries }
    }

    /// Decides what follows a reply, and adapts the pace to it.
    pub fn next(&mut self, reply: Reply, throttle: &mut Throttle) -> (r: Step)
        requires
            old(self).made < u32::MAX,
            rate_limited(reply) ==> old(throttle).delay_ms * 3 <= u64::MAX,
            reply is Payload ==> old(throttle).ok_streak + 1 < 50 || (old(throttle).ok_streak < u64::MAX && old(
                throttle,
            ).delay_ms * 9 <= u64::MAX),
        ensures
            follows(r, reply, old(self).made, old(self).max_retries),
            final(self).made == tries_after(reply, old(self).made),
            final(self).max_retries == old(self).max_retries,
            paced(*old(throttle), *final(throttle), reply),
            old(throttle).in_range() ==> final(throttle).in_range(),
    {
        match reply {
            Reply::Unsent { message } => self.failed(message, None),
            Reply::Status { code, line, retry_after } => if code == 429 {
                throttle.penalize();
                let pause: Option<u64> = match retry_after {
                    Some(header) => parse_unsigned(header.as_str()),
                    None => None,
                };
                self.failed("rate limited (429)".to_owned(), pause)
            } else if code == 404 || code == 410 {
                Step::Failed {
                    message: "post removed".to_owned().concat(" (http ").concat(line.as_str()).concat(")"),
                    pause: None,
                }
            } else if !is_success(code) {
                self.failed("http status ".to_owned().concat(line.as_str()), None)
            } else {
                Step::Read
            },
            Reply::Garbled { message } => self.failed(
                "detail response not JSON: ".to_owned().concat(message.as_str()),
                None,
            ),
            Reply::Payload(detail) => {
                throttle.relax();
                Step::Done(detail)
            },
        }
    }

    fn failed(&mut self, message: String, pause: Option<u64>) -> (r: Step)
        requires
            old(self).made < u32::MAX,
        ensures
            final(self).made == old(self).made + 1,
            final(self).max_retries == old(self).max_retries,
            if old(self).made + 1 > old(self).max_retries {
                r matches Step::Failed { message: m, pause: p } && m@ == gave_up(message@, (old(self).made + 1) as nat)
                    && p == pause
            } else {
                r matches Step::Again { message: m, pause: p, attempt } && m@ == message@ && p == pause && attempt
                    == old(self).made + 1
            },
    {
        self.made = self.made + 1;
        if self.made > self.max_retries {
            let words = message.concat(" (gave up after ").concat(decimal_text(self.made as u64).as_str()).concat(
                " attempts)",
            );
            Step::Failed { message: words, pause }
        } else {
            Step::Again { message, pause, attempt: self.made }
        }
    }
}

/// A failure starts with the words for a removed listing exactly where the answer was
/// that the listing is gone. (A failed connection that is described with those very
/// words is left out.)
pub proof fn law_removed_means_gone(step: Step, reply: Reply, made: u32, max_retries: u32)
    requires
        follows(step, reply, made, max_retries),
        step is Failed,
        reply matches Reply::Unsent { message } ==> !has_prefix(message@, dead_prefix()),
    ensures
        has_prefix(step->Failed_message@, dead_prefix()) <==> (reply matches Reply::Status { code, .. } && gone(code)),
{
    let words = step->Failed_message@;
    let prefix = dead_prefix();
    reveal_strlit("post removed");
    reveal_strlit("rate limited (429)");
    reveal_strlit("http status ");
    reveal_strlit("detail response not JSON: ");
    reveal_strlit(" (gave up after ");
    match meaning(reply) {
        Meaning::Dead(told) => {
            assert(told.take(prefix.len() as int) =~= prefix);
        },
        Meaning::Transient(told) => {
            if has_prefix(words, prefix) {
                assert(words.take(prefix.len() as int)[0] == prefix[0]);
                assert(words[0] == 'p');
                if told.len() >= prefix.len() {
                    assert(told.take(prefix.len() as int) =~= words.take(prefix.len() as int));
                    assert(told[0] == 'p');
                } else {
                    let n = told.len() as int;
                    assert(words[n] == ' ' && words[n + 1] == '(');
                    assert(words.take(prefix.len() as int)[n] == prefix[n]);
                    assert(n == 4);
                    assert(words.take(prefix.len() as int)[5] == prefix[5]);
                }
            }
        },
        _ => {},
    }
}

/// Before another try after a rate limit, the run rests for as many seconds as the
/// server asked for, if it named a number.
pub proof fn law_asked_pause_is_kept(step: Step, reply: Reply, made: u32, max_retries: u32)
    requires
        follows(step, reply, made, max_retries),
        rate_limited(reply),
    ensures
        step matches Step::Again { pause, .. } ==> pause == asked_pause(reply),
        step matches Step::Failed { pause, .. } ==> pause == asked_pause(reply),
        step is Again || step is Failed,
{
}

/// A listing that is gone is not tried again, whatever the number of retries; a
/// transient failure is tried again until they are used up.
pub proof fn law_dead_listings_are_not_retried(step: Step, reply: Reply, made: u32, max_retries: u32)
    requires
        follows(step, reply, made, max_retries),
    ensures
        (reply matches Reply::Status { code, .. } && gone(code)) ==> step is Failed,
        meaning(reply) is Transient && made < max_retries ==> step is Again,
        meaning(reply) is Transient && made >= max_retries ==> step is Failed,
{
}

/// The line is that of a fetched listing, and is read as such.
pub open spec fn stores(line: Seq<char>, token: Seq<char>, at: u64, detail: JsonView) -> bool {
    let entry = raw_entry(token, at, detail);
    &&& line == json_text(entry)
    &&& speaks_of(line, token)
    &&& fits(detail, 126) ==> reads_as(line, entry)
    &&& parsed(line) matches Ok(w) ==> alike(entry, w)
}

/// A run over a list of listings: what came of those that were tried.
pub struct Run {
    pub total: usize,
    pub done: usize,
    pub failed: usize,
    pub still_failing: Vec<Json>,
}

impl Run {
    pub fn new(total: usize) -> (r: Self)
        ensures
            r.total == total,
            r.done == 0,
            r.failed == 0,
            trees(r.still_failing@) == Seq::<JsonView>::empty(),
    {
        let r = Run { total, done: 0, failed: 0, still_failing: Vec::new() };
        assert(trees(r.still_failing@) =~= Seq::<JsonView>::empty());
        r
    }

    /// Takes what came of a listing. A payload becomes a line for the raw store; a
    /// failure is kept for the queue, and its words are handed back.
    pub fn take(&mut self, token: &str, outcome: Result<Json, String>, now: u64) -> (r: Result<String, String>)
        requires
            old(self).done + old(self).failed < usize::MAX,
        ensures
            final(self).total == old(self).total,
            match outcome {
                Ok(detail) => {
                    &&& final(self).done == old(self).done + 1
                    &&& final(self).failed == old(self).failed
                    &&& trees(final(self).still_failing@) == trees(old(self).still_failing@)
                    &&& r matches Ok(line) && stores(line@, token@, now, detail@)
                },
                Err(message) => {
                    &&& final(self).done == old(self).done
                    &&& final(self).failed == old(self).failed + 1
                    &&& trees(final(self).still_failing@) == trees(old(self).still_failing@).push(
                        failure_entry(token@, message@, now),
                    )
                    &&& r matches Err(words) && words@ == message@
                },
            },
    {
        match outcome {
            Ok(detail) => {
                self.done = self.done + 1;
                Ok(raw_line(token, now, detail))
            },
            Err(message) => {
                let ghost before = trees(self.still_failing@);
                self.failed = self.failed + 1;
                self.still_failing.push(failure_record(token, message.as_str(), now));
                assert(trees(self.still_failing@) =~= before.push(failure_entry(token@, message@, now)));
                Err(message)
            },
        }
    }

    /// Whether it is time to say how far the run is: after every 25 listings and after
    /// the last.
    pub fn progress_due(&self) -> (r: bool)
        requires
            self.done + self.failed <= usize::MAX,
        ensures
            r == ((self.done + self.failed) % 25 == 0 || self.done + self.failed == self.total),
            self.done + self.failed == self.total ==> r,
            forall|k: int| #[trigger] (25 * k) == self.done + self.failed ==> r,
    {
        let n = self.done + self.failed;
        n % 25 == 0 || n == self.total
    }
}

/// The sweeps over the failure queue that follow a run.
#[derive(Debug, PartialEq)]
pub struct Sweeps {
    pub pass: u32,
    pub passes: u32,
    pub done: usize,
    pub failed: usize,
}

impl Sweeps {
    /// The sweeps after a run that fetched `done` listings and failed at `failed`.
    pub fn new(passes: u32, done: usize, failed: usize) -> (r: Self)
        ensures
            r == (Sweeps { pass: 0, passes, done, failed }),
    {
        Sweeps { pass: 0, passes, done, failed }
    }

    /// The number of the next sweep, as long as listings are outstanding and sweeps are
    /// left. The pace is slowed down for it.
    pub fn next(&mut self, outstanding: usize, throttle: &mut Throttle) -> (r: Option<u32>)
        ensures
            r == if outstanding > 0 && old(self).pass < old(self).passes {
                Some((old(self).pass + 1) as u32)
            } else {
                None
            },
            r is Some <==> outstanding > 0 && old(self).pass < old(self).passes,
            match r {
                Some(pass) => {
                    &&& pass == old(self).pass + 1
                    &&& *final(self) == (Sweeps { pass, ..*old(self) })
                    &&& final(throttle).delay_ms == slowed(old(throttle).delay_ms, old(throttle).max_ms, pass)
                    &&& final(throttle).max_ms == old(throttle).max_ms
                    &&& final(throttle).ok_streak == 0
                },
                None => *final(self) == *old(self) && *final(throttle) == *old(throttle),
            },
            old(throttle).in_range() ==> final(throttle).in_range(),
    {
        if outstanding == 0 || self.pass >= self.passes {
            return None;
        }
        self.pass = self.pass + 1;
        throttle.slow_start(self.pass);
        Some(self.pass)
    }

    /// Takes what came of a sweep: what it fetched adds up, what it failed at is all
    /// that is left.
    pub fn take(&mut self, fetched: usize, failing: usize)
        requires
            old(self).done + fetched <= usize::MAX,
        ensures
            *final(self) == (Sweeps { done: (old(self).done + fetched) as usize, failed: failing, ..*old(self) }),
    {
        self.done = self.done + fetched;
        self.failed = failing;
    }
}

} // verus!
