//! Supervising the client across lost connections: when to run it again,
//! and with which exit code to end.

use vstd::prelude::*;
use vstd::string::StringExecFns;
use crate::numbers::decimal;
use crate::numbers::push_decimal;

verus! {

/// The exit code by which the client says that the connection was lost.
/// The client may end with it for other reasons too; none is told apart.
pub const CONNECTION_LOST: i32 = 255;

/// How often the client was run again, and how often it may be.
#[derive(Debug, Clone, Copy, PartialEq, Eq, Structural)]
pub struct Supervisor {
    pub attempts_used: u32,
    pub max_retries: u32,
    pub delay_secs: u64,
}

/// What to do after the client has ended.
#[derive(Debug, Clone, Copy, PartialEq, Eq, Structural)]
pub enum Step {
    /// Wait `delay_secs` seconds, then run the client again with the same
    /// arguments. `attempt` counts the retries, this one included.
    Retry { attempt: u32, delay_secs: u64 },
    /// End with this exit code, which is the client's own.
    Exit(i32),
}

/// Whether the client is run again after it ended with `code`.
pub open spec fn retries(s: Supervisor, code: i32) -> bool {
    code == CONNECTION_LOST && s.attempts_used < s.max_retries
}

/// The supervisor after the client has ended with `code`.
pub open spec fn after_exit(s: Supervisor, code: i32) -> Supervisor {
    if retries(s, code) {
        Supervisor { attempts_used: (s.attempts_used + 1) as u32, ..s }
    } else {
        s
    }
}

/// What follows when the client has ended with `code`.
pub open spec fn step_of(s: Supervisor, code: i32) -> Step {
    if retries(s, code) {
        Step::Retry { attempt: (s.attempts_used + 1) as u32, delay_secs: s.delay_secs }
    } else {
        Step::Exit(code)
    }
}

/// How a supervised run ends when the client's runs end with `codes`, one
/// after the other: the exit code reported and the number of retries made.
/// None where the codes run out before the supervisor ends.
pub open spec fn outcome(s: Supervisor, codes: Seq<i32>) -> Option<(i32, nat)>
    decreases codes.len(),
{
    if codes.len() == 0 {
        None
    } else if retries(s, codes[0]) {
        outcome(after_exit(s, codes[0]), codes.drop_first())
    } else {
        Some((codes[0], s.attempts_used as nat))
    }
}

/// `k` times the code for a lost connection.
pub open spec fn lost(k: nat) -> Seq<i32> {
    Seq::new(k, |i: int| CONNECTION_LOST)
}

/// A client that loses the connection `k` times and then ends with
/// `code`, under a supervisor that allows at least `k` retries: the run
/// ends with `code` after exactly `k` retries.
pub proof fn lemma_recovers(s: Supervisor, k: nat, code: i32, rest: Seq<i32>)
    requires
        s.attempts_used + k <= s.max_retries,
        code != CONNECTION_LOST,
    ensures
        outcome(s, lost(k).push(code).add(rest)) == Some((code, (s.attempts_used + k) as nat)),
    decreases k,
{
    let codes = lost(k).push(code).add(rest);
    if k > 0 {
        let next = after_exit(s, CONNECTION_LOST);
        assert(codes.drop_first() =~= lost((k - 1) as nat).push(code).add(rest));
        lemma_recovers(next, (k - 1) as nat, code, rest);
    }
}

/// A client that loses the connection more often than the supervisor
/// allows retries: the run ends with the code for a lost connection once
/// every allowed retry is used, whatever would have come after.
pub proof fn lemma_gives_up(s: Supervisor, k: nat, rest: Seq<i32>)
    requires
        s.attempts_used <= s.max_retries,
        s.attempts_used + k > s.max_retries,
    ensures
        outcome(s, lost(k).add(rest)) == Some((CONNECTION_LOST, s.max_retries as nat)),
    decreases k,
{
    let codes = lost(k).add(rest);
    if s.attempts_used < s.max_retries {
        let next = after_exit(s, CONNECTION_LOST);
        assert(codes.drop_first() =~= lost((k - 1) as nat).add(rest));
        lemma_gives_up(next, (k - 1) as nat, rest);
    }
}

/// Any code but that for a lost connection ends the run at once and is
/// reported unchanged.
pub proof fn lemma_code_preserved(s: Supervisor, code: i32)
    requires
        code != CONNECTION_LOST,
    ensures
        step_of(s, code) == Step::Exit(code),
        after_exit(s, code) == s,
{
}

impl Supervisor {
    /// A supervisor that has made no retry yet.
    pub fn new(max_retries: u32, delay_secs: u64) -> (s: Supervisor)
        ensures
            s == (Supervisor { attempts_used: 0, max_retries, delay_secs }),
    {
        Supervisor { attempts_used: 0, max_retries, delay_secs }
    }

    /// Takes note that the client has ended with `code`, and says what
    /// follows: one more run while the code says that the connection was
    /// lost and retries are left, else the end with that very code.
    pub fn on_exit(&mut self, code: i32) -> (step: Step)
        ensures
            step == step_of(*old(self), code),
            *final(self) == after_exit(*old(self), code),
    {
        if code == CONNECTION_LOST && self.attempts_used < self.max_retries {
            self.attempts_used = self.attempts_used + 1;
            Step::Retry { attempt: self.attempts_used, delay_secs: self.delay_secs }
        } else {
            Step::Exit(code)
        }
    }
}

/// The exit code of a client that ended: its own, or 1 where it was ended
/// from outside and has none.
pub fn exit_code(code: Option<i32>) -> (r: i32)
    ensures
        r == match code {
            Some(c) => c,
            None => 1,
        },
{
    match code {
        Some(c) => c,
        None => 1,
    }
}

/// The notice shown before a retry.
pub open spec fn notice_of(attempt: nat, max_retries: nat) -> Seq<char> {
    "Connection lost. Reconnecting ("@.add(decimal(attempt)).add("/"@).add(decimal(max_retries)).add(
        ")\u{2026}"@,
    )
}

/// The notice shown before a retry.
pub fn reconnect_notice(attempt: u32, max_retries: u32) -> (r: String)
    ensures
        r@ == notice_of(attempt as nat, max_retries as nat),
{
    let mut r = "Connection lost. Reconnecting (".to_owned();
    push_decimal(&mut r, attempt as u64);
    r.append("/");
    push_decimal(&mut r, max_retries as u64);
    r.append(")\u{2026}");
    r
}

} // verus!
