//! Decisions of the browser step engine.

use vstd::prelude::*;
use crate::browser::error::BrowserError;
use crate::text::{ascii_lower, ascii_lowercase, decimal, decimal_string, is_ascii_text, str_to_lowercase, to_lowercase};

verus! {

/// The first position at or after `i` where `:` occurs in `s`.
pub open spec fn colon_from(s: Seq<char>, i: int) -> Option<int>
    decreases s.len() - i,
{
    if i < 0 || i >= s.len() {
        None
    } else if s[i] == ':' {
        Some(i)
    } else {
        colon_from(s, i + 1)
    }
}

/// The scheme part of a URL: the text before its first `:`, or the whole
/// text when it has none.
pub open spec fn scheme_part(url: Seq<char>) -> Seq<char> {
    match colon_from(url, 0) {
        Some(i) => url.take(i),
        None => url,
    }
}

/// The schemes the browser may visit.
pub open spec fn is_allowed_scheme(scheme: Seq<char>) -> bool {
    scheme == "http"@ || scheme == "https"@
}

/// Returns the text of `url` before its first `:` (all of it if there is none).
pub fn url_scheme(url: &str) -> (r: &str)
    ensures
        r@ == scheme_part(url@),
{
    let n = url.unicode_len();
    let mut i: usize = 0;
    while i < n
        invariant
            n == url@.len(),
            i <= n,
            colon_from(url@, 0) == colon_from(url@, i as int),
        decreases n - i,
    {
        if url.get_char(i) == ':' {
            return url.substring_char(0, i);
        }
        i = i + 1;
    }
    assert(url@.subrange(0, n as int) =~= url@);
    url.substring_char(0, n)
}

/// Accepts a lowercased scheme if it is `http` or `https`, and otherwise
/// refuses it with an error naming it.
pub fn scheme_verdict(scheme: String) -> (r: Result<(), BrowserError>)
    ensures
        is_allowed_scheme(scheme@) ==> r is Ok,
        !is_allowed_scheme(scheme@) ==> (r matches Err(BrowserError::DisallowedScheme { scheme: s })
            && s@ == scheme@),
{
    let http = String::from_str("http");
    let https = String::from_str("https");
    proof {
        reveal_strlit("http");
        reveal_strlit("https");
    }
    if scheme == http || scheme == https {
        Ok(())
    } else {
        Err(BrowserError::DisallowedScheme { scheme })
    }
}

/// Validates that the given URL has an allowed scheme (`http` or `https`
/// only), compared after lowercasing. `file://`, `javascript:`, `data:`,
/// `blob:` and every other scheme are refused.
pub fn validate_url_scheme(url: &str) -> (r: Result<(), BrowserError>)
    ensures
        ({
            let lowered = str_to_lowercase(scheme_part(url@));
            &&& is_allowed_scheme(lowered) ==> r is Ok
            &&& !is_allowed_scheme(lowered) ==> (r matches Err(
                BrowserError::DisallowedScheme { scheme: s },
            ) && s@ == lowered)
            &&& is_ascii_text(scheme_part(url@)) ==> lowered == ascii_lowercase(scheme_part(url@))
        }),
{
    let lowered = to_lowercase(url_scheme(url));
    scheme_verdict(lowered)
}


/// Two texts that differ at most in the case of ASCII letters.
pub open spec fn same_up_to_ascii_case(a: Seq<char>, b: Seq<char>) -> bool {
    a.len() == b.len() && forall|i: int| 0 <= i < a.len() ==> ascii_lower(#[trigger] a[i]) == ascii_lower(b[i])
}

/// Changing the case of ASCII letters in a scheme made of ASCII characters
/// keeps `validate_url_scheme`'s answer: both schemes consist of ASCII
/// characters, and both have one and the same lowercase text.
pub proof fn lemma_scheme_check_ignores_ascii_case(u1: Seq<char>, u2: Seq<char>)
    requires
        is_ascii_text(scheme_part(u1)),
        same_up_to_ascii_case(scheme_part(u1), scheme_part(u2)),
    ensures
        is_ascii_text(scheme_part(u2)),
        ascii_lowercase(scheme_part(u1)) == ascii_lowercase(scheme_part(u2)),
{
    let a = scheme_part(u1);
    let b = scheme_part(u2);
    assert forall|i: int| 0 <= i < b.len() implies (#[trigger] b[i] as int) < 0x80 by {
        assert((a[i] as int) < 0x80);
        assert(ascii_lower(a[i]) == ascii_lower(b[i]));
    }
    assert(ascii_lowercase(a) =~= ascii_lowercase(b));
}

// ── History navigation ───────────────────────────────────────────────────────

/// The history entry that "back" moves to: the one before the current
/// entry, if the current index is positive and that entry exists.
pub open spec fn back_target(current_index: i64, n_entries: int) -> Option<int> {
    if current_index <= 0 {
        None
    } else if ((current_index - 1) as usize) < n_entries {
        Some(((current_index - 1) as usize) as int)
    } else {
        None
    }
}

/// The history entry that "forward" moves to: the one after the current
/// entry, if it exists.
pub open spec fn forward_target(current_index: i64, n_entries: int) -> Option<int> {
    if (current_index as usize) + 1 < n_entries {
        Some((current_index as usize) + 1)
    } else {
        None
    }
}

/// Going back from entry `i` (with `0 < i <= n`) goes to entry `i - 1`,
/// the one just before the current one; from entry 0 or before, there is
/// nowhere to go back to.
pub proof fn lemma_back_goes_to_the_previous_entry(current_index: i64, n_entries: int)
    requires
        n_entries <= usize::MAX,
    ensures
        0 < current_index <= n_entries ==> back_target(current_index, n_entries) == Some(current_index - 1),
        current_index <= 0 ==> back_target(current_index, n_entries) is None,
{
}

/// Going forward from entry `i` (with `i >= 0`) goes to entry `i + 1` when
/// it exists, and nowhere otherwise (for any index that fits in `usize`).
pub proof fn lemma_forward_goes_to_the_next_entry(current_index: i64, n_entries: int)
    requires
        0 <= current_index,
        n_entries <= usize::MAX,
    ensures
        current_index + 1 < n_entries ==> forward_target(current_index, n_entries) == Some(current_index + 1),
        current_index + 1 >= n_entries && current_index <= usize::MAX ==> forward_target(current_index, n_entries) is None,
{
}

/// Going back and then forward returns to where it started.
pub proof fn lemma_back_then_forward_returns(current_index: i64, n_entries: int)
    requires
        0 < current_index < n_entries,
        n_entries <= usize::MAX,
    ensures
        back_target(current_index, n_entries) == Some(current_index - 1),
        forward_target((current_index - 1) as i64, n_entries) == Some(current_index as int),
{
}

/// The id of the history entry to go back to, or `None` when there is no
/// earlier entry (going back is then a no-op).
pub fn back_entry(current_index: i64, entry_ids: &Vec<i64>) -> (r: Option<i64>)
    ensures
        match back_target(current_index, entry_ids@.len() as int) {
            Some(t) => r == Some(entry_ids@[t]),
            None => r is None,
        },
{
    if current_index <= 0 {
        return None;
    }
    let target = (current_index - 1) as usize;
    if target >= entry_ids.len() {
        return None;
    }
    Some(entry_ids[target])
}

/// The id of the history entry to go forward to, or `None` when there is no
/// later entry (going forward is then a no-op).
///
/// The current index is read as an unsigned position; the one index whose
/// successor does not fit in `usize` is left out.
pub fn forward_entry(current_index: i64, entry_ids: &Vec<i64>) -> (r: Option<i64>)
    requires
        (current_index as usize) < usize::MAX,
    ensures
        match forward_target(current_index, entry_ids@.len() as int) {
            Some(t) => r == Some(entry_ids@[t]),
            None => r is None,
        },
{
    let current = current_index as usize;
    let next = current + 1;
    if next >= entry_ids.len() {
        return None;
    }
    Some(entry_ids[next])
}

// ── Screenshots ──────────────────────────────────────────────────────────────

/// The character of the standard Base64 alphabet (RFC 4648) for a 6-bit value.
pub open spec fn base64_digit(v: int) -> char {
    if v < 26 {
        (0x41 + v) as char
    } else if v < 52 {
        (0x61 + v - 26) as char
    } else if v < 62 {
        (0x30 + v - 52) as char
    } else if v == 62 {
        '+'
    } else {
        '/'
    }
}

/// The Base64 text (RFC 4648, standard alphabet, with `=` padding) that the
/// `base64` crate's `STANDARD` engine writes: each group of three bytes
/// gives four characters of six bits each, and a last group of one or two
/// bytes gives two or three characters padded with `=` to four.
pub open spec fn base64_standard(bytes: Seq<u8>) -> Seq<char>
    decreases bytes.len(),
{
    if bytes.len() == 0 {
        seq![]
    } else {
        let b0 = bytes[0] as int;
        let b1 = if bytes.len() > 1 { bytes[1] as int } else { 0 };
        let b2 = if bytes.len() > 2 { bytes[2] as int } else { 0 };
        let c0 = base64_digit(b0 / 4);
        let c1 = base64_digit((b0 % 4) * 16 + b1 / 16);
        let c2 = if bytes.len() > 1 { base64_digit((b1 % 16) * 4 + b2 / 64) } else { '=' };
        let c3 = if bytes.len() > 2 { base64_digit(b2 % 64) } else { '=' };
        if bytes.len() <= 3 {
            seq![c0, c1, c2, c3]
        } else {
            seq![c0, c1, c2, c3] + base64_standard(bytes.skip(3))
        }
    }
}

/// Four characters for every started group of three bytes.
pub proof fn lemma_base64_len(bytes: Seq<u8>)
    ensures
        base64_standard(bytes).len() == base64_padded_len(bytes.len()),
    decreases bytes.len(),
{
    if bytes.len() > 3 {
        lemma_base64_len(bytes.skip(3));
    }
}

/// The length of the padded Base64 text for `n` bytes.
pub open spec fn base64_padded_len(n: nat) -> nat {
    4 * ((n + 2) / 3)
}

/// Calls `base64::Engine::encode` with the `STANDARD` engine, which writes
/// the padded standard Base64 text spelled out in `base64_standard`.
/// `encode` panics when that text's length does not fit in `usize`, so such
/// inputs are left out.
#[verifier::external_body]
fn encode_base64_standard(bytes: &[u8]) -> (r: String)
    requires
        base64_padded_len(bytes@.len()) <= usize::MAX,
    ensures
        r@ == base64_standard(bytes@),
{
    base64::Engine::encode(&base64::engine::general_purpose::STANDARD, bytes)
}

/// What a screenshot step reports: where the image was saved, and the
/// image itself in Base64.
#[derive(Debug)]
pub struct ScreenshotPayload {
    pub path: String,
    pub data: String,
}

/// Builds the report of a screenshot step from the saved file's path and bytes.
pub fn screenshot_payload(path: String, image: &[u8]) -> (r: ScreenshotPayload)
    requires
        base64_padded_len(image@.len()) <= usize::MAX,
    ensures
        r.path@ == path@,
        r.data@ == base64_standard(image@),
        r.data@.len() == base64_padded_len(image@.len()),
{
    let data = encode_base64_standard(image);
    proof {
        lemma_base64_len(image@);
    }
    ScreenshotPayload { path, data }
}

/// The decimal notation of a signed number, with `-` before negative ones.
pub open spec fn signed_decimal(n: i64) -> Seq<char> {
    if n < 0 {
        "-"@ + decimal((-n) as nat)
    } else {
        decimal(n as nat)
    }
}

fn signed_decimal_string(n: i64) -> (r: String)
    ensures
        r@ == signed_decimal(n),
{
    if n < 0 {
        let magnitude: u64 = if n == i64::MIN {
            9223372036854775808u64
        } else {
            (-n) as u64
        };
        String::from_str("-").concat(decimal_string(magnitude).as_str())
    } else {
        decimal_string(n as u64)
    }
}

/// The file name of a screenshot taken without an explicit path, from the
/// time in milliseconds since the Unix epoch.
pub fn screenshot_file_name(millis: i64) -> (r: String)
    ensures
        r@ == "earl-screenshot-"@ + signed_decimal(millis) + ".png"@,
{
    String::from_str("earl-screenshot-").concat(signed_decimal_string(millis).as_str()).concat(
        ".png",
    )
}

/// The file name of the diagnostic screenshot taken when a step fails.
pub fn failure_screenshot_file_name(millis: i64) -> (r: String)
    ensures
        r@ == "earl-browser-failure-"@ + signed_decimal(millis) + ".png"@,
{
    String::from_str("earl-browser-failure-").concat(signed_decimal_string(millis).as_str()).concat(
        ".png",
    )
}

// ── The step loop ────────────────────────────────────────────────────────────

/// How one step ended.
#[derive(Debug, Clone, Copy, PartialEq, Eq, Structural)]
pub enum StepOutcome {
    /// The step finished and gave a result.
    Succeeded,
    /// The step returned an error.
    Failed,
    /// The step ran past its time limit.
    TimedOut,
}

/// What the engine does after a step.
#[derive(Debug)]
pub enum StepDecision {
    /// Keep the step's result as the latest one and go on.
    Record,
    /// The step was optional: warn and go on without its result.
    Skip { timed_out: bool },
    /// Stop the run: take a diagnostic screenshot first when `screenshot` is
    /// set, then fail with the step's own error, or with `timeout` when the
    /// step timed out.
    Abort { screenshot: bool, timeout: Option<BrowserError> },
}

/// The progress of a run of steps.
#[derive(Debug, Clone, Copy, PartialEq, Eq, Structural)]
pub struct StepRun {
    /// The position of the step to run next (or of the step that stopped the run).
    pub next_step: usize,
    /// The position of the step whose result is the latest kept one.
    pub last_result: Option<usize>,
    /// Whether a failing run takes a diagnostic screenshot.
    pub on_failure_screenshot: bool,
    /// Whether a required step failed and stopped the run.
    pub aborted: bool,
}

/// The run after the current step ended with `outcome`.
pub open spec fn run_after(run: StepRun, optional: bool, outcome: StepOutcome) -> StepRun {
    match outcome {
        StepOutcome::Succeeded => StepRun {
            next_step: (run.next_step + 1) as usize,
            last_result: Some(run.next_step),
            ..run
        },
        _ => if optional {
            StepRun { next_step: (run.next_step + 1) as usize, ..run }
        } else {
            StepRun { aborted: true, ..run }
        },
    }
}

/// The run after each of `steps` (optional flag and outcome) in turn, until
/// one stops it.
pub open spec fn run_steps(run: StepRun, steps: Seq<(bool, StepOutcome)>) -> StepRun
    decreases steps.len(),
{
    if steps.len() == 0 || run.aborted {
        run
    } else {
        run_steps(run_after(run, steps[0].0, steps[0].1), steps.drop_first())
    }
}

/// A fresh run.
pub open spec fn fresh_run(on_failure_screenshot: bool) -> StepRun {
    StepRun { next_step: 0, last_result: None, on_failure_screenshot, aborted: false }
}

/// The last position before `k` whose step succeeded.
pub open spec fn last_success_before(steps: Seq<(bool, StepOutcome)>, k: int) -> Option<usize>
    decreases k,
{
    if k <= 0 {
        None
    } else if steps[k - 1].1 is Succeeded {
        Some((k - 1) as usize)
    } else {
        last_success_before(steps, k - 1)
    }
}

/// A step that failed or timed out without being optional.
pub open spec fn is_required_failure(step: (bool, StepOutcome)) -> bool {
    !step.0 && !(step.1 is Succeeded)
}

impl StepRun {
    /// Starts a run.
    pub fn new(on_failure_screenshot: bool) -> (r: StepRun)
        ensures
            r == fresh_run(on_failure_screenshot),
    {
        StepRun { next_step: 0, last_result: None, on_failure_screenshot, aborted: false }
    }

    /// Takes in how the current step ended and says what to do.
    ///
    /// A success is recorded. A failure or timeout of an optional step is
    /// skipped. Otherwise the run stops: with a diagnostic screenshot when the
    /// run asks for one, and, for a timeout, with an error naming the step,
    /// its action and its time limit.
    pub fn advance(&mut self, optional: bool, action_name: &str, timeout_ms: u64, outcome: StepOutcome) -> (r:
        StepDecision)
        requires
            !old(self).aborted,
            old(self).next_step < usize::MAX,
        ensures
            *final(self) == run_after(*old(self), optional, outcome),
            outcome is Succeeded ==> r is Record,
            !(outcome is Succeeded) && optional ==> (r matches StepDecision::Skip { timed_out }
                && timed_out == (outcome is TimedOut)),
            outcome is Failed && !optional ==> (r matches StepDecision::Abort { screenshot, timeout }
                && screenshot == old(self).on_failure_screenshot && timeout is None),
            outcome is TimedOut && !optional ==> (r matches StepDecision::Abort { screenshot, timeout }
                && screenshot == old(self).on_failure_screenshot && (timeout matches Some(
                BrowserError::Timeout { step, action, timeout_ms: t },
            ) && step == old(self).next_step && action@ == action_name@ && t == timeout_ms)),
    {
        match outcome {
            StepOutcome::Succeeded => {
                self.last_result = Some(self.next_step);
                self.next_step = self.next_step + 1;
                StepDecision::Record
            },
            StepOutcome::Failed => {
                if optional {
                    self.next_step = self.next_step + 1;
                    StepDecision::Skip { timed_out: false }
                } else {
                    self.aborted = true;
                    StepDecision::Abort { screenshot: self.on_failure_screenshot, timeout: None }
                }
            },
            StepOutcome::TimedOut => {
                if optional {
                    self.next_step = self.next_step + 1;
                    StepDecision::Skip { timed_out: true }
                } else {
                    self.aborted = true;
                    let error = BrowserError::Timeout {
                        step: self.next_step,
                        action: String::from_str(action_name),
                        timeout_ms,
                    };
                    StepDecision::Abort { screenshot: self.on_failure_screenshot, timeout: Some(error) }
                }
            },
        }
    }
}

/// The run from step `start` goes through every remaining step when none of
/// them is a required failure, and keeps the result of the last success.
proof fn lemma_run_from_without_required_failure(steps: Seq<(bool, StepOutcome)>, start: int, run: StepRun)
    requires
        0 <= start <= steps.len(),
        steps.len() <= usize::MAX,
        run.next_step == start,
        !run.aborted,
        run.last_result == last_success_before(steps, start),
        forall|i: int| 0 <= i < steps.len() ==> !is_required_failure(#[trigger] steps[i]),
    ensures
        run_steps(run, steps.skip(start)) == (StepRun {
            next_step: steps.len() as usize,
            last_result: last_success_before(steps, steps.len() as int),
            ..run
        }),
    decreases steps.len() - start,
{
    if start == steps.len() {
        assert(steps.skip(start).len() == 0);
    } else {
        let next = run_after(run, steps[start].0, steps[start].1);
        assert(steps.skip(start).drop_first() =~= steps.skip(start + 1));
        assert(!is_required_failure(steps[start]));
        lemma_run_from_without_required_failure(steps, start + 1, next);
    }
}

/// A run in which every failing or timed-out step is optional goes through
/// all steps, and its result is that of the last step that succeeded (none
/// when no step succeeded).
pub proof fn lemma_optional_failures_never_stop_a_run(on_failure_screenshot: bool, steps: Seq<(bool, StepOutcome)>)
    requires
        steps.len() <= usize::MAX,
        forall|i: int| 0 <= i < steps.len() ==> !is_required_failure(#[trigger] steps[i]),
    ensures
        run_steps(fresh_run(on_failure_screenshot), steps) == (StepRun {
            next_step: steps.len() as usize,
            last_result: last_success_before(steps, steps.len() as int),
            on_failure_screenshot,
            aborted: false,
        }),
{
    assert(steps.skip(0) =~= steps);
    lemma_run_from_without_required_failure(steps, 0, fresh_run(on_failure_screenshot));
}

/// From step `start` up to the first required failure at `k`, the run
/// goes on, and stops at `k`.
proof fn lemma_run_from_stops(steps: Seq<(bool, StepOutcome)>, k: int, start: int, run: StepRun)
    requires
        0 <= start <= k < steps.len(),
        steps.len() <= usize::MAX,
        run.next_step == start,
        !run.aborted,
        run.last_result == last_success_before(steps, start),
        is_required_failure(steps[k]),
        forall|i: int| 0 <= i < k ==> !is_required_failure(#[trigger] steps[i]),
    ensures
        run_steps(run, steps.skip(start)) == (StepRun {
            next_step: k as usize,
            last_result: last_success_before(steps, k),
            aborted: true,
            ..run
        }),
    decreases k - start,
{
    let next = run_after(run, steps[start].0, steps[start].1);
    assert(steps.skip(start)[0] == steps[start]);
    if start == k {
        assert(run_steps(next, steps.skip(start).drop_first()) == next);
    } else {
        assert(steps.skip(start).drop_first() =~= steps.skip(start + 1));
        assert(!is_required_failure(steps[start]));
        lemma_run_from_stops(steps, k, start + 1, next);
    }
}

/// A run stops at the first step that fails or times out without being
/// optional; the result kept so far is that of the last success before it.
pub proof fn lemma_first_required_failure_stops_a_run(on_failure_screenshot: bool, steps: Seq<(bool, StepOutcome)>, k: int)
    requires
        0 <= k < steps.len(),
        steps.len() <= usize::MAX,
        is_required_failure(steps[k]),
        forall|i: int| 0 <= i < k ==> !is_required_failure(#[trigger] steps[i]),
    ensures
        run_steps(fresh_run(on_failure_screenshot), steps) == (StepRun {
            next_step: k as usize,
            last_result: last_success_before(steps, k),
            on_failure_screenshot,
            aborted: true,
        }),
{
    assert(steps.skip(0) =~= steps);
    lemma_run_from_stops(steps, k, 0, fresh_run(on_failure_screenshot));
}

} // verus!
