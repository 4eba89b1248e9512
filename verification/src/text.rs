//! Decimal renderings of numbers and the messages built from them.
use vstd::prelude::*;

verus! {

/// The ASCII digit for `d < 10`.
pub open spec fn digit_char(d: nat) -> char {
    (48 + d) as char
}

/// The decimal digits of `n`, most significant first, with no leading zeros.
pub open spec fn decimal_text(n: nat) -> Seq<char>
    decreases n,
{
    if n < 10 {
        seq![digit_char(n)]
    } else {
        decimal_text(n / 10).push(digit_char(n % 10))
    }
}

/// `ToString::to_string` on a `u64`: its decimal digits.
#[verifier::external_body]
pub(crate) fn u64_decimal(n: u64) -> (s: String)
    ensures
        s@ == decimal_text(n as nat),
{
    n.to_string()
}

/// The message of a failed read of `requested` bytes with `remaining` bytes left.
pub open spec fn byte_read_failure_text(remaining: usize, requested: usize) -> Seq<char> {
    "Failed to read message/command. bytes left in stream: "@ + decimal_text(remaining as nat)
        + ", requested bytes: "@ + decimal_text(requested as nat)
}

/// Builds the failed-read message.
pub(crate) fn byte_read_failure_message(remaining: usize, requested: usize) -> (msg: String)
    ensures
        msg@ == byte_read_failure_text(remaining, requested),
{
    let mut msg = String::from_str("Failed to read message/command. bytes left in stream: ");
    let left = u64_decimal(remaining as u64);
    msg.append(left.as_str());
    msg.append(", requested bytes: ");
    let wanted = u64_decimal(requested as u64);
    msg.append(wanted.as_str());
    msg
}

/// The identity text of a bot: `bot:` and its controller handle in decimal.
pub open spec fn bot_actor_text(handle: u32) -> Seq<char> {
    "bot:"@ + decimal_text(handle as nat)
}

/// Builds a bot's identity text.
pub(crate) fn bot_actor_string(handle: u32) -> (s: String)
    ensures
        s@ == bot_actor_text(handle),
{
    let mut s = String::from_str("bot:");
    let digits = u64_decimal(handle as u64);
    s.append(digits.as_str());
    s
}

} // verus!
