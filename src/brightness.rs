use vstd::prelude::*;

use crate::codec::{encode, encode_spec, MAX_PERCENT};
use crate::controller::{still_waiting, timed_out, without_id, contains_id, Controller};
use crate::request::{
    outcome_of_reply, timeout_resolution, Command, PendingRequest, Reply, RequestOutcome,
    Resolution,
};

verus! {

/// The name under which the attribute is published.
pub open spec fn property_name() -> Seq<char> {
    "brightness"@
}

/// The character for a decimal digit.
pub open spec fn digit_char(d: nat) -> char {
    seq!['0', '1', '2', '3', '4', '5', '6', '7', '8', '9'][d as int]
}

/// The decimal digits of `n`, most significant first, without leading zeros.
pub open spec fn decimal(n: nat) -> Seq<char>
    decreases n,
{
    if n < 10 {
        seq![digit_char(n)]
    } else {
        decimal(n / 10).push(digit_char(n % 10))
    }
}

/// The message a failed write reports: the attribute, the device, and the
/// cause.
pub open spec fn failure_message(dm_id: u8, cause: Seq<char>) -> Seq<char> {
    "Failed to set "@ + property_name() + " of "@ + decimal(dm_id as nat) + ": "@ + cause
}

/// What a write resolved with `outcome` reports: nothing for a reply, a
/// message naming the timeout for a timeout, and a message carrying the
/// transport's cause for a transport error.
pub open spec fn update_failure(dm_id: u8, outcome: RequestOutcome) -> Option<Seq<char>> {
    match outcome {
        RequestOutcome::Response(_) => None,
        RequestOutcome::Timeout => Some(failure_message(dm_id, "timeout"@)),
        RequestOutcome::TransportError(cause) => Some(failure_message(dm_id, cause@)),
    }
}

/// The schema under which the attribute is published.
#[derive(Clone, Debug)]
pub struct PropertyDescription {
    pub at_type: String,
    pub title: String,
    pub minimum: u8,
    pub maximum: u8,
    pub multiple_of: u8,
    pub read_only: bool,
    pub value: u8,
    pub visible: bool,
}

/// A single-digit string.
fn digit_str(d: u8) -> (r: &'static str)
    requires
        d < 10,
    ensures
        r@ == seq![digit_char(d as nat)],
{
    if d == 0 {
        proof { reveal_strlit("0"); }
        "0"
    } else if d == 1 {
        proof { reveal_strlit("1"); }
        "1"
    } else if d == 2 {
        proof { reveal_strlit("2"); }
        "2"
    } else if d == 3 {
        proof { reveal_strlit("3"); }
        "3"
    } else if d == 4 {
        proof { reveal_strlit("4"); }
        "4"
    } else if d == 5 {
        proof { reveal_strlit("5"); }
        "5"
    } else if d == 6 {
        proof { reveal_strlit("6"); }
        "6"
    } else if d == 7 {
        proof { reveal_strlit("7"); }
        "7"
    } else if d == 8 {
        proof { reveal_strlit("8"); }
        "8"
    } else {
        proof { reveal_strlit("9"); }
        "9"
    }
}

/// Appends the decimal digits of `n` to `s`.
fn push_decimal(s: &mut String, n: u8)
    ensures
        final(s)@ == old(s)@ + decimal(n as nat),
{
    proof {
        reveal_with_fuel(decimal, 3);
    }
    if n >= 100 {
        s.append(digit_str(n / 100));
    }
    if n >= 10 {
        s.append(digit_str((n / 10) % 10));
    }
    s.append(digit_str(n % 10));
    proof {
        if n >= 100 {
            assert((n as nat / 10) / 10 == n as nat / 100);
            assert(decimal(n as nat) =~= seq![
                digit_char(n as nat / 100),
                digit_char((n as nat / 10) % 10),
                digit_char(n as nat % 10),
            ]);
        } else if n >= 10 {
            assert(decimal(n as nat) =~= seq![digit_char(n as nat / 10), digit_char(n as nat % 10)]);
        }
        assert(final(s)@ =~= old(s)@ + decimal(n as nat));
    }
}

/// A dimmable light's brightness, 0 to 100 percent, backed by one slot of
/// the device bus and set through a controller.
pub struct BrightnessProperty {
    controller: Controller,
    dm_id: u8,
}

impl BrightnessProperty {
    /// The controller that carries this attribute's requests.
    pub closed spec fn controller(&self) -> Controller {
        self.controller
    }

    /// The device slot this attribute drives.
    pub closed spec fn dm_id(&self) -> u8 {
        self.dm_id
    }

    /// The attribute for device slot `dm_id`, with its requests carried by
    /// `controller`.
    pub fn new(controller: Controller, dm_id: u8) -> (p: Self)
        ensures
            p.controller() == controller,
            p.dm_id() == dm_id,
    {
        BrightnessProperty { controller, dm_id }
    }

    /// The device slot this attribute drives.
    pub fn device_id(&self) -> (r: u8)
        ensures
            r == self.dm_id(),
    {
        self.dm_id
    }

    /// The name under which the attribute is published.
    pub fn name(&self) -> (r: String)
        ensures
            r@ == property_name(),
    {
        String::from_str("brightness")
    }

    /// The schema of the attribute: a writable, visible brightness from 0 to
    /// 100 in steps of 1, starting at 0.
    pub fn description(&self) -> (d: PropertyDescription)
        ensures
            d.at_type@ == "BrightnessProperty"@,
            d.title@ == "Brightness"@,
            d.minimum == 0,
            d.maximum == MAX_PERCENT,
            d.multiple_of == 1,
            !d.read_only,
            d.value == 0,
            d.visible,
    {
        PropertyDescription {
            at_type: String::from_str("BrightnessProperty"),
            title: String::from_str("Brightness"),
            minimum: 0,
            maximum: MAX_PERCENT,
            multiple_of: 1,
            read_only: false,
            value: 0,
            visible: true,
        }
    }

    /// Starts a write of `value` percent at instant `now`: encodes it and
    /// registers a request for this attribute's slot with the controller.
    /// Returns the command to hand to the transport; its `id` correlates the
    /// outcome.
    pub fn on_update(&mut self, value: u8, now: u64) -> (cmd: Command)
        requires
            value <= MAX_PERCENT,
            old(self).controller().wf(),
            old(self).controller().next_id() < u64::MAX,
        ensures
            final(self).dm_id() == old(self).dm_id(),
            final(self).controller().wf(),
            cmd.id == old(self).controller().next_id(),
            cmd.slot == old(self).dm_id(),
            cmd.raw as int == encode_spec(value as int),
            final(self).controller().pending() == old(self).controller().pending().push(
                PendingRequest {
                    id: cmd.id,
                    slot: cmd.slot,
                    raw: cmd.raw,
                    deadline: crate::controller::deadline_after(
                        now,
                        old(self).controller().timeout(),
                    ),
                },
            ),
            final(self).controller().next_id() == old(self).controller().next_id() + 1,
            final(self).controller().timeout() == old(self).controller().timeout(),
    {
        let raw = encode(value);
        self.controller.set_value(self.dm_id, raw, now)
    }

    /// Hands the transport's report for request `id` to the controller.
    pub fn on_reply(&mut self, id: u64, reply: Reply) -> (r: Option<Resolution>)
        requires
            old(self).controller().wf(),
        ensures
            final(self).dm_id() == old(self).dm_id(),
            final(self).controller().wf(),
            final(self).controller().pending() == without_id(old(self).controller().pending(), id),
            final(self).controller().next_id() == old(self).controller().next_id(),
            final(self).controller().timeout() == old(self).controller().timeout(),
            r is Some <==> contains_id(old(self).controller().pending(), id),
            r matches Some(res) ==> res.id == id && res.outcome == outcome_of_reply(reply),
    {
        self.controller.on_reply(id, reply)
    }

    /// Lets the controller time out every request due at instant `now`.
    pub fn on_tick(&mut self, now: u64) -> (expired: Vec<Resolution>)
        requires
            old(self).controller().wf(),
        ensures
            final(self).dm_id() == old(self).dm_id(),
            final(self).controller().wf(),
            final(self).controller().pending() == still_waiting(
                old(self).controller().pending(),
                now,
            ),
            final(self).controller().next_id() == old(self).controller().next_id(),
            final(self).controller().timeout() == old(self).controller().timeout(),
            expired@.len() == timed_out(old(self).controller().pending(), now).len(),
            forall|k: int|
                0 <= k < expired@.len() ==> #[trigger] expired@[k] == timeout_resolution(
                    timed_out(old(self).controller().pending(), now)[k],
                ),
    {
        self.controller.on_tick(now)
    }

    /// Whether the controller can still take another write.
    pub fn has_capacity(&self) -> (r: bool)
        ensures
            r == (self.controller().next_id() < u64::MAX),
    {
        self.controller.has_capacity()
    }

    /// Whether request `id` is still waiting for its outcome.
    pub fn is_pending(&self, id: u64) -> (r: bool)
        ensures
            r == contains_id(self.controller().pending(), id),
    {
        self.controller.is_pending(id)
    }

    /// What the write reports once its request resolved with `outcome`:
    /// success for a reply, otherwise a message that names the attribute,
    /// the device and the cause.
    pub fn update_result(&self, outcome: RequestOutcome) -> (r: Result<(), String>)
        ensures
            r is Ok <==> update_failure(self.dm_id(), outcome) is None,
            r matches Err(m) ==> update_failure(self.dm_id(), outcome) == Some(m@),
    {
        match outcome {
            RequestOutcome::Response(_) => Ok(()),
            RequestOutcome::Timeout => Err(self.failure("timeout")),
            RequestOutcome::TransportError(cause) => Err(self.failure(cause.as_str())),
        }
    }

    /// The message for a failed write with cause `cause`.
    fn failure(&self, cause: &str) -> (m: String)
        ensures
            m@ == failure_message(self.dm_id(), cause@),
    {
        let mut m = String::from_str("Failed to set ");
        m.append("brightness");
        m.append(" of ");
        push_decimal(&mut m, self.dm_id);
        m.append(": ");
        m.append(cause);
        m
    }
}

} // verus!
