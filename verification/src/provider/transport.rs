//! How long a provider is waited for, and what a refusal says.
use vstd::prelude::*;
use vstd::string::*;

use crate::json;
use crate::json::{Json, Tree};
use crate::provider::failures;
use crate::provider::failures::SECOND_NANOS;
use crate::provider::types::{ErrorView, ProviderError};
use crate::text;

verus! {

/// Most bytes of a refusal that are read.
pub const MAX_ERROR_BODY_BYTES: usize = 4_096;

/// Most connection policies whose connections are kept.
pub const MAX_TRANSPORTS: usize = 16;

/// How long a provider is waited for, in nanoseconds.
#[derive(Clone, Copy, Debug, PartialEq, Eq, Structural)]
pub struct ProviderTimeouts {
    pub connect: u128,
    pub idle: u128,
    pub first_semantic: u128,
    pub wall: u128,
}

pub open spec fn smaller(a: u128, b: u128) -> u128 {
    if a < b {
        a
    } else {
        b
    }
}

impl ProviderTimeouts {
    /// The same time for everything.
    pub fn uniform(timeout: u128) -> (r: ProviderTimeouts)
        ensures
            r == (ProviderTimeouts {
                connect: timeout,
                idle: timeout,
                first_semantic: timeout,
                wall: timeout,
            }),
    {
        ProviderTimeouts { connect: timeout, idle: timeout, first_semantic: timeout, wall: timeout }
    }

    /// At most fifteen seconds to connect and at least ten minutes for the whole;
    /// an answer that keeps arriving may take as long.
    pub fn production(idle: u128) -> (r: ProviderTimeouts)
        ensures
            r == (ProviderTimeouts {
                connect: smaller(idle, (15 * SECOND_NANOS) as u128),
                idle,
                first_semantic: idle,
                wall: if idle < 600 * SECOND_NANOS {
                    (600 * SECOND_NANOS) as u128
                } else {
                    idle
                },
            }),
            r.connect <= r.idle <= r.wall,
    {
        let most: u128 = 15 * SECOND_NANOS;
        let least: u128 = 600 * SECOND_NANOS;
        ProviderTimeouts {
            connect: if idle < most {
                idle
            } else {
                most
            },
            idle,
            first_semantic: idle,
            wall: if idle < least {
                least
            } else {
                idle
            },
        }
    }

    /// How long the headers of an answer are waited for.
    pub fn header_wait(&self) -> (r: u128)
        ensures
            r == smaller(self.idle, self.first_semantic),
    {
        if self.idle < self.first_semantic {
            self.idle
        } else {
            self.first_semantic
        }
    }

    /// How long the next bytes are waited for, `elapsed` nanoseconds after the
    /// request was started: until something of the answer itself has arrived, no
    /// longer than for that. Nothing where that time is over.
    pub open spec fn chunk_time(&self, elapsed: u128, saw_semantic: bool) -> u128 {
        if saw_semantic {
            self.idle
        } else {
            smaller(
                self.idle,
                if elapsed < self.first_semantic {
                    (self.first_semantic - elapsed) as u128
                } else {
                    0
                },
            )
        }
    }

    pub fn chunk_wait(&self, elapsed: u128, saw_semantic: bool) -> (r: Result<
        u128,
        ProviderError,
    >)
        ensures
            (match r {
                Ok(wait) => wait == self.chunk_time(elapsed, saw_semantic) && wait > 0,
                Err(error) => self.chunk_time(elapsed, saw_semantic) == 0 && error@
                    == late_semantic(),
            }),
    {
        let wait: u128 = if saw_semantic {
            self.idle
        } else {
            let left: u128 = if elapsed < self.first_semantic {
                self.first_semantic - elapsed
            } else {
                0
            };
            if self.idle < left {
                self.idle
            } else {
                left
            }
        };
        if wait == 0 {
            Err(timed_out(false))
        } else {
            Ok(wait)
        }
    }
}

/// Nothing of the answer itself arrived in time.
pub open spec fn late_semantic() -> ErrorView {
    ErrorView::Transport {
        safe_to_retry: false,
        message: "timeout waiting for the first semantic provider event"@,
    }
}

/// The next bytes did not arrive in time.
pub fn timed_out(saw_semantic: bool) -> (r: ProviderError)
    ensures
        r@ == (if saw_semantic {
            ErrorView::Transport {
                safe_to_retry: false,
                message: "provider stream idle timeout"@,
            }
        } else {
            late_semantic()
        }),
{
    ProviderError::Transport {
        safe_to_retry: false,
        message: if saw_semantic {
            "provider stream idle timeout".to_owned()
        } else {
            "timeout waiting for the first semantic provider event".to_owned()
        },
    }
}

/// Connections that are kept, each for its time to connect; the one used last
/// stands behind the others.
pub struct TransportSlots {
    slots: Vec<(u128, u64)>,
}

impl View for TransportSlots {
    type V = Seq<(u128, u64)>;

    closed spec fn view(&self) -> Seq<(u128, u64)> {
        self.slots@
    }
}

/// Where the connection for a time to connect stands.
pub open spec fn slot_index(slots: Seq<(u128, u64)>, connect: u128, from: int) -> Option<int>
    decreases slots.len() - from,
{
    if from < 0 || from >= slots.len() {
        None
    } else if slots[from].0 == connect {
        Some(from)
    } else {
        slot_index(slots, connect, from + 1)
    }
}

impl TransportSlots {
    #[verifier::type_invariant]
    spec fn inv(self) -> bool {
        self.slots@.len() <= MAX_TRANSPORTS
    }

    pub fn new() -> (r: TransportSlots)
        ensures
            r@ == Seq::<(u128, u64)>::empty(),
    {
        TransportSlots { slots: Vec::new() }
    }

    /// The number of the connection for a time to connect, which becomes the one
    /// used last; nothing where there is none.
    pub fn claim(self, connect: u128) -> (r: (TransportSlots, Option<u64>))
        ensures
            (match slot_index(self@, connect, 0) {
                Some(i) => r.0@ == self@.remove(i).push(self@[i]) && r.1 == Some(self@[i].1),
                None => r.0@ == self@ && r.1 is None,
            }),
    {
        proof {
            use_type_invariant(&self);
        }
        let mut i: usize = 0;
        while i < self.slots.len()
            invariant
                i <= self.slots.len(),
                self.slots@.len() <= MAX_TRANSPORTS,
                slot_index(self@, connect, 0) == slot_index(self@, connect, i as int),
            decreases self.slots.len() - i,
        {
            if self.slots[i].0 == connect {
                let mut slots = self.slots;
                let slot = slots.remove(i);
                let id: u64 = slot.1;
                slots.push(slot);
                return (TransportSlots { slots }, Some(id));
            }
            i = i + 1;
        }
        (self, None)
    }

    /// Keeps a new connection; the one not used for longest goes where there are
    /// too many, and its number is told.
    pub fn keep(self, connect: u128, id: u64) -> (r: (TransportSlots, Option<u64>))
        ensures
            self@.len() < MAX_TRANSPORTS ==> r.0@ == self@.push((connect, id)) && r.1 is None,
            self@.len() >= MAX_TRANSPORTS ==> r.0@ == self@.skip(1).push((connect, id)) && r.1
                == Some(self@[0].1),
            r.0@.len() <= MAX_TRANSPORTS,
    {
        proof {
            use_type_invariant(&self);
        }
        let ghost before = self@;
        let mut slots = self.slots;
        if slots.len() >= MAX_TRANSPORTS {
            let oldest = slots.remove(0);
            assert(slots@ =~= before.skip(1));
            slots.push((connect, id));
            return (TransportSlots { slots }, Some(oldest.1));
        }
        slots.push((connect, id));
        (TransportSlots { slots }, None)
    }
}

/// Adds to the bytes of a refusal, as far as they are read.
pub fn extend_error_body(body: &mut Vec<u8>, chunk: &[u8])
    ensures
        final(body)@ == (if old(body)@.len() >= MAX_ERROR_BODY_BYTES {
            old(body)@
        } else {
            (old(body)@ + chunk@).take(
                if old(body)@.len() + chunk@.len() < MAX_ERROR_BODY_BYTES {
                    (old(body)@.len() + chunk@.len()) as int
                } else {
                    MAX_ERROR_BODY_BYTES as int
                },
            )
        }),
{
    let ghost start = body@;
    let ghost all = start + chunk@;
    let mut i: usize = 0;
    assert(start =~= all.take(start.len() as int));
    while i < chunk.len() && body.len() < MAX_ERROR_BODY_BYTES
        invariant
            i <= chunk@.len(),
            all == start + chunk@,
            body@.len() == start.len() + i,
            body@ == all.take(start.len() + i),
            i > 0 ==> body@.len() <= MAX_ERROR_BODY_BYTES,
        decreases chunk@.len() - i,
    {
        body.push(chunk[i]);
        assert(all.take(start.len() + i + 1) =~= all.take(start.len() + i as int).push(
            all[start.len() + i as int],
        ));
        i = i + 1;
    }
}

/// The words of a refusal: its status and the beginning of its text.
pub open spec fn refusal_words(status: u16, body: Seq<char>, values: Seq<Seq<char>>) -> Seq<char> {
    "http "@ + text::decimal(status as nat) + ": "@ + failures::excerpt(body, values)
}

/// A refusal whose text was read as JSON, or could not be.
pub open spec fn refusal(
    status: u16,
    retry_after: Option<u128>,
    body: Seq<char>,
    read: Option<Tree>,
    values: Seq<Seq<char>>,
) -> ErrorView {
    let plain = ErrorView::Http {
        status,
        retry_after,
        message: refusal_words(status, body, values),
    };
    match read {
        Some(tree) => match failures::structured_error(tree, Some(status), retry_after, values) {
            Some(error) => error,
            None => plain,
        },
        None => plain,
    }
}

/// What a refusal says whose text was read as JSON, or could not be.
pub fn refusal_of(
    status: u16,
    retry_after: Option<u128>,
    body: &str,
    read: Option<&Json>,
    sensitive_values: &Vec<String>,
) -> (r: ProviderError)
    ensures
        r@ == refusal(
            status,
            retry_after,
            body@,
            match read {
                Some(j) => Some(j@),
                None => None,
            },
            text::texts(sensitive_values@),
        ),
{
    if let Some(value) = read {
        if let Some(error) = failures::structured_provider_error(
            value,
            Some(status),
            retry_after,
            sensitive_values,
        ) {
            return error;
        }
    }
    let clean = crate::provider::secrets::redact_values(body, sensitive_values);
    let shown = failures::truncate_error(clean.as_str());
    let mut message = "http ".to_owned();
    message.append(text::decimal_of(status as u64).as_str());
    message.append(": ");
    message.append(shown.as_str());
    ProviderError::Http { status, retry_after, message }
}

/// What the bytes of a refusal say, without the secrets.
pub fn read_refusal(
    status: u16,
    retry_after: Option<u128>,
    body: &Vec<u8>,
    sensitive_values: &Vec<String>,
) -> (r: ProviderError)
    ensures
        r@ == refusal(
            status,
            retry_after,
            text::lossy(body@),
            match json::parsed(text::lossy(body@)) {
                Ok(tree) => Some(tree),
                Err(_) => None,
            },
            text::texts(sensitive_values@),
        ),
{
    let words = text::lossy_text(body.as_slice());
    match json::parse(words.as_str()) {
        Ok(value) => refusal_of(
            status,
            retry_after,
            words.as_str(),
            Some(&value),
            sensitive_values,
        ),
        Err(_) => refusal_of(status, retry_after, words.as_str(), None, sensitive_values),
    }
}

} // verus!
