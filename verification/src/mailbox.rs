//! The mailbox verifier: a disposable mailbox is provisioned, and the token that
//! confirms a registration is waited for in it.

use vstd::prelude::*;

verus! {

/// Why no mailbox or no token was had.
#[derive(Clone, Copy, Debug, PartialEq, Eq, Structural)]
pub enum MailboxError {
    /// The provider handed out no mailbox.
    ProvisioningError,
    /// No token arrived within the polls allowed.
    Timeout,
}

/// Asks the provider for a new mailbox, once.
pub fn provision<M: Fn() -> Option<String>>(mailbox_factory: &M) -> (r: Result<
    String,
    MailboxError,
>)
    requires
        call_requires(*mailbox_factory, ()),
    ensures
        match r {
            Ok(mailbox) => call_ensures(*mailbox_factory, (), Some(mailbox)),
            Err(e) => e == MailboxError::ProvisioningError && call_ensures(
                *mailbox_factory,
                (),
                None::<String>,
            ),
        },
{
    match mailbox_factory() {
        Some(mailbox) => Ok(mailbox),
        None => Err(MailboxError::ProvisioningError),
    }
}

/// Polls the mailbox until a token is found, `max_polls` times at most.
pub fn await_confirmation<P: Fn(&str) -> Option<String>>(
    mailbox: &str,
    max_polls: usize,
    poll: &P,
) -> (r: Result<String, MailboxError>)
    requires
        forall|m: &str| #[trigger] call_requires(*poll, (m,)),
    ensures
        match r {
            Ok(token) => max_polls > 0 && call_ensures(*poll, (mailbox,), Some(token)),
            Err(e) => {
                &&& e == MailboxError::Timeout
                &&& max_polls > 0 ==> call_ensures(*poll, (mailbox,), None::<String>)
            },
        },
{
    let mut polls: usize = 0;
    while polls < max_polls
        invariant
            polls <= max_polls,
            forall|m: &str| #[trigger] call_requires(*poll, (m,)),
            polls > 0 ==> call_ensures(*poll, (mailbox,), None::<String>),
        decreases max_polls - polls,
    {
        match poll(mailbox) {
            Some(token) => {
                return Ok(token);
            },
            None => {},
        }
        polls += 1;
    }
    Err(MailboxError::Timeout)
}

} // verus!
