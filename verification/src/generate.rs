//! Account generation: new identities are registered and added to the pool, with
//! a bound on the attempts.

use vstd::prelude::*;
use vstd::string::*;
use crate::identity::{record_of, Identity};
use crate::mailbox::{await_confirmation, provision};
use crate::random::{is_alphanumeric, random_string};
use crate::store::Store;
use crate::text::LINE_END;

verus! {

/// The length of the random names and passwords.
pub const CREDENTIAL_LEN: usize = 8;

/// Why fewer identities were generated than asked for.
#[derive(Clone, Copy, Debug, PartialEq, Eq, Structural)]
pub enum GenerationError {
    /// The attempts allowed were used up after `created` identities.
    GenerationFailed { created: u32 },
}

/// Whether `s` can be a random name or password: [`CREDENTIAL_LEN`] ASCII letters
/// and digits.
pub open spec fn is_credential(s: Seq<char>) -> bool {
    s.len() == CREDENTIAL_LEN && forall|i: int| 0 <= i < s.len() ==> is_alphanumeric(#[trigger] s[i])
}

/// Whether the mailbox `m` may yield a token that `confirm` answers with
/// `accepted`.
pub open spec fn may_confirm<P: Fn(&str) -> Option<String>, C: Fn(&str) -> bool>(
    poll: P,
    confirm: C,
    m: &str,
    accepted: bool,
) -> bool {
    exists|token: String, t: &str|
        t@ == token@ && #[trigger] call_ensures(poll, (m,), Some(token)) && #[trigger] call_ensures(
            confirm,
            (t,),
            accepted,
        )
}

/// Whether a registration with the mailbox `m` may go through: the account is
/// accepted, a token arrives and is accepted too.
pub open spec fn may_succeed_with<
    R: Fn(&str, &str, &str) -> bool,
    P: Fn(&str) -> Option<String>,
    C: Fn(&str) -> bool,
>(register: R, poll: P, confirm: C, handle: &str, m: &str, secret: &str, max_polls: usize) -> bool {
    &&& call_ensures(register, (handle, m, secret), true)
    &&& max_polls > 0
    &&& may_confirm(poll, confirm, m, true)
}

/// Whether a registration with the mailbox `m` may fail: the account is refused,
/// or no token arrives within the polls allowed, or the token is refused.
pub open spec fn may_fail_with<
    R: Fn(&str, &str, &str) -> bool,
    P: Fn(&str) -> Option<String>,
    C: Fn(&str) -> bool,
>(register: R, poll: P, confirm: C, handle: &str, m: &str, secret: &str, max_polls: usize) -> bool {
    ||| call_ensures(register, (handle, m, secret), false)
    ||| {
        &&& call_ensures(register, (handle, m, secret), true)
        &&& {
            ||| max_polls == 0
            ||| call_ensures(poll, (m,), None::<String>)
            ||| may_confirm(poll, confirm, m, false)
        }
    }
}

/// Registers one account: a mailbox is provisioned, the account is registered
/// with it, the confirmation token is waited for and handed in. Any failure on
/// the way gives `None`; nothing is tried twice.
pub fn create_one<
    M: Fn() -> Option<String>,
    R: Fn(&str, &str, &str) -> bool,
    P: Fn(&str) -> Option<String>,
    C: Fn(&str) -> bool,
>(
    handle: &str,
    mailbox_factory: &M,
    secret: &str,
    register: &R,
    max_polls: usize,
    poll: &P,
    confirm: &C,
) -> (r: Option<Identity>)
    requires
        call_requires(*mailbox_factory, ()),
        forall|h: &str, m: &str, s: &str| #[trigger] call_requires(*register, (h, m, s)),
        forall|m: &str| #[trigger] call_requires(*poll, (m,)),
        forall|t: &str| #[trigger] call_requires(*confirm, (t,)),
    ensures
        match r {
            Some(id) => {
                &&& id@.handle == handle@
                &&& id@.secret == secret@
                &&& exists|mailbox: String, m: &str|
                    {
                        &&& m@ == mailbox@
                        &&& mailbox@ == id@.mailbox
                        &&& #[trigger] call_ensures(*mailbox_factory, (), Some(mailbox))
                        &&& #[trigger] may_succeed_with(
                            *register,
                            *poll,
                            *confirm,
                            handle,
                            m,
                            secret,
                            max_polls,
                        )
                    }
            },
            None => {
                ||| call_ensures(*mailbox_factory, (), None::<String>)
                ||| exists|mailbox: String, m: &str|
                    {
                        &&& m@ == mailbox@
                        &&& #[trigger] call_ensures(*mailbox_factory, (), Some(mailbox))
                        &&& #[trigger] may_fail_with(
                            *register,
                            *poll,
                            *confirm,
                            handle,
                            m,
                            secret,
                            max_polls,
                        )
                    }
            },
        },
{
    let mailbox = match provision(mailbox_factory) {
        Ok(mailbox) => mailbox,
        Err(_) => {
            return None;
        },
    };
    let m = mailbox.as_str();
    if !register(handle, m, secret) {
        assert(may_fail_with(*register, *poll, *confirm, handle, m, secret, max_polls));
        return None;
    }
    let token = match await_confirmation(m, max_polls, poll) {
        Ok(token) => token,
        Err(_) => {
            assert(may_fail_with(*register, *poll, *confirm, handle, m, secret, max_polls));
            return None;
        },
    };
    let t = token.as_str();
    if !confirm(t) {
        assert(may_confirm(*poll, *confirm, m, false));
        assert(may_fail_with(*register, *poll, *confirm, handle, m, secret, max_polls));
        return None;
    }
    assert(may_confirm(*poll, *confirm, m, true));
    assert(may_succeed_with(*register, *poll, *confirm, handle, m, secret, max_polls));
    let id = Identity::new(String::from_str(handle), mailbox, String::from_str(secret));
    Some(id)
}

/// Whether `out` is a possible answer of `create` to a random name and a random
/// password.
pub open spec fn may_create<C: Fn(&str, &str) -> Option<Identity>>(
    create: C,
    out: Option<Identity>,
) -> bool {
    exists|handle: &str, secret: &str|
        is_credential(handle@) && is_credential(secret@) && #[trigger] call_ensures(
            create,
            (handle, secret),
            out,
        )
}

/// Whether `line` is the record of an identity that `create` may have answered
/// with, and was handed to `persist` with a line end behind it.
pub open spec fn generated_record<C: Fn(&str, &str) -> Option<Identity>, W: Fn(&str) -> ()>(
    create: C,
    persist: W,
    line: Seq<char>,
) -> bool {
    exists|id: Identity, written: &str|
        {
            &&& line == record_of(id@)
            &&& written@ == line.push(LINE_END)
            &&& #[trigger] may_create(create, Some(id))
            &&& #[trigger] call_ensures(persist, (written,), ())
        }
}

/// Whether the pool `after` and the result `r` are what comes of generating
/// `amount` identities into the pool `before` with at most `max_attempts`
/// attempts.
///
/// The pool has only grown, by one record for each identity created. Either all
/// identities were created, or the attempts were used up before.
pub open spec fn generation<C: Fn(&str, &str) -> Option<Identity>, W: Fn(&str) -> ()>(
    create: C,
    persist: W,
    before: Seq<Seq<char>>,
    after: Seq<Seq<char>>,
    amount: u32,
    max_attempts: usize,
    r: Result<(), GenerationError>,
) -> bool {
    &&& before.len() <= after.len()
    &&& after.take(before.len() as int) == before
    &&& forall|k: int|
        before.len() <= k < after.len() ==> generated_record(create, persist, #[trigger] after[k])
    &&& match r {
        Ok(()) => after.len() == before.len() + amount && amount <= max_attempts,
        Err(GenerationError::GenerationFailed { created }) => {
            &&& after.len() == before.len() + created
            &&& created < amount
            &&& created <= max_attempts
            &&& created < max_attempts ==> may_create(create, None)
        },
    }
}

/// Generates `amount` identities. Each attempt draws a random name and a random
/// password and asks `create` for an account; an identity that is had is added
/// to the pool, and its record with a line end is handed to `persist`. After
/// `max_attempts` attempts no more are made.
pub fn generate_account<C: Fn(&str, &str) -> Option<Identity>, W: Fn(&str) -> ()>(
    amount: u32,
    store: &mut Store,
    max_attempts: usize,
    create: &C,
    persist: &W,
) -> (r: Result<(), GenerationError>)
    requires
        forall|handle: &str, secret: &str| #[trigger] call_requires(*create, (handle, secret)),
        forall|written: &str| #[trigger] call_requires(*persist, (written,)),
    ensures
        generation(*create, *persist, old(store)@, final(store)@, amount, max_attempts, r),
{
    let ghost before = store@;
    let mut created: u32 = 0;
    let mut attempts: usize = 0;
    assert(store@.take(before.len() as int) =~= before);
    while created < amount
        invariant
            forall|handle: &str, secret: &str| #[trigger] call_requires(*create, (handle, secret)),
            forall|written: &str| #[trigger] call_requires(*persist, (written,)),
            before == old(store)@,
            created <= amount,
            created <= attempts <= max_attempts,
            store@.len() == before.len() + created,
            store@.take(before.len() as int) == before,
            forall|k: int|
                before.len() <= k < store@.len() ==> generated_record(
                    *create,
                    *persist,
                    #[trigger] store@[k],
                ),
            created < attempts ==> may_create(*create, None),
        decreases max_attempts - attempts,
    {
        if attempts >= max_attempts {
            return Err(GenerationError::GenerationFailed { created });
        }
        attempts += 1;
        let handle = random_string(CREDENTIAL_LEN);
        let secret = random_string(CREDENTIAL_LEN);
        let out = create(handle.as_str(), secret.as_str());
        assert(may_create(*create, out));
        match out {
            Some(id) => {
                let ghost earlier = store@;
                let written = store.append(&id);
                persist(written.as_str());
                created += 1;
                proof {
                    assert(generated_record(*create, *persist, record_of(id@)));
                    assert(store@.take(before.len() as int) =~= before);
                    assert forall|k: int| before.len() <= k < store@.len() implies generated_record(
                        *create,
                        *persist,
                        #[trigger] store@[k],
                    ) by {
                        if k < earlier.len() {
                            assert(store@[k] == earlier[k]);
                        }
                    }
                }
            },
            None => {},
        }
    }
    Ok(())
}

} // verus!
