use crate::storage::{pushed_window, OracleEvent, OracleEventStorage, RawEvent};
use vstd::prelude::*;

verus! {

/// Who submits a call, as the host runtime reports it.
#[derive(Clone, Copy, Debug, PartialEq, Eq, Structural)]
pub enum Origin {
    /// The privileged root origin.
    Root,
    /// A call signed by the given account.
    Signed(u64),
    /// An unsigned call.
    Unsigned,
}

/// Why a call is refused.
#[derive(Clone, Copy, Debug, PartialEq, Eq, Structural)]
pub enum Error {
    /// The origin is not of the kind the call needs (root, or signed).
    BadOrigin,
    /// The signer is not the authorized oracle account.
    WrongOrigin,
    /// The host's time does not fit in a `u64`.
    SystemError,
}

/// What an accepted call announces.
#[derive(Clone, Copy, Debug, PartialEq, Eq, Structural)]
pub enum Event {
    /// An event was recorded at the given time.
    ReceivedEvent(u64),
}

/// The oracle's state: the one account allowed to post events, and the
/// buffer of recent events.
pub struct Pallet {
    pub oracle_account: Option<u64>,
    pub event_storage: OracleEventStorage,
}

impl Pallet {
    pub open spec fn wf(&self) -> bool {
        self.event_storage.wf()
    }

    /// Root sets the account that may post events.
    pub fn authorize(&mut self, origin: Origin, account: u64) -> (r: Result<(), Error>)
        requires
            old(self).wf(),
        ensures
            final(self).wf(),
            final(self).event_storage == old(self).event_storage,
            origin == Origin::Root ==> r == Ok::<(), Error>(()) && final(self).oracle_account
                == Some(account),
            origin != Origin::Root ==> r == Err::<(), Error>(Error::BadOrigin)
                && final(self).oracle_account == old(self).oracle_account,
    {
        match origin {
            Origin::Root => {
                self.oracle_account = Some(account);
                Ok(())
            },
            _ => Err(Error::BadOrigin),
        }
    }

    /// The authorized account posts `event` at host time `now`: stale events
    /// are evicted, then the new one is recorded. A call that is not signed,
    /// or signed by another account (or while none is authorized), or made at
    /// a time beyond `u64`, changes nothing.
    pub fn handle_event(
        &mut self,
        origin: Origin,
        event: RawEvent,
        now: u128,
    ) -> (r: Result<Event, Error>)
        requires
            old(self).wf(),
        ensures
            final(self).wf(),
            final(self).oracle_account == old(self).oracle_account,
            !(origin is Signed) ==> r == Err::<Event, Error>(Error::BadOrigin),
            origin is Signed && old(self).oracle_account != Some(origin->Signed_0)
                ==> r == Err::<Event, Error>(Error::WrongOrigin),
            origin is Signed && old(self).oracle_account == Some(origin->Signed_0) && now
                > u64::MAX ==> r == Err::<Event, Error>(Error::SystemError),
            r is Err ==> final(self).event_storage == old(self).event_storage,
            origin is Signed && old(self).oracle_account == Some(origin->Signed_0) && now
                <= u64::MAX ==> {
                &&& r == Ok::<Event, Error>(Event::ReceivedEvent(now as u64))
                &&& final(self).event_storage.capacity() == old(self).event_storage.capacity()
                &&& final(self).event_storage@ == pushed_window(
                    old(self).event_storage.cleaned(now as u64)@,
                    OracleEvent { timestamp: now as u64, data: event },
                    old(self).event_storage.capacity(),
                )
            },
    {
        let who = match origin {
            Origin::Signed(who) => who,
            _ => {
                return Err(Error::BadOrigin);
            },
        };
        match self.oracle_account {
            Some(account) => {
                if who != account {
                    return Err(Error::WrongOrigin);
                }
            },
            None => {
                return Err(Error::WrongOrigin);
            },
        }
        if now > u64::MAX as u128 {
            return Err(Error::SystemError);
        }
        let now = now as u64;
        self.event_storage.cleanup(now);
        self.event_storage.add_event(event, now);
        Ok(Event::ReceivedEvent(now))
    }
}

impl Default for Pallet {
    /// No authorized account, and an empty buffer of the default size.
    fn default() -> (r: Self)
        ensures
            r.wf(),
            r.oracle_account == None::<u64>,
            r.event_storage.capacity() == crate::storage::LIST_SIZE,
            r.event_storage.start == 0,
            r.event_storage.size == 0,
    {
        Pallet { oracle_account: None, event_storage: OracleEventStorage::default() }
    }
}

} // verus!
