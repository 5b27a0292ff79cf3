//! The native-asset ledger application: one global issuance counter, one
//! balance per account, mint driven by decoded bridge events and burn
//! initiated by local accounts.

use vstd::prelude::*;
use crate::errors::BridgeError;
use crate::events::{BridgeEvent, EventView, decode_event, event_view, spec_event};
use crate::ledger::{AccountId, AssetBook, bytes_to_account_id};
use crate::notify::{Notification, NoteView, note_view, notes_view};
use crate::u256::{U256, u256_max};

verus! {

/// The ledger module that owns the native asset.
pub struct NativeApp {
    book: AssetBook,
    notifications: Vec<Notification>,
}

/// Nothing observable about the native ledger changed.
pub open spec fn native_unchanged(pre: NativeApp, post: NativeApp) -> bool {
    &&& post.issuance() == pre.issuance()
    &&& forall|k: Seq<u8>| post.balance_of(k) == pre.balance_of(k)
    &&& post.notes() == pre.notes()
}

/// How handling one decoded event relates the ledger states: an event of a
/// foreign kind is a successful no-op; a native transfer either fails
/// closed (bad recipient, or issuance overflow) with nothing changed, or
/// mints the amount into the recipient's account and emits one
/// notification; a zero amount succeeds without a notification.
pub open spec fn native_applies(
    pre: NativeApp,
    post: NativeApp,
    ev: EventView,
    r: Result<(), BridgeError>,
) -> bool {
    match ev {
        EventView::Native { sender, recipient, amount } => {
            if recipient.len() != 32 {
                r == Err::<(), BridgeError>(BridgeError::InvalidRecipient)
                    && native_unchanged(pre, post)
            } else if amount == 0 {
                r is Ok && native_unchanged(pre, post)
            } else if pre.issuance() + amount > u256_max() {
                r == Err::<(), BridgeError>(BridgeError::TotalMintingOverflow)
                    && native_unchanged(pre, post)
            } else {
                &&& r is Ok
                &&& post.issuance() == pre.issuance() + amount
                &&& post.balance_of(recipient) == pre.balance_of(recipient) + amount
                &&& forall|k: Seq<u8>| k != recipient
                    ==> post.balance_of(k) == pre.balance_of(k)
                &&& post.notes() == pre.notes().push(
                    NoteView::Minted { account: recipient, amount },
                )
            }
        },
        _ => r is Ok && native_unchanged(pre, post),
    }
}

impl NativeApp {
    /// The total issuance of the native asset.
    pub closed spec fn issuance(&self) -> nat {
        self.book.issuance()
    }

    /// The free balance of one account.
    pub closed spec fn balance_of(&self, k: Seq<u8>) -> nat {
        self.book.balance_of(k)
    }

    /// The notifications emitted so far, oldest first.
    pub closed spec fn notes(&self) -> Seq<NoteView> {
        notes_view(self.notifications@)
    }

    /// The ledger invariant: issuance equals the sum of all balances.
    pub closed spec fn wf(&self) -> bool {
        self.book.wf()
    }

    /// A consequence of the ledger invariant, for every reachable state:
    /// no single balance can exceed the total issuance.
    pub proof fn lemma_balance_le_issuance(&self, k: Seq<u8>)
        requires
            self.wf(),
        ensures
            self.balance_of(k) <= self.issuance(),
    {
        crate::ledger::lemma_balance_le_sum(self.book.entries(), k);
    }

    /// A fresh native ledger: no accounts, zero issuance, no notifications.
    pub fn new() -> (r: NativeApp)
        ensures
            r.wf(),
            r.issuance() == 0,
            forall|k: Seq<u8>| r.balance_of(k) == 0,
            r.notes() == Seq::<NoteView>::empty(),
    {
        let r = NativeApp { book: AssetBook::new(), notifications: Vec::new() };
        proof {
            assert(r.notes() =~= Seq::<NoteView>::empty());
        }
        r
    }

    /// Read an account's free balance.
    pub fn balance(&self, who: &AccountId) -> (r: U256)
        requires
            self.wf(),
        ensures
            r@ == self.balance_of(who@),
    {
        self.book.balance(who)
    }

    /// Read the total issuance.
    pub fn issuance_value(&self) -> (r: U256)
        ensures
            r@ == self.issuance(),
    {
        self.book.issuance_value()
    }

    /// The notifications emitted so far.
    pub fn notifications(&self) -> (r: &Vec<Notification>)
        ensures
            notes_view(r@) == self.notes(),
    {
        &self.notifications
    }

    /// Mint the native asset into an account and emit one `Minted`
    /// notification; a zero amount is a silent no-op and a failure changes
    /// nothing.
    pub fn do_mint(&mut self, to: &AccountId, amount: &U256) -> (r: Result<(), BridgeError>)
        requires
            old(self).wf(),
        ensures
            final(self).wf(),
            r is Ok <==> (amount@ == 0 || old(self).issuance() + amount@ <= u256_max()),
            r is Err ==> r == Err::<(), BridgeError>(BridgeError::TotalMintingOverflow)
                && native_unchanged(*old(self), *final(self)),
            amount@ == 0 ==> native_unchanged(*old(self), *final(self)),
            (r is Ok && amount@ != 0) ==> {
                &&& final(self).issuance() == old(self).issuance() + amount@
                &&& final(self).balance_of(to@) == old(self).balance_of(to@) + amount@
                &&& forall|k: Seq<u8>| k != to@
                    ==> final(self).balance_of(k) == old(self).balance_of(k)
                &&& final(self).notes() == old(self).notes().push(
                    NoteView::Minted { account: to@, amount: amount@ },
                )
            },
    {
        if amount.is_zero() {
            return Ok(());
        }
        match self.book.mint(to, amount) {
            Ok(()) => {
                let ghost pre = self.notifications@;
                let n = Notification::Minted { account: to.clone(), amount: *amount };
                self.notifications.push(n);
                proof {
                    assert(notes_view(self.notifications@)
                        =~= notes_view(pre).push(note_view(n)));
                }
                Ok(())
            },
            Err(e) => Err(e),
        }
    }

    /// Burn the native asset from an account; no notification here — the
    /// public `burn` entry point emits it.
    pub fn do_burn(&mut self, to: &AccountId, amount: &U256) -> (r: Result<(), BridgeError>)
        requires
            old(self).wf(),
        ensures
            final(self).wf(),
            final(self).notes() == old(self).notes(),
            r is Ok <==> (amount@ == 0 || amount@ <= old(self).balance_of(to@)),
            r == Err::<(), BridgeError>(BridgeError::TotalBurningUnderflow)
                <==> (amount@ != 0 && amount@ > old(self).issuance()),
            r == Err::<(), BridgeError>(BridgeError::FreeBurningUnderflow)
                <==> (amount@ != 0 && amount@ <= old(self).issuance()
                    && amount@ > old(self).balance_of(to@)),
            (r is Err || amount@ == 0) ==> native_unchanged(*old(self), *final(self)),
            (r is Ok && amount@ != 0) ==> {
                &&& final(self).issuance() == old(self).issuance() - amount@
                &&& final(self).balance_of(to@) == old(self).balance_of(to@) - amount@
                &&& forall|k: Seq<u8>| k != to@
                    ==> final(self).balance_of(k) == old(self).balance_of(k)
            },
    {
        self.book.burn(to, amount)
    }

    /// Burn the native asset on behalf of a local account, emitting one
    /// `Burned` notification on a successful non-zero burn.
    pub fn burn(&mut self, who: &AccountId, amount: &U256) -> (r: Result<(), BridgeError>)
        requires
            old(self).wf(),
        ensures
            final(self).wf(),
            r is Ok <==> (amount@ == 0 || amount@ <= old(self).balance_of(who@)),
            r == Err::<(), BridgeError>(BridgeError::TotalBurningUnderflow)
                <==> (amount@ != 0 && amount@ > old(self).issuance()),
            r == Err::<(), BridgeError>(BridgeError::FreeBurningUnderflow)
                <==> (amount@ != 0 && amount@ <= old(self).issuance()
                    && amount@ > old(self).balance_of(who@)),
            (r is Err || amount@ == 0) ==> native_unchanged(*old(self), *final(self)),
            (r is Ok && amount@ != 0) ==> {
                &&& final(self).issuance() == old(self).issuance() - amount@
                &&& final(self).balance_of(who@) == old(self).balance_of(who@) - amount@
                &&& forall|k: Seq<u8>| k != who@
                    ==> final(self).balance_of(k) == old(self).balance_of(k)
                &&& final(self).notes() == old(self).notes().push(
                    NoteView::Burned { account: who@, amount: amount@ },
                )
            },
    {
        if amount.is_zero() {
            return Ok(());
        }
        match self.book.burn(who, amount) {
            Ok(()) => {
                let ghost pre = self.notifications@;
                let n = Notification::Burned { account: who.clone(), amount: *amount };
                self.notifications.push(n);
                proof {
                    assert(notes_view(self.notifications@)
                        =~= notes_view(pre).push(note_view(n)));
                }
                Ok(())
            },
            Err(e) => Err(e),
        }
    }

    /// Apply one decoded bridge event to the native ledger.  A native
    /// transfer resolves its recipient and mints; every other event kind is
    /// deliberately a successful no-op, so that a decoder predating new
    /// foreign event kinds does not halt the bridge.
    pub fn handle_event(&mut self, event: BridgeEvent) -> (r: Result<(), BridgeError>)
        requires
            old(self).wf(),
        ensures
            final(self).wf(),
            native_applies(*old(self), *final(self), event_view(event), r),
    {
        match event {
            BridgeEvent::NativeTransfer { sender: _, recipient, amount } => {
                let account = match bytes_to_account_id(&recipient) {
                    Some(account) => account,
                    None => {
                        return Err(BridgeError::InvalidRecipient);
                    }
                };
                self.do_mint(&account, &amount)
            },
            _ => Ok(()),
        }
    }

    /// Decode a verified payload and apply the event it carries.
    pub fn handle_message(&mut self, payload: &Vec<u8>) -> (r: Result<(), BridgeError>)
        requires
            old(self).wf(),
        ensures
            final(self).wf(),
            spec_event(payload@) is None ==> r == Err::<(), BridgeError>(BridgeError::DecodeError)
                && native_unchanged(*old(self), *final(self)),
            spec_event(payload@) matches Some(ev)
                ==> native_applies(*old(self), *final(self), ev, r),
    {
        let event = match decode_event(payload) {
            Ok(ev) => ev,
            Err(e) => {
                return Err(e);
            }
        };
        self.handle_event(event)
    }
}

} // verus!
