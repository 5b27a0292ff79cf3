//! Outbound notifications: one per successful ledger mutation, consumed by
//! the surrounding runtime for observability.  No notification is emitted
//! for a failed or zero-amount mutation.

use vstd::prelude::*;
use crate::ledger::AccountId;
use crate::u256::U256;

verus! {

/// A notification of a successful ledger mutation.
pub enum Notification {
    /// The native asset was minted into an account.
    Minted { account: AccountId, amount: U256 },
    /// The native asset was burned from an account.
    Burned { account: AccountId, amount: U256 },
    /// A token asset was minted into an account.
    TokenMinted { account: AccountId, token: Vec<u8>, amount: U256 },
}

/// The abstract value of a notification.
pub enum NoteView {
    /// The native asset was minted.
    Minted { account: Seq<u8>, amount: nat },
    /// The native asset was burned.
    Burned { account: Seq<u8>, amount: nat },
    /// A token asset was minted.
    TokenMinted { account: Seq<u8>, token: Seq<u8>, amount: nat },
}

/// The abstract value of a notification.
pub open spec fn note_view(n: Notification) -> NoteView {
    match n {
        Notification::Minted { account, amount } => NoteView::Minted {
            account: account@,
            amount: amount@,
        },
        Notification::Burned { account, amount } => NoteView::Burned {
            account: account@,
            amount: amount@,
        },
        Notification::TokenMinted { account, token, amount } => NoteView::TokenMinted {
            account: account@,
            token: token@,
            amount: amount@,
        },
    }
}

/// The abstract values of a sequence of notifications.
pub open spec fn notes_view(s: Seq<Notification>) -> Seq<NoteView> {
    Seq::new(s.len(), |i: int| note_view(s[i]))
}

} // verus!
