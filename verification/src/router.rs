//! The application router and the pipeline entry point: raw bytes are
//! split and verified, then forwarded by application identifier to the
//! ledger module that owns the asset class.  Every failure is terminal for
//! the single message and leaves all state untouched.

use vstd::prelude::*;
use crate::bytes::copy_range;
use crate::errors::BridgeError;
use crate::events::spec_event;
use crate::message::{decode_signed, spec_split, spec_verify, verify};
use crate::native::{NativeApp, native_applies, native_unchanged};
use crate::token::{TokenApp, token_applies, token_unchanged};

verus! {

/// The application identifier of the native-asset ledger.
pub const APP_NATIVE: u32 = 0;

/// The application identifier of the token ledger.
pub const APP_TOKEN: u32 = 1;

/// The bridge: the registry of ledger modules, keyed by application
/// identifier.
pub struct Bridge {
    native: NativeApp,
    token: TokenApp,
}

/// Neither ledger module changed.
pub open spec fn bridge_unchanged(pre: Bridge, post: Bridge) -> bool {
    native_unchanged(pre.native_app(), post.native_app())
        && token_unchanged(pre.token_app(), post.token_app())
}

impl Bridge {
    /// The native-asset ledger module.
    pub closed spec fn native_app(&self) -> NativeApp {
        self.native
    }

    /// The token ledger module.
    pub closed spec fn token_app(&self) -> TokenApp {
        self.token
    }

    /// Both ledger modules satisfy their invariants.
    pub open spec fn wf(&self) -> bool {
        self.native_app().wf() && self.token_app().wf()
    }

    /// A fresh bridge with empty ledgers.
    pub fn new() -> (r: Bridge)
        ensures
            r.wf(),
            r.native_app().issuance() == 0,
            forall|k: Seq<u8>| r.native_app().balance_of(k) == 0,
            forall|t: Seq<u8>| r.token_app().issuance_of(t) == 0,
            forall|t: Seq<u8>, k: Seq<u8>| r.token_app().balance_of(t, k) == 0,
            r.native_app().notes().len() == 0,
            r.token_app().notes().len() == 0,
    {
        Bridge { native: NativeApp::new(), token: TokenApp::new() }
    }

    /// Borrow the native-asset ledger module.
    pub fn native(&self) -> (r: &NativeApp)
        ensures
            *r == self.native_app(),
    {
        &self.native
    }

    /// Borrow the token ledger module.
    pub fn token(&self) -> (r: &TokenApp)
        ensures
            *r == self.token_app(),
    {
        &self.token
    }

    /// Mutably borrow the native-asset ledger module (for locally-initiated
    /// operations such as burning).
    pub fn native_mut(&mut self) -> (r: &mut NativeApp)
        ensures
            *r == old(self).native_app(),
            final(self).native_app() == *final(r),
            final(self).token_app() == old(self).token_app(),
    {
        &mut self.native
    }

    /// The sole inbound entry point: split the raw message, check its
    /// attestation, route the verified payload to the module registered for
    /// `app_id`, and apply the event it carries.  Fails closed at every
    /// stage: a malformed buffer, a bad attestation, an unknown application
    /// or an undecodable payload each reject the message with its own error
    /// and no state change.
    pub fn handle(&mut self, app_id: u32, message: &Vec<u8>) -> (r: Result<(), BridgeError>)
        requires
            old(self).wf(),
        ensures
            final(self).wf(),
            spec_split(message@) is None ==> r == Err::<(), BridgeError>(
                BridgeError::MalformedEncoding,
            ) && bridge_unchanged(*old(self), *final(self)),
            spec_split(message@) matches Some((payload, sig)) ==> {
                &&& !spec_verify(payload, sig) ==> r == Err::<(), BridgeError>(
                    BridgeError::VerificationFailure,
                ) && bridge_unchanged(*old(self), *final(self))
                &&& (spec_verify(payload, sig) && app_id != APP_NATIVE && app_id != APP_TOKEN)
                    ==> r == Err::<(), BridgeError>(BridgeError::UnknownApplication)
                        && bridge_unchanged(*old(self), *final(self))
                &&& (spec_verify(payload, sig) && app_id == APP_NATIVE) ==> {
                    &&& final(self).token_app() == old(self).token_app()
                    &&& spec_event(payload) is None ==> r == Err::<(), BridgeError>(
                        BridgeError::DecodeError,
                    ) && native_unchanged(old(self).native_app(), final(self).native_app())
                    &&& spec_event(payload) matches Some(ev) ==> native_applies(
                        old(self).native_app(),
                        final(self).native_app(),
                        ev,
                        r,
                    )
                }
                &&& (spec_verify(payload, sig) && app_id == APP_TOKEN) ==> {
                    &&& final(self).native_app() == old(self).native_app()
                    &&& spec_event(payload) is None ==> r == Err::<(), BridgeError>(
                        BridgeError::DecodeError,
                    ) && token_unchanged(old(self).token_app(), final(self).token_app())
                    &&& spec_event(payload) matches Some(ev) ==> token_applies(
                        old(self).token_app(),
                        final(self).token_app(),
                        ev,
                        r,
                    )
                }
            },
    {
        let sm = match decode_signed(message) {
            Ok(sm) => sm,
            Err(e) => {
                return Err(e);
            }
        };
        let payload = copy_range(&sm.data, 0, sm.data.len());
        proof {
            assert(payload@ =~= sm.data@);
        }
        if !verify(sm.data, sm.signature) {
            return Err(BridgeError::VerificationFailure);
        }
        if app_id == APP_NATIVE {
            self.native.handle_message(&payload)
        } else if app_id == APP_TOKEN {
            self.token.handle_message(&payload)
        } else {
            Err(BridgeError::UnknownApplication)
        }
    }
}

} // verus!
