//! The token-asset ledger application: balances and issuance are keyed by
//! the 20-byte token address in addition to the account.

use vstd::prelude::*;
use crate::bytes::{bytes_eq, copy_range};
use crate::errors::BridgeError;
use crate::events::{BridgeEvent, EventView, decode_event, event_view, spec_event};
use crate::ledger::{AccountId, AssetBook, bytes_to_account_id};
use crate::notify::{Notification, NoteView, note_view, notes_view};
use crate::u256::{U256, u256_max};

verus! {

/// The ledger module that owns the token assets: one `AssetBook` per token
/// address, created lazily on first mint.
pub struct TokenApp {
    books: Vec<(Vec<u8>, AssetBook)>,
    notifications: Vec<Notification>,
}

/// The issuance recorded for token `t`, or zero when no book carries it.
pub open spec fn token_issuance_in(s: Seq<(Vec<u8>, AssetBook)>, t: Seq<u8>) -> nat
    decreases s.len(),
{
    if s.len() == 0 {
        0
    } else if s.last().0@ == t {
        s.last().1.issuance()
    } else {
        token_issuance_in(s.drop_last(), t)
    }
}

/// The balance of account `k` in token `t`, or zero when no book carries it.
pub open spec fn token_balance_in(s: Seq<(Vec<u8>, AssetBook)>, t: Seq<u8>, k: Seq<u8>) -> nat
    decreases s.len(),
{
    if s.len() == 0 {
        0
    } else if s.last().0@ == t {
        s.last().1.balance_of(k)
    } else {
        token_balance_in(s.drop_last(), t, k)
    }
}

/// No two books carry the same token address.
pub open spec fn distinct_tokens(s: Seq<(Vec<u8>, AssetBook)>) -> bool {
    forall|i: int, j: int| 0 <= i < j < s.len() ==> s[i].0@ != s[j].0@
}

/// Every book satisfies the ledger invariant.
pub open spec fn books_wf(s: Seq<(Vec<u8>, AssetBook)>) -> bool {
    forall|i: int| 0 <= i < s.len() ==> s[i].1.wf()
}

/// Nothing observable about the token ledger changed.
pub open spec fn token_unchanged(pre: TokenApp, post: TokenApp) -> bool {
    &&& forall|t: Seq<u8>| post.issuance_of(t) == pre.issuance_of(t)
    &&& forall|t: Seq<u8>, k: Seq<u8>| post.balance_of(t, k) == pre.balance_of(t, k)
    &&& post.notes() == pre.notes()
}

/// How handling one decoded event relates the token-ledger states;
/// symmetric to the native case, with the decoded token address as the
/// asset key.
pub open spec fn token_applies(
    pre: TokenApp,
    post: TokenApp,
    ev: EventView,
    r: Result<(), BridgeError>,
) -> bool {
    match ev {
        EventView::Token { token, sender, recipient, amount } => {
            if recipient.len() != 32 {
                r == Err::<(), BridgeError>(BridgeError::InvalidRecipient)
                    && token_unchanged(pre, post)
            } else if amount == 0 {
                r is Ok && token_unchanged(pre, post)
            } else if pre.issuance_of(token) + amount > u256_max() {
                r == Err::<(), BridgeError>(BridgeError::TotalMintingOverflow)
                    && token_unchanged(pre, post)
            } else {
                &&& r is Ok
                &&& post.issuance_of(token) == pre.issuance_of(token) + amount
                &&& post.balance_of(token, recipient) == pre.balance_of(token, recipient)
                    + amount
                &&& forall|t: Seq<u8>| t != token ==> post.issuance_of(t) == pre.issuance_of(t)
                &&& forall|t: Seq<u8>, k: Seq<u8>| !(t == token && k == recipient)
                    ==> post.balance_of(t, k) == pre.balance_of(t, k)
                &&& post.notes() == pre.notes().push(
                    NoteView::TokenMinted { account: recipient, token, amount },
                )
            }
        },
        _ => r is Ok && token_unchanged(pre, post),
    }
}

impl TokenApp {
    /// The total issuance of one token asset.
    pub closed spec fn issuance_of(&self, t: Seq<u8>) -> nat {
        token_issuance_in(self.books@, t)
    }

    /// The free balance of one account in one token asset.
    pub closed spec fn balance_of(&self, t: Seq<u8>, k: Seq<u8>) -> nat {
        token_balance_in(self.books@, t, k)
    }

    /// The notifications emitted so far, oldest first.
    pub closed spec fn notes(&self) -> Seq<NoteView> {
        notes_view(self.notifications@)
    }

    /// The ledger invariant, per token book.
    pub closed spec fn wf(&self) -> bool {
        distinct_tokens(self.books@) && books_wf(self.books@)
    }

    /// A consequence of the ledger invariant, for every asset and every
    /// reachable state: no single balance can exceed the asset's issuance.
    pub proof fn lemma_balance_le_issuance(&self, t: Seq<u8>, k: Seq<u8>)
        requires
            self.wf(),
        ensures
            self.balance_of(t, k) <= self.issuance_of(t),
    {
        lemma_token_balance_le_issuance(self.books@, t, k);
    }

    /// A fresh token ledger: no books, no notifications.
    pub fn new() -> (r: TokenApp)
        ensures
            r.wf(),
            forall|t: Seq<u8>| r.issuance_of(t) == 0,
            forall|t: Seq<u8>, k: Seq<u8>| r.balance_of(t, k) == 0,
            r.notes() == Seq::<NoteView>::empty(),
    {
        let r = TokenApp { books: Vec::new(), notifications: Vec::new() };
        proof {
            assert(r.notes() =~= Seq::<NoteView>::empty());
        }
        r
    }

    /// The index of the book for `token`, if one exists.
    fn find_token(&self, token: &Vec<u8>) -> (r: Option<usize>)
        ensures
            match r {
                Some(i) => i < self.books@.len() && self.books@[i as int].0@ == token@,
                None => forall|j: int|
                    0 <= j < self.books@.len() ==> self.books@[j].0@ != token@,
            },
    {
        let n = self.books.len();
        let mut i: usize = 0;
        while i < n
            invariant
                n == self.books@.len(),
                i <= n,
                forall|j: int| 0 <= j < i ==> self.books@[j].0@ != token@,
            decreases n - i,
        {
            if bytes_eq(&self.books[i].0, token) {
                return Some(i);
            }
            i += 1;
        }
        None
    }

    /// Read an account's free balance in one token.
    pub fn balance(&self, token: &Vec<u8>, who: &AccountId) -> (r: U256)
        requires
            self.wf(),
        ensures
            r@ == self.balance_of(token@, who@),
    {
        match self.find_token(token) {
            Some(i) => {
                proof {
                    lemma_token_at(self.books@, token@, i as int);
                }
                self.books[i].1.balance(who)
            },
            None => {
                proof {
                    lemma_token_absent(self.books@, token@);
                }
                U256::zero()
            },
        }
    }

    /// Read the total issuance of one token.
    pub fn issuance_value(&self, token: &Vec<u8>) -> (r: U256)
        requires
            self.wf(),
        ensures
            r@ == self.issuance_of(token@),
    {
        match self.find_token(token) {
            Some(i) => {
                proof {
                    lemma_token_at(self.books@, token@, i as int);
                }
                self.books[i].1.issuance_value()
            },
            None => {
                proof {
                    lemma_token_absent(self.books@, token@);
                }
                U256::zero()
            },
        }
    }

    /// The notifications emitted so far.
    pub fn notifications(&self) -> (r: &Vec<Notification>)
        ensures
            notes_view(r@) == self.notes(),
    {
        &self.notifications
    }

    /// Mint a token asset into an account and emit one `TokenMinted`
    /// notification; a zero amount is a silent no-op and a failure changes
    /// nothing.  A first mint for a token creates its book.
    pub fn do_mint(&mut self, token: &Vec<u8>, to: &AccountId, amount: &U256) -> (r: Result<
        (),
        BridgeError,
    >)
        requires
            old(self).wf(),
        ensures
            final(self).wf(),
            r is Ok <==> (amount@ == 0 || old(self).issuance_of(token@) + amount@
                <= u256_max()),
            r is Err ==> r == Err::<(), BridgeError>(BridgeError::TotalMintingOverflow)
                && token_unchanged(*old(self), *final(self)),
            amount@ == 0 ==> token_unchanged(*old(self), *final(self)),
            (r is Ok && amount@ != 0) ==> {
                &&& final(self).issuance_of(token@) == old(self).issuance_of(token@) + amount@
                &&& final(self).balance_of(token@, to@) == old(self).balance_of(token@, to@)
                    + amount@
                &&& forall|t: Seq<u8>| t != token@
                    ==> final(self).issuance_of(t) == old(self).issuance_of(t)
                &&& forall|t: Seq<u8>, k: Seq<u8>| !(t == token@ && k == to@)
                    ==> final(self).balance_of(t, k) == old(self).balance_of(t, k)
                &&& final(self).notes() == old(self).notes().push(
                    NoteView::TokenMinted { account: to@, token: token@, amount: amount@ },
                )
            },
    {
        if amount.is_zero() {
            return Ok(());
        }
        match self.find_token(token) {
            Some(i) => {
                let ghost pre = self.books@;
                proof {
                    lemma_token_at(pre, token@, i as int);
                }
                let pair = self.books.remove(i);
                let key = pair.0;
                let mut book = pair.1;
                let res = book.mint(to, amount);
                self.books.insert(i, (key, book));
                proof {
                    assert(self.books@ =~= pre.update(i as int, (pre[i as int].0, book)));
                    assert(forall|j: int| 0 <= j < self.books@.len()
                        ==> self.books@[j].0@ == pre[j].0@);
                    assert(distinct_tokens(self.books@));
                    assert forall|j: int| 0 <= j < self.books@.len()
                        implies self.books@[j].1.wf() by {
                        if j != i as int {
                            assert(self.books@[j].1 == pre[j].1);
                        }
                    }
                    lemma_token_at(self.books@, token@, i as int);
                    assert forall|t: Seq<u8>| t != token@
                        implies token_issuance_in(self.books@, t)
                            == token_issuance_in(pre, t) by {
                        lemma_token_update_other(pre, i as int, book, t);
                    }
                    assert forall|t: Seq<u8>, k: Seq<u8>| t != token@
                        implies token_balance_in(self.books@, t, k)
                            == token_balance_in(pre, t, k) by {
                        lemma_token_update_other(pre, i as int, book, t);
                    }
                }
                match res {
                    Ok(()) => {
                        proof {
                            assert forall|t: Seq<u8>, k: Seq<u8>| !(t == token@ && k == to@)
                                implies token_balance_in(self.books@, t, k)
                                    == token_balance_in(pre, t, k) by {
                                if t == token@ {
                                    assert(token_balance_in(self.books@, t, k)
                                        == book.balance_of(k));
                                }
                            }
                        }
                        let ghost pren = self.notifications@;
                        let tk = copy_range(token, 0, token.len());
                        proof {
                            assert(tk@ =~= token@);
                        }
                        let n = Notification::TokenMinted {
                            account: to.clone(),
                            token: tk,
                            amount: *amount,
                        };
                        self.notifications.push(n);
                        proof {
                            assert(notes_view(self.notifications@)
                                =~= notes_view(pren).push(note_view(n)));
                        }
                        Ok(())
                    },
                    Err(e) => {
                        proof {
                            assert forall|t: Seq<u8>|
                                token_issuance_in(self.books@, t)
                                    == token_issuance_in(pre, t) by {
                                if t == token@ {
                                    assert(token_issuance_in(self.books@, t)
                                        == book.issuance());
                                }
                            }
                            assert forall|t: Seq<u8>, k: Seq<u8>|
                                token_balance_in(self.books@, t, k)
                                    == token_balance_in(pre, t, k) by {
                                if t == token@ {
                                    assert(token_balance_in(self.books@, t, k)
                                        == book.balance_of(k));
                                    assert(token_balance_in(pre, t, k)
                                        == pre[i as int].1.balance_of(k));
                                }
                            }
                        }
                        Err(e)
                    },
                }
            },
            None => {
                proof {
                    lemma_token_absent(self.books@, token@);
                    amount.lemma_in_range();
                }
                let ghost pre = self.books@;
                let mut book = AssetBook::new();
                let res = book.mint(to, amount);
                match res {
                    Ok(()) => {
                        let key = copy_range(token, 0, token.len());
                        proof {
                            assert(key@ =~= token@);
                        }
                        self.books.push((key, book));
                        proof {
                            assert(self.books@.drop_last() =~= pre);
                            assert(self.books@.last().0@ == token@);
                            assert(distinct_tokens(self.books@));
                            assert forall|j: int| 0 <= j < self.books@.len()
                                implies self.books@[j].1.wf() by {
                                if j != self.books@.len() - 1 {
                                    assert(self.books@[j].1 == pre[j].1);
                                }
                            }
                            assert(token_issuance_in(self.books@, token@) == book.issuance());
                            assert forall|t: Seq<u8>| t != token@
                                implies token_issuance_in(self.books@, t)
                                    == token_issuance_in(pre, t) by {
                                assert(token_issuance_in(self.books@, t)
                                    == token_issuance_in(self.books@.drop_last(), t));
                            }
                            assert forall|t: Seq<u8>, k: Seq<u8>| !(t == token@ && k == to@)
                                implies token_balance_in(self.books@, t, k)
                                    == token_balance_in(pre, t, k) by {
                                if t == token@ {
                                    assert(token_balance_in(self.books@, t, k)
                                        == book.balance_of(k));
                                    lemma_token_absent(pre, t);
                                } else {
                                    assert(token_balance_in(self.books@, t, k)
                                        == token_balance_in(self.books@.drop_last(), t, k));
                                }
                            }
                            assert(token_balance_in(self.books@, token@, to@)
                                == book.balance_of(to@));
                        }
                        let ghost pren = self.notifications@;
                        let tk = copy_range(token, 0, token.len());
                        proof {
                            assert(tk@ =~= token@);
                        }
                        let n = Notification::TokenMinted {
                            account: to.clone(),
                            token: tk,
                            amount: *amount,
                        };
                        self.notifications.push(n);
                        proof {
                            assert(notes_view(self.notifications@)
                                =~= notes_view(pren).push(note_view(n)));
                        }
                        Ok(())
                    },
                    Err(e) => {
                        // Unreachable: a fresh book has zero issuance and any
                        // single amount fits the 256-bit range.
                        proof {
                            assert(false);
                        }
                        Err(e)
                    },
                }
            },
        }
    }

    /// Apply one decoded bridge event to the token ledger.  A token
    /// transfer resolves its recipient and mints into the decoded token;
    /// every other event kind is deliberately a successful no-op.
    pub fn handle_event(&mut self, event: BridgeEvent) -> (r: Result<(), BridgeError>)
        requires
            old(self).wf(),
        ensures
            final(self).wf(),
            token_applies(*old(self), *final(self), event_view(event), r),
    {
        match event {
            BridgeEvent::TokenTransfer { token, sender: _, recipient, amount } => {
                let account = match bytes_to_account_id(&recipient) {
                    Some(account) => account,
                    None => {
                        return Err(BridgeError::InvalidRecipient);
                    }
                };
                self.do_mint(&token, &account, &amount)
            },
            _ => Ok(()),
        }
    }

    /// Decode a verified payload and apply the event it carries.
    pub fn handle_message(&mut self, payload: &Vec<u8>) -> (r: Result<(), BridgeError>)
        requires
            old(self).wf(),
        ensures
            final(self).wf(),
            spec_event(payload@) is None ==> r == Err::<(), BridgeError>(BridgeError::DecodeError)
                && token_unchanged(*old(self), *final(self)),
            spec_event(payload@) matches Some(ev)
                ==> token_applies(*old(self), *final(self), ev, r),
    {
        let event = match decode_event(payload) {
            Ok(ev) => ev,
            Err(e) => {
                return Err(e);
            }
        };
        self.handle_event(event)
    }
}

/// In a family of well-formed books, a balance never exceeds the issuance
/// of its token.
pub proof fn lemma_token_balance_le_issuance(s: Seq<(Vec<u8>, AssetBook)>, t: Seq<u8>, k: Seq<u8>)
    requires
        books_wf(s),
    ensures
        token_balance_in(s, t, k) <= token_issuance_in(s, t),
    decreases s.len(),
{
    if s.len() > 0 {
        if s.last().0@ == t {
            crate::ledger::lemma_balance_le_sum(s.last().1.entries(), k);
        } else {
            assert(books_wf(s.drop_last()));
            lemma_token_balance_le_issuance(s.drop_last(), t, k);
        }
    }
}

/// Under distinct token keys, the issuance and balances looked up for a
/// token are those of the book that carries it.
pub proof fn lemma_token_at(s: Seq<(Vec<u8>, AssetBook)>, t: Seq<u8>, i: int)
    requires
        distinct_tokens(s),
        0 <= i < s.len(),
        s[i].0@ == t,
    ensures
        token_issuance_in(s, t) == s[i].1.issuance(),
        forall|k: Seq<u8>| token_balance_in(s, t, k) == s[i].1.balance_of(k),
    decreases s.len(),
{
    if i == s.len() - 1 {
        assert forall|k: Seq<u8>| token_balance_in(s, t, k) == s[i].1.balance_of(k) by {
            assert(s.last().0@ == t);
        }
    } else {
        assert(s.last().0@ != t);
        assert(distinct_tokens(s.drop_last()));
        assert(s.drop_last()[i] == s[i]);
        lemma_token_at(s.drop_last(), t, i);
        assert forall|k: Seq<u8>| token_balance_in(s, t, k) == s[i].1.balance_of(k) by {
            assert(token_balance_in(s, t, k) == token_balance_in(s.drop_last(), t, k));
        }
    }
}

/// A token carried by no book has zero issuance and zero balances.
pub proof fn lemma_token_absent(s: Seq<(Vec<u8>, AssetBook)>, t: Seq<u8>)
    requires
        forall|j: int| 0 <= j < s.len() ==> s[j].0@ != t,
    ensures
        token_issuance_in(s, t) == 0,
        forall|k: Seq<u8>| token_balance_in(s, t, k) == 0,
    decreases s.len(),
{
    if s.len() > 0 {
        lemma_token_absent(s.drop_last(), t);
        assert forall|k: Seq<u8>| token_balance_in(s, t, k) == 0 by {
            assert(s.last().0@ != t);
            assert(token_balance_in(s, t, k) == token_balance_in(s.drop_last(), t, k));
        }
    } else {
        assert forall|k: Seq<u8>| token_balance_in(s, t, k) == 0 by {
            assert(s.len() == 0);
        }
    }
}

/// Replacing one token's book leaves every other token's view unchanged.
pub proof fn lemma_token_update_other(
    s: Seq<(Vec<u8>, AssetBook)>,
    i: int,
    b: AssetBook,
    t: Seq<u8>,
)
    requires
        0 <= i < s.len(),
        t != s[i].0@,
    ensures
        token_issuance_in(s.update(i, (s[i].0, b)), t) == token_issuance_in(s, t),
        forall|k: Seq<u8>|
            token_balance_in(s.update(i, (s[i].0, b)), t, k) == token_balance_in(s, t, k),
    decreases s.len(),
{
    let s2 = s.update(i, (s[i].0, b));
    if i == s.len() - 1 {
        assert(s2.last().0@ == s.last().0@);
        assert(s2.drop_last() =~= s.drop_last());
        assert forall|k: Seq<u8>|
            token_balance_in(s2, t, k) == token_balance_in(s, t, k) by {
            assert(token_balance_in(s2, t, k) == token_balance_in(s2.drop_last(), t, k));
        }
    } else {
        assert(s2.last() == s.last());
        assert(s2.drop_last() =~= s.drop_last().update(i, (s.drop_last()[i].0, b)));
        lemma_token_update_other(s.drop_last(), i, b, t);
        assert forall|k: Seq<u8>|
            token_balance_in(s2, t, k) == token_balance_in(s, t, k) by {
            if s.last().0@ == t {
            } else {
                assert(token_balance_in(s2, t, k) == token_balance_in(s2.drop_last(), t, k));
                assert(token_balance_in(s, t, k) == token_balance_in(s.drop_last(), t, k));
            }
        }
    }
}

} // verus!
