use vstd::prelude::*;

use crate::address::{opt_key, Address};
use crate::balances::BalanceBook;

verus! {

/// The ways an operation of the NFT contract can be refused.
#[derive(Debug, Clone, Copy, PartialEq, Eq, Structural)]
pub enum ContractError {
    Unauthorized,
    TokenNotFound,
    NotOwner,
    AlreadyInitialized,
}

/// Published when a token is minted.
#[derive(Debug)]
pub struct MintEvent {
    pub owner: Address,
    pub token_id: u32,
    pub uri: Vec<u8>,
}

/// Published when a token changes hands.
#[derive(Debug)]
pub struct TransferEvent {
    pub from: Address,
    pub to: Address,
    pub token_id: u32,
}

/// How many entries of `owners` are `a`.
pub open spec fn count_of(owners: Seq<Seq<char>>, a: Seq<char>) -> nat
    decreases owners.len(),
{
    if owners.len() == 0 {
        0
    } else {
        count_of(owners.drop_last(), a) + if owners.last() == a {
            1nat
        } else {
            0nat
        }
    }
}

/// The abstract state of the NFT contract: its admin, and for each token, in
/// the order of minting, its owner and its URI. Token `i + 1` is the one at
/// position `i`.
pub struct NftView {
    pub admin: Option<Seq<char>>,
    pub owners: Seq<Seq<char>>,
    pub uris: Seq<Seq<u8>>,
}

impl NftView {
    /// The state of a contract that was never initialized.
    pub open spec fn empty() -> NftView {
        NftView { admin: None, owners: Seq::empty(), uris: Seq::empty() }
    }

    pub open spec fn is_initialized(self) -> bool {
        self.admin is Some
    }

    /// Every token has a URI, and no token exists before initialization.
    pub open spec fn well_formed(self) -> bool {
        &&& self.uris.len() == self.owners.len()
        &&& (self.admin is None ==> self.owners.len() == 0)
    }

    /// The number of tokens minted so far.
    pub open spec fn total_supply(self) -> nat {
        self.owners.len()
    }

    /// The id that the next mint hands out.
    pub open spec fn next_token_id(self) -> nat {
        self.owners.len() + 1
    }

    pub open spec fn has_token(self, token_id: u32) -> bool {
        1 <= token_id <= self.owners.len()
    }

    pub open spec fn owner_of(self, token_id: u32) -> Result<Seq<char>, ContractError> {
        if self.has_token(token_id) {
            Ok(self.owners[token_id - 1])
        } else {
            Err(ContractError::TokenNotFound)
        }
    }

    pub open spec fn token_uri(self, token_id: u32) -> Result<Seq<u8>, ContractError> {
        if self.has_token(token_id) {
            Ok(self.uris[token_id - 1])
        } else {
            Err(ContractError::TokenNotFound)
        }
    }

    /// The number of tokens that `owner` holds.
    pub open spec fn balance_of(self, owner: Seq<char>) -> nat {
        count_of(self.owners, owner)
    }

    pub open spec fn initialize(self, admin: Seq<char>) -> Result<NftView, ContractError> {
        if self.is_initialized() {
            Err(ContractError::AlreadyInitialized)
        } else {
            Ok(NftView { admin: Some(admin), ..self })
        }
    }

    /// The state after minting a token for `to`; its id is `self.next_token_id()`.
    pub open spec fn mint(self, to: Seq<char>, uri: Seq<u8>) -> NftView {
        NftView { owners: self.owners.push(to), uris: self.uris.push(uri), ..self }
    }

    pub open spec fn transfer(self, from: Seq<char>, to: Seq<char>, token_id: u32) -> Result<
        NftView,
        ContractError,
    > {
        if !self.has_token(token_id) {
            Err(ContractError::TokenNotFound)
        } else if self.owners[token_id - 1] != from {
            Err(ContractError::NotOwner)
        } else {
            Ok(NftView { owners: self.owners.update(token_id - 1, to), ..self })
        }
    }
}

pub proof fn lemma_count_push(s: Seq<Seq<char>>, x: Seq<char>, a: Seq<char>)
    ensures
        count_of(s.push(x), a) == count_of(s, a) + if x == a {
            1nat
        } else {
            0nat
        },
{
    assert(s.push(x).drop_last() =~= s);
}

pub proof fn lemma_count_update(s: Seq<Seq<char>>, i: int, x: Seq<char>, a: Seq<char>)
    requires
        0 <= i < s.len(),
    ensures
        count_of(s.update(i, x), a) + (if s[i] == a {
            1nat
        } else {
            0nat
        }) == count_of(s, a) + if x == a {
            1nat
        } else {
            0nat
        },
    decreases s.len(),
{
    let u = s.update(i, x);
    assert(s.last() == s[s.len() - 1]);
    assert(u.last() == u[u.len() - 1]);
    if i == s.len() - 1 {
        assert(u.drop_last() =~= s.drop_last());
    } else {
        assert(u.drop_last() =~= s.drop_last().update(i, x));
        assert(s.drop_last()[i] == s[i]);
        lemma_count_update(s.drop_last(), i, x, a);
    }
}

pub proof fn lemma_count_bounds(s: Seq<Seq<char>>, a: Seq<char>, b: Seq<char>)
    requires
        a != b,
    ensures
        count_of(s, a) + count_of(s, b) <= s.len(),
    decreases s.len(),
{
    if s.len() > 0 {
        lemma_count_bounds(s.drop_last(), a, b);
    }
}

pub proof fn lemma_count_le_len(s: Seq<Seq<char>>, a: Seq<char>)
    ensures
        count_of(s, a) <= s.len(),
    decreases s.len(),
{
    if s.len() > 0 {
        lemma_count_le_len(s.drop_last(), a);
    }
}

pub proof fn lemma_count_positive(s: Seq<Seq<char>>, i: int)
    requires
        0 <= i < s.len(),
    ensures
        count_of(s, s[i]) >= 1,
    decreases s.len(),
{
    assert(s.last() == s[s.len() - 1]);
    if i < s.len() - 1 {
        assert(s.drop_last()[i] == s[i]);
        lemma_count_positive(s.drop_last(), i);
    }
}

/// A copy of a byte string.
fn copy_bytes(v: &Vec<u8>) -> (r: Vec<u8>)
    ensures
        r@ == v@,
{
    let r = v.clone();
    assert(r@ =~= v@);
    r
}

/// The NFT contract's storage: the admin, the token counter, the total supply,
/// the owner and URI of each token, and the number of tokens of each holder.
pub struct NftContract {
    admin: Option<Address>,
    counter: u32,
    total_supply: u32,
    owners: Vec<Address>,
    uris: Vec<Vec<u8>>,
    balances: BalanceBook,
}

impl View for NftContract {
    type V = NftView;

    closed spec fn view(&self) -> NftView {
        NftView {
            admin: opt_key(self.admin),
            owners: self.owners@.map_values(|a: Address| a@),
            uris: self.uris@.map_values(|u: Vec<u8>| u@),
        }
    }
}

impl NftContract {
    /// The storage is consistent: the counter and the total supply both count
    /// the minted tokens, nothing is minted before initialization, and the
    /// recorded balance of every holder is the number of tokens it owns.
    pub closed spec fn well_formed(&self) -> bool {
        &&& self.counter as nat == self.owners@.len()
        &&& self.total_supply == self.counter
        &&& self.uris@.len() == self.owners@.len()
        &&& (self.admin is None ==> self.counter == 0)
        &&& self.balances.well_formed()
        &&& forall|a: Seq<char>| #[trigger]
            self.balances.amount(a) == count_of(self@.owners, a)
        &&& self.balances.total() == self.counter
    }

    /// The balance that the contract records for `a` (0 where it has no record).
    pub closed spec fn recorded_balance(&self, a: Seq<char>) -> nat {
        self.balances.amount(a)
    }

    /// The sum of the balances that the contract records for all holders.
    pub closed spec fn recorded_balance_total(&self) -> nat {
        self.balances.total()
    }

    /// A consistent storage has a well-formed view.
    pub proof fn lemma_view_well_formed(&self)
        requires
            self.well_formed(),
        ensures
            self@.well_formed(),
    {
    }

    /// In a consistent storage the recorded balance of each holder is the
    /// number of tokens it owns, and the recorded balances add up to the total
    /// supply.
    pub proof fn lemma_recorded_total(&self)
        requires
            self.well_formed(),
        ensures
            self.recorded_balance_total() == self@.total_supply(),
            forall|a: Seq<char>| #[trigger] self.recorded_balance(a) == count_of(self@.owners, a),
    {
    }

    /// A contract whose storage is empty.
    pub fn new() -> (c: NftContract)
        ensures
            c.well_formed(),
            c@ == NftView::empty(),
    {
        let c = NftContract {
            admin: None,
            counter: 0,
            total_supply: 0,
            owners: Vec::new(),
            uris: Vec::new(),
            balances: BalanceBook::new(),
        };
        assert(c@.owners =~= Seq::<Seq<char>>::empty());
        assert(c@.uris =~= Seq::<Seq<u8>>::empty());
        c
    }

    /// Rebuilds the storage of a contract from its admin and its tokens, given
    /// in the order of their ids as (owner, URI) pairs; the balances are
    /// counted anew. `None` where tokens are given without an admin, or where
    /// there are more tokens than ids.
    pub fn restore(admin: Option<Address>, tokens: &Vec<(Address, Vec<u8>)>) -> (r: Option<
        NftContract,
    >)
        ensures
            r is None <==> ((admin is None && tokens@.len() > 0) || tokens@.len() > u32::MAX),
            r matches Some(c) ==> c.well_formed() && c@ == (NftView {
                admin: opt_key(admin),
                owners: tokens@.map_values(|t: (Address, Vec<u8>)| t.0@),
                uris: tokens@.map_values(|t: (Address, Vec<u8>)| t.1@),
            }),
    {
        let n = tokens.len();
        if n > 0xffff_ffff || (admin.is_none() && n > 0) {
            return None;
        }
        let mut c = NftContract::new();
        match admin {
            Some(a) => {
                let _ = c.initialize(a);
            },
            None => {},
        }
        for i in 0..n
            invariant
                n == tokens@.len(),
                n <= u32::MAX,
                c.well_formed(),
                c@.admin == opt_key(admin),
                admin is None ==> n == 0,
                c@.owners == tokens@.take(i as int).map_values(|t: (Address, Vec<u8>)| t.0@),
                c@.uris == tokens@.take(i as int).map_values(|t: (Address, Vec<u8>)| t.1@),
        {
            c.mint(tokens[i].0.copy(), tokens[i].1.clone());
            assert(tokens@.take(i + 1) =~= tokens@.take(i as int).push(tokens@[i as int]));
            assert(c@.owners =~= tokens@.take(i + 1).map_values(|t: (Address, Vec<u8>)| t.0@));
            assert(c@.uris =~= tokens@.take(i + 1).map_values(|t: (Address, Vec<u8>)| t.1@));
        }
        assert(tokens@.take(n as int) =~= tokens@);
        Some(c)
    }

    /// The admin, once the contract is initialized: the address whose
    /// authorization a mint needs (see `laws::nft_authorizer`).
    pub fn admin(&self) -> (r: Option<&Address>)
        ensures
            match r {
                Some(a) => self@.admin == Some(a@),
                None => self@.admin is None,
            },
    {
        match &self.admin {
            Some(a) => Some(a),
            None => None,
        }
    }

    /// Sets the admin and starts the token counter and the total supply at 0.
    /// Refused with `AlreadyInitialized` where an admin is already set.
    pub fn initialize(&mut self, admin: Address) -> (r: Result<(), ContractError>)
        requires
            old(self).well_formed(),
        ensures
            final(self).well_formed(),
            match old(self)@.initialize(admin@) {
                Ok(v) => r is Ok && final(self)@ == v,
                Err(e) => r == Err::<(), ContractError>(e) && final(self)@ == old(self)@,
            },
    {
        if self.admin.is_some() {
            return Err(ContractError::AlreadyInitialized);
        }
        self.admin = Some(admin);
        self.counter = 0;
        self.total_supply = 0;
        Ok(())
    }

    /// Mints the next token for `to` with the given URI, and returns its id and
    /// the event to publish. Minting needs the authorization of the admin,
    /// `self@.admin` (as `admin()` returns it; see `laws::nft_authorizer`),
    /// which the caller checks first.
    pub fn mint(&mut self, to: Address, uri: Vec<u8>) -> (r: (u32, MintEvent))
        requires
            old(self).well_formed(),
            old(self)@.is_initialized(),
            old(self)@.total_supply() < u32::MAX,
        ensures
            final(self).well_formed(),
            final(self)@ == old(self)@.mint(to@, uri@),
            r.0 == old(self)@.next_token_id(),
            r.1.owner@ == to@,
            r.1.token_id == r.0,
            r.1.uri@ == uri@,
    {
        let ghost old_owners = self@.owners;
        let token_id = self.counter;
        let next_id = token_id + 1;
        self.counter = next_id;
        self.owners.push(to.copy());
        self.uris.push(copy_bytes(&uri));
        proof {
            assert(self@.owners =~= old_owners.push(to@));
            lemma_count_le_len(old_owners, to@);
        }
        let owner_balance = self.balances.get(&to);
        self.balances.set(&to, owner_balance + 1);
        self.total_supply = self.total_supply + 1;
        proof {
            assert forall|a: Seq<char>| #[trigger]
                self.balances.amount(a) == count_of(self@.owners, a) by {
                lemma_count_push(old_owners, to@, a);
            }
            assert(self@.uris =~= old(self)@.uris.push(uri@));
        }
        (next_id, MintEvent { owner: to, token_id: next_id, uri })
    }

    /// The owner of a token; `TokenNotFound` where no token has that id.
    pub fn owner_of(&self, token_id: u32) -> (r: Result<Address, ContractError>)
        requires
            self.well_formed(),
        ensures
            match self@.owner_of(token_id) {
                Ok(o) => r matches Ok(a) && a@ == o,
                Err(e) => r matches Err(f) && f == e,
            },
    {
        if token_id == 0 || token_id > self.counter {
            return Err(ContractError::TokenNotFound);
        }
        let i = (token_id - 1) as usize;
        Ok(self.owners[i].copy())
    }

    /// The URI of a token; `TokenNotFound` where no token has that id.
    pub fn token_uri(&self, token_id: u32) -> (r: Result<Vec<u8>, ContractError>)
        requires
            self.well_formed(),
        ensures
            match self@.token_uri(token_id) {
                Ok(u) => r matches Ok(s) && s@ == u,
                Err(e) => r matches Err(f) && f == e,
            },
    {
        if token_id == 0 || token_id > self.counter {
            return Err(ContractError::TokenNotFound);
        }
        let i = (token_id - 1) as usize;
        Ok(copy_bytes(&self.uris[i]))
    }

    /// The number of tokens that `owner` holds.
    pub fn balance_of(&self, owner: &Address) -> (r: u32)
        requires
            self.well_formed(),
        ensures
            r as nat == self@.balance_of(owner@),
    {
        self.balances.get(owner)
    }

    /// The number of tokens minted so far.
    pub fn total_supply(&self) -> (r: u32)
        requires
            self.well_formed(),
        ensures
            r as nat == self@.total_supply(),
    {
        self.total_supply
    }

    /// Moves a token from `from` to `to` and returns the event to publish.
    /// Refused with `TokenNotFound` where no token has that id, and with
    /// `NotOwner` where `from` does not own it. The authorization of `from` is
    /// checked by the caller.
    pub fn transfer(&mut self, from: Address, to: Address, token_id: u32) -> (r: Result<
        TransferEvent,
        ContractError,
    >)
        requires
            old(self).well_formed(),
        ensures
            final(self).well_formed(),
            match old(self)@.transfer(from@, to@, token_id) {
                Ok(v) => r matches Ok(ev) && final(self)@ == v && ev.from@ == from@ && ev.to@
                    == to@ && ev.token_id == token_id,
                Err(e) => r matches Err(f) && f == e && final(self)@ == old(self)@,
            },
    {
        if token_id == 0 || token_id > self.counter {
            return Err(ContractError::TokenNotFound);
        }
        let i = (token_id - 1) as usize;
        if !self.owners[i].same_as(&from) {
            return Err(ContractError::NotOwner);
        }
        let ghost old_owners = self@.owners;
        self.owners.set(i, to.copy());
        proof {
            assert(self@.owners =~= old_owners.update(i as int, to@));
            lemma_count_positive(old_owners, i as int);
            lemma_count_le_len(old_owners, from@);
            if from@ != to@ {
                lemma_count_bounds(old_owners, from@, to@);
            }
        }
        let from_balance = self.balances.get(&from);
        self.balances.set(&from, from_balance - 1);
        let to_balance = self.balances.get(&to);
        self.balances.set(&to, to_balance + 1);
        proof {
            assert forall|a: Seq<char>| #[trigger]
                self.balances.amount(a) == count_of(self@.owners, a) by {
                lemma_count_update(old_owners, i as int, to@, a);
            }
        }
        Ok(TransferEvent { from, to, token_id })
    }
}

} // verus!
