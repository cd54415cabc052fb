use vstd::prelude::*;

use crate::marketplace::{fee_for, ContractError as MarketError, ListingView, MarketView};
use crate::nft::{
    count_of, lemma_count_push, lemma_count_update, ContractError as NftError, NftContract,
    NftView,
};

verus! {

/// A contract is initialized at most once: once `initialize` succeeded, every
/// later `initialize` is refused with `AlreadyInitialized`.
pub proof fn law_nft_initialize_once(v: NftView, first: Seq<char>, second: Seq<char>)
    ensures
        v.initialize(first) matches Ok(w) ==> w.initialize(second) == Err::<NftView, NftError>(
            NftError::AlreadyInitialized,
        ),
{
}

/// Minting hands out the next id, makes `to` the owner of the new token with
/// the given URI, adds one to the balance of `to` and to the total supply, and
/// leaves every other balance as it was.
pub proof fn law_mint_then_query(v: NftView, to: Seq<char>, uri: Seq<u8>)
    requires
        v.well_formed(),
        v.total_supply() < u32::MAX,
    ensures
        ({
            let w = v.mint(to, uri);
            let id = v.next_token_id() as u32;
            &&& id as nat == v.total_supply() + 1
            &&& w.owner_of(id) == Ok::<Seq<char>, NftError>(to)
            &&& w.token_uri(id) == Ok::<Seq<u8>, NftError>(uri)
            &&& w.balance_of(to) == v.balance_of(to) + 1
            &&& forall|b: Seq<char>| b != to ==> #[trigger] w.balance_of(b) == v.balance_of(b)
            &&& w.total_supply() == v.total_supply() + 1
            &&& forall|t: u32| #[trigger]
                v.has_token(t) ==> w.owner_of(t) == v.owner_of(t) && w.token_uri(t)
                    == v.token_uri(t)
        }),
{
    let w = v.mint(to, uri);
    lemma_count_push(v.owners, to, to);
    assert forall|b: Seq<char>| b != to implies #[trigger] w.balance_of(b) == v.balance_of(b) by {
        lemma_count_push(v.owners, to, b);
    }
}

/// Two mints in a row hand out consecutive ids and add two to the total supply.
pub proof fn law_mints_are_numbered(
    v: NftView,
    first: Seq<char>,
    first_uri: Seq<u8>,
    second: Seq<char>,
    second_uri: Seq<u8>,
)
    requires
        v.total_supply() + 1 < u32::MAX,
    ensures
        ({
            let w = v.mint(first, first_uri);
            let x = w.mint(second, second_uri);
            &&& w.next_token_id() == v.next_token_id() + 1
            &&& x.total_supply() == v.total_supply() + 2
            &&& x.owner_of(v.next_token_id() as u32) == Ok::<Seq<char>, NftError>(first)
            &&& x.owner_of(w.next_token_id() as u32) == Ok::<Seq<char>, NftError>(second)
        }),
{
}

/// A transfer by the owner of a token makes `to` its owner, takes one from the
/// balance of `from` and adds one to that of `to` (where the two differ),
/// leaves every other balance and the total supply as they were.
pub proof fn law_transfer_moves_token(v: NftView, from: Seq<char>, to: Seq<char>, token_id: u32)
    requires
        v.owner_of(token_id) == Ok::<Seq<char>, NftError>(from),
    ensures
        v.transfer(from, to, token_id) matches Ok(w) && {
            &&& w.owner_of(token_id) == Ok::<Seq<char>, NftError>(to)
            &&& from != to ==> w.balance_of(from) + 1 == v.balance_of(from) && w.balance_of(to)
                == v.balance_of(to) + 1
            &&& from == to ==> w == v
            &&& forall|b: Seq<char>| b != from && b != to ==> #[trigger] w.balance_of(b)
                == v.balance_of(b)
            &&& w.total_supply() == v.total_supply()
        },
{
    let i = token_id - 1;
    let w = v.transfer(from, to, token_id)->Ok_0;
    lemma_count_update(v.owners, i, to, from);
    lemma_count_update(v.owners, i, to, to);
    assert forall|b: Seq<char>| b != from && b != to implies #[trigger] w.balance_of(b)
        == v.balance_of(b) by {
        lemma_count_update(v.owners, i, to, b);
    }
    if from == to {
        assert(w.owners =~= v.owners);
    }
}

/// Only the owner of a token can transfer it: anyone else is refused with
/// `NotOwner`, and an id that no token has is refused with `TokenNotFound`.
pub proof fn law_transfer_needs_owner(v: NftView, from: Seq<char>, to: Seq<char>, token_id: u32)
    ensures
        !v.has_token(token_id) ==> v.transfer(from, to, token_id) == Err::<NftView, NftError>(
            NftError::TokenNotFound,
        ),
        v.has_token(token_id) && v.owner_of(token_id) != Ok::<Seq<char>, NftError>(from)
            ==> v.transfer(from, to, token_id) == Err::<NftView, NftError>(NftError::NotOwner),
{
}

/// Transferring a token and transferring it back restores the contract's state.
pub proof fn law_transfer_round_trip(v: NftView, a: Seq<char>, b: Seq<char>, token_id: u32)
    requires
        v.owner_of(token_id) == Ok::<Seq<char>, NftError>(a),
    ensures
        v.transfer(a, b, token_id) matches Ok(w) && w.transfer(b, a, token_id) == Ok::<
            NftView,
            NftError,
        >(v),
{
    let w = v.transfer(a, b, token_id)->Ok_0;
    assert(w.transfer(b, a, token_id)->Ok_0.owners =~= v.owners);
}

/// The balance that the contract records for each holder is the number of
/// tokens it owns, and the recorded balances add up to the total supply.
pub proof fn law_recorded_balances(c: &NftContract, a: Seq<char>)
    requires
        c.well_formed(),
    ensures
        c.recorded_balance(a) == count_of(c@.owners, a),
        c.recorded_balance_total() == c@.total_supply(),
{
    c.lemma_recorded_total();
}

/// A marketplace is initialized at most once: once `initialize` succeeded,
/// every later `initialize` is refused with `Unauthorized`.
pub proof fn law_market_initialize_once(
    m: MarketView,
    first: Seq<char>,
    first_fee: u32,
    second: Seq<char>,
    second_fee: u32,
)
    ensures
        m.initialize(first, first_fee) matches Ok(w) ==> w.initialize(second, second_fee) == Err::<
            MarketView,
            MarketError,
        >(MarketError::Unauthorized),
{
}

/// Listing by the owner of a token stores an active listing of it under the
/// next id, which `get_listing` then returns, and counts one more listing.
/// Listing by anyone else is refused with `SellerDoesNotOwnToken`.
pub proof fn law_list_then_get(
    m: MarketView,
    seller: Seq<char>,
    nft_contract: Seq<char>,
    token_id: u32,
    payment_token: Seq<char>,
    price: i128,
    current_owner: Seq<char>,
)
    requires
        m.well_formed(),
        m.total_listings() < u64::MAX,
    ensures
        current_owner != seller ==> m.list_item(
            seller,
            nft_contract,
            token_id,
            payment_token,
            price,
            current_owner,
        ) == Err::<MarketView, MarketError>(MarketError::SellerDoesNotOwnToken),
        current_owner == seller ==> (m.list_item(
            seller,
            nft_contract,
            token_id,
            payment_token,
            price,
            current_owner,
        ) matches Ok(w) && w.get_listing(m.next_listing_id() as u64) == Ok::<
            ListingView,
            MarketError,
        >(ListingView { seller, nft_contract, token_id, payment_token, price, active: true })
            && w.total_listings() == m.total_listings() + 1),
{
}

/// `listing_id` is closed in `w`: shown inactive, and neither buying nor
/// cancelling it goes through.
pub open spec fn listing_closed(w: MarketView, listing_id: u64, buyer: Seq<char>, seller: Seq<char>) -> bool {
    &&& (w.get_listing(listing_id) matches Ok(l) && !l.active)
    &&& w.buy_item(buyer, listing_id) == Err::<MarketView, MarketError>(
        MarketError::ListingNotActive,
    )
    &&& w.cancel_listing(seller, listing_id) == Err::<MarketView, MarketError>(
        MarketError::ListingNotActive,
    )
}

/// A listing that was bought or cancelled is closed for good: `get_listing`
/// shows it inactive, and buying or cancelling it again is refused with
/// `ListingNotActive`.
pub proof fn law_closed_listing_stays_closed(
    m: MarketView,
    by: Seq<char>,
    listing_id: u64,
    buyer: Seq<char>,
    seller: Seq<char>,
)
    ensures
        m.buy_item(by, listing_id) matches Ok(w) ==> listing_closed(w, listing_id, buyer, seller),
        m.cancel_listing(by, listing_id) matches Ok(w) ==> listing_closed(
            w,
            listing_id,
            buyer,
            seller,
        ),
{
}

/// The seller's share and the fee add up to the price; where the price is not
/// negative and the fee is at most 10000 basis points, the fee lies between 0
/// and the price.
pub proof fn law_fee_split(price: i128, fee_bps: u32)
    ensures
        (price - fee_for(price as int, fee_bps as int)) + fee_for(price as int, fee_bps as int)
            == price,
        price >= 0 && fee_bps <= 10000 ==> 0 <= fee_for(price as int, fee_bps as int) <= price,
{
    let p = price as int;
    let b = fee_bps as int;
    if price >= 0 && fee_bps <= 10000 {
        assert(0 <= p * b <= p * 10000) by (nonlinear_arith)
            requires
                0 <= p,
                0 <= b <= 10000,
        ;
        assert((p * 10000) / 10000 == p) by (nonlinear_arith);
        assert((p * b) / 10000 <= (p * 10000) / 10000) by (nonlinear_arith)
            requires
                0 <= p * b <= p * 10000,
        ;
    }
}

/// Listing a token escrows it: the owner's listing succeeds, and the transfer
/// that the listing asks for succeeds on the NFT contract and makes the
/// marketplace the token's owner.
pub proof fn law_listing_escrows_nft(
    n: NftView,
    m: MarketView,
    seller: Seq<char>,
    nft_contract: Seq<char>,
    token_id: u32,
    payment_token: Seq<char>,
    price: i128,
)
    requires
        n.owner_of(token_id) == Ok::<Seq<char>, NftError>(seller),
        m.total_listings() < u64::MAX,
    ensures
        m.list_item(seller, nft_contract, token_id, payment_token, price, seller) is Ok,
        n.transfer(seller, m.address, token_id) matches Ok(n1) && n1.owner_of(token_id) == Ok::<
            Seq<char>,
            NftError,
        >(m.address),
{
    law_transfer_moves_token(n, seller, m.address, token_id);
}

/// Cancelling a fresh listing gives the token back: after the listing and its
/// escrow, the seller's cancellation succeeds, the transfer that it asks for
/// succeeds on the NFT contract, and the NFT contract is back in the state it
/// had before the listing.
pub proof fn law_cancel_returns_nft(
    n: NftView,
    m: MarketView,
    seller: Seq<char>,
    nft_contract: Seq<char>,
    token_id: u32,
    payment_token: Seq<char>,
    price: i128,
)
    requires
        n.owner_of(token_id) == Ok::<Seq<char>, NftError>(seller),
        m.well_formed(),
        m.total_listings() < u64::MAX,
    ensures
        ({
            let id = m.next_listing_id() as u64;
            let m1 = m.list_item(seller, nft_contract, token_id, payment_token, price, seller)->Ok_0;
            let n1 = n.transfer(seller, m.address, token_id)->Ok_0;
            &&& m1.cancel_listing(seller, id) matches Ok(m2) && m2.get_listing(id) matches Ok(l)
                && !l.active
            &&& m1.get_listing(id) matches Ok(l) && l.token_id == token_id
            &&& n1.transfer(m.address, seller, token_id) == Ok::<NftView, NftError>(n)
        }),
{
    law_listing_escrows_nft(n, m, seller, nft_contract, token_id, payment_token, price);
    law_transfer_round_trip(n, seller, m.address, token_id);
}

/// Buying a fresh listing delivers the token: after the listing and its escrow,
/// a purchase succeeds, the delivery that it asks for succeeds on the NFT
/// contract and makes the buyer the token's owner, and the listing is closed.
pub proof fn law_purchase_delivers_nft(
    n: NftView,
    m: MarketView,
    seller: Seq<char>,
    nft_contract: Seq<char>,
    token_id: u32,
    payment_token: Seq<char>,
    price: i128,
    buyer: Seq<char>,
)
    requires
        n.owner_of(token_id) == Ok::<Seq<char>, NftError>(seller),
        m.well_formed(),
        m.total_listings() < u64::MAX,
    ensures
        ({
            let id = m.next_listing_id() as u64;
            let m1 = m.list_item(seller, nft_contract, token_id, payment_token, price, seller)->Ok_0;
            let n1 = n.transfer(seller, m.address, token_id)->Ok_0;
            &&& m1.buy_item(buyer, id) matches Ok(m2) && m2.get_listing(id) matches Ok(l)
                && !l.active
            &&& m1.get_listing(id) matches Ok(l) && l.token_id == token_id && l.seller == seller
                && l.price == price
            &&& n1.transfer(m.address, buyer, token_id) matches Ok(n2) && n2.owner_of(token_id)
                == Ok::<Seq<char>, NftError>(buyer)
        }),
{
    law_listing_escrows_nft(n, m, seller, nft_contract, token_id, payment_token, price);
    let n1 = n.transfer(seller, m.address, token_id)->Ok_0;
    law_transfer_moves_token(n1, m.address, buyer, token_id);
}

/// The NFT of every active listing on the NFT contract at `nft` is held by the
/// marketplace, and no two active listings on that contract name the same token.
pub open spec fn escrow_holds(n: NftView, m: MarketView, nft: Seq<char>) -> bool {
    &&& forall|i: int|
        0 <= i < m.listings.len() && #[trigger] m.listings[i].active && m.listings[i].nft_contract
            == nft ==> n.owner_of(m.listings[i].token_id) == Ok::<Seq<char>, NftError>(m.address)
    &&& forall|i: int, j: int|
        0 <= i < m.listings.len() && 0 <= j < m.listings.len() && i != j && #[trigger] m.listings[i].active
            && #[trigger] m.listings[j].active && m.listings[i].nft_contract == nft
            && m.listings[j].nft_contract == nft ==> m.listings[i].token_id != m.listings[j].token_id
}

/// The NFT contract at `nft` after the marketplace asks it to move `token_id`
/// from `from` to `to`, where the request goes to that contract.
pub open spec fn after_request(
    n: NftView,
    nft: Seq<char>,
    target: Seq<char>,
    from: Seq<char>,
    to: Seq<char>,
    token_id: u32,
) -> NftView {
    if target == nft {
        n.transfer(from, to, token_id)->Ok_0
    } else {
        n
    }
}

/// A marketplace without listings escrows nothing.
pub proof fn law_escrow_starts(n: NftView, address: Seq<char>, nft: Seq<char>)
    ensures
        escrow_holds(n, MarketView::empty(address), nft),
{
}

/// Listing keeps every escrow in place: the owner's listing puts the token in
/// escrow, and the escrows of all other active listings stay as they were.
pub proof fn law_escrow_kept_by_listing(
    n: NftView,
    m: MarketView,
    nft: Seq<char>,
    seller: Seq<char>,
    nft_contract: Seq<char>,
    token_id: u32,
    payment_token: Seq<char>,
    price: i128,
)
    requires
        escrow_holds(n, m, nft),
        m.well_formed(),
        m.total_listings() < u64::MAX,
        nft_contract == nft ==> n.owner_of(token_id) == Ok::<Seq<char>, NftError>(seller),
        seller != m.address,
    ensures
        m.list_item(seller, nft_contract, token_id, payment_token, price, seller) matches Ok(m1)
            && (nft_contract == nft ==> n.transfer(seller, m.address, token_id) is Ok)
            && escrow_holds(
            after_request(n, nft, nft_contract, seller, m.address, token_id),
            m1,
            nft,
        ),
{
    let m1 = m.list_item(seller, nft_contract, token_id, payment_token, price, seller)->Ok_0;
    let n1 = after_request(n, nft, nft_contract, seller, m.address, token_id);
    let k = m.listing_counter as int;
    assert(m1.listings.len() >= m.listings.len());
    assert(m1.listings[k].token_id == token_id && m1.listings[k].active
        && m1.listings[k].nft_contract == nft_contract);
    assert forall|i: int| 0 <= i < m1.listings.len() && i != k implies #[trigger] m1.listings[i]
        == m.listings[i] by {}
    assert forall|i: int|
        0 <= i < m1.listings.len() && #[trigger] m1.listings[i].active && m1.listings[i].nft_contract
            == nft implies n1.owner_of(m1.listings[i].token_id) == Ok::<Seq<char>, NftError>(
        m1.address,
    ) by {
        if i != k {
            assert(m1.listings[i] == m.listings[i]);
            if nft_contract == nft {
                assert(m.listings[i].token_id != token_id);
            }
        }
    }
    assert forall|i: int, j: int|
        0 <= i < m1.listings.len() && 0 <= j < m1.listings.len() && i != j
            && #[trigger] m1.listings[i].active && #[trigger] m1.listings[j].active
            && m1.listings[i].nft_contract == nft && m1.listings[j].nft_contract
            == nft implies m1.listings[i].token_id != m1.listings[j].token_id by {
        if i != k && j != k {
            assert(m1.listings[i] == m.listings[i] && m1.listings[j] == m.listings[j]);
        } else if i == k {
            assert(m1.listings[j] == m.listings[j]);
        } else {
            assert(m1.listings[i] == m.listings[i]);
        }
    }
}

/// A purchase keeps every other escrow in place, and its delivery of the
/// token to the buyer goes through on the NFT contract.
pub proof fn law_escrow_kept_by_purchase(
    n: NftView,
    m: MarketView,
    nft: Seq<char>,
    buyer: Seq<char>,
    listing_id: u64,
)
    requires
        escrow_holds(n, m, nft),
        m.buy_item(buyer, listing_id) is Ok,
    ensures
        ({
            let l = m.listings[listing_id - 1];
            let m1 = m.buy_item(buyer, listing_id)->Ok_0;
            &&& l.nft_contract == nft ==> n.transfer(m.address, buyer, l.token_id) is Ok
            &&& escrow_holds(after_request(n, nft, l.nft_contract, m.address, buyer, l.token_id), m1, nft)
        }),
{
    lemma_escrow_kept_by_closing(n, m, nft, buyer, listing_id);
}

/// A cancellation keeps every other escrow in place, and its return of the
/// token to the seller goes through on the NFT contract.
pub proof fn law_escrow_kept_by_cancellation(
    n: NftView,
    m: MarketView,
    nft: Seq<char>,
    seller: Seq<char>,
    listing_id: u64,
)
    requires
        escrow_holds(n, m, nft),
        m.cancel_listing(seller, listing_id) is Ok,
    ensures
        ({
            let l = m.listings[listing_id - 1];
            let m1 = m.cancel_listing(seller, listing_id)->Ok_0;
            &&& l.nft_contract == nft ==> n.transfer(m.address, seller, l.token_id) is Ok
            &&& escrow_holds(after_request(n, nft, l.nft_contract, m.address, seller, l.token_id), m1, nft)
        }),
{
    lemma_escrow_kept_by_closing(n, m, nft, seller, listing_id);
}

proof fn lemma_escrow_kept_by_closing(
    n: NftView,
    m: MarketView,
    nft: Seq<char>,
    to: Seq<char>,
    listing_id: u64,
)
    requires
        escrow_holds(n, m, nft),
        m.has_listing(listing_id),
        m.listings[listing_id - 1].active,
    ensures
        ({
            let l = m.listings[listing_id - 1];
            &&& l.nft_contract == nft ==> n.transfer(m.address, to, l.token_id) is Ok
            &&& escrow_holds(
                after_request(n, nft, l.nft_contract, m.address, to, l.token_id),
                m.deactivate(listing_id),
                nft,
            )
        }),
{
    let k = listing_id - 1;
    let l = m.listings[k];
    let m1 = m.deactivate(listing_id);
    let n1 = after_request(n, nft, l.nft_contract, m.address, to, l.token_id);
    assert(!m1.listings[k].active);
    assert forall|i: int| 0 <= i < m1.listings.len() && i != k implies #[trigger] m1.listings[i]
        == m.listings[i] by {}
    assert forall|i: int|
        0 <= i < m1.listings.len() && #[trigger] m1.listings[i].active && m1.listings[i].nft_contract
            == nft implies n1.owner_of(m1.listings[i].token_id) == Ok::<Seq<char>, NftError>(
        m1.address,
    ) by {
        assert(i != k);
        assert(m1.listings[i] == m.listings[i]);
        if l.nft_contract == nft {
            assert(m.listings[i].active && m.listings[k].active);
            assert(m.listings[i].token_id != l.token_id);
        }
    }
    assert forall|i: int, j: int|
        0 <= i < m1.listings.len() && 0 <= j < m1.listings.len() && i != j
            && #[trigger] m1.listings[i].active && #[trigger] m1.listings[j].active
            && m1.listings[i].nft_contract == nft && m1.listings[j].nft_contract
            == nft implies m1.listings[i].token_id != m1.listings[j].token_id by {
        assert(m1.listings[i] == m.listings[i] && m1.listings[j] == m.listings[j]);
    }
}

/// Nobody but the marketplace can move an escrowed token: a transfer on the NFT
/// contract from any other holder, and any mint, keep every escrow in place.
pub proof fn law_escrow_kept_by_others(
    n: NftView,
    m: MarketView,
    nft: Seq<char>,
    from: Seq<char>,
    to: Seq<char>,
    token_id: u32,
    minted_to: Seq<char>,
    uri: Seq<u8>,
)
    requires
        escrow_holds(n, m, nft),
        from != m.address,
    ensures
        n.transfer(from, to, token_id) matches Ok(n1) ==> escrow_holds(n1, m, nft),
        escrow_holds(n.mint(minted_to, uri), m, nft),
{
    let n2 = n.mint(minted_to, uri);
    assert forall|t: u32| #[trigger] n.has_token(t) implies n2.owner_of(t) == n.owner_of(t) by {}
    if n.transfer(from, to, token_id) is Ok {
        let n1 = n.transfer(from, to, token_id)->Ok_0;
        assert forall|t: u32| #[trigger] n.has_token(t) && t != token_id implies n1.owner_of(t)
            == n.owner_of(t) by {}
    }
}

/// An operation of the marketplace, with its arguments as plain values.
pub enum MarketOp {
    Initialize { admin: Seq<char>, fee_bps: u32 },
    List {
        seller: Seq<char>,
        nft_contract: Seq<char>,
        token_id: u32,
        payment_token: Seq<char>,
        price: i128,
        current_owner: Seq<char>,
    },
    Buy { buyer: Seq<char>, listing_id: u64 },
    Cancel { seller: Seq<char>, listing_id: u64 },
}

/// The state that `r` leaves: the new state where the operation went
/// through, the old one where it was refused.
pub open spec fn kept_or<E>(m: MarketView, r: Result<MarketView, E>) -> MarketView {
    match r {
        Ok(w) => w,
        Err(_) => m,
    }
}

/// The state after `op`. A refused operation, and one on which the contract
/// panics (the listing counter or the fee overflowing, a purchase before
/// initialization), leave the state as it was, since the whole invocation is
/// reverted.
pub open spec fn step(m: MarketView, op: MarketOp) -> MarketView {
    match op {
        MarketOp::Initialize { admin, fee_bps } => kept_or(m, m.initialize(admin, fee_bps)),
        MarketOp::List {
            seller,
            nft_contract,
            token_id,
            payment_token,
            price,
            current_owner,
        } => if current_owner == seller && m.listing_counter >= u64::MAX {
            m
        } else {
            kept_or(
                m,
                m.list_item(seller, nft_contract, token_id, payment_token, price, current_owner),
            )
        },
        MarketOp::Buy { buyer, listing_id } => if m.purchase_is_defined(listing_id) {
            kept_or(m, m.buy_item(buyer, listing_id))
        } else {
            m
        },
        MarketOp::Cancel { seller, listing_id } => kept_or(
            m,
            m.cancel_listing(seller, listing_id),
        ),
    }
}

/// The state after the operations `ops`, in order.
pub open spec fn run(m: MarketView, ops: Seq<MarketOp>) -> MarketView
    decreases ops.len(),
{
    if ops.len() == 0 {
        m
    } else {
        step(run(m, ops.drop_last()), ops.last())
    }
}

/// `listing_id` was handed out since the marketplace was initialized, and is
/// closed (bought or cancelled).
pub open spec fn closed_for_good(m: MarketView, listing_id: u64) -> bool {
    &&& m.is_initialized()
    &&& m.well_formed()
    &&& m.has_listing(listing_id)
    &&& listing_id <= m.listing_counter
    &&& !m.listings[listing_id - 1].active
}

proof fn lemma_step_keeps_closed(m: MarketView, op: MarketOp, listing_id: u64)
    requires
        closed_for_good(m, listing_id),
    ensures
        closed_for_good(step(m, op), listing_id),
        step(m, op).listings[listing_id - 1] == m.listings[listing_id - 1],
{
    let w = step(m, op);
    let k = listing_id - 1;
    match op {
        MarketOp::List { .. } => {
            if w != m {
                assert(w.listings[k] == m.listings[k]);
            }
        },
        MarketOp::Buy { buyer, listing_id: other } => {
            if w != m {
                assert(other != listing_id);
                assert(w.listings[k] == m.listings[k]);
            }
        },
        MarketOp::Cancel { seller, listing_id: other } => {
            if w != m {
                assert(other != listing_id);
                assert(w.listings[k] == m.listings[k]);
            }
        },
        MarketOp::Initialize { .. } => {},
    }
}

/// Once a listing handed out since initialization is bought or cancelled, it
/// stays closed whatever operations follow: `get_listing` shows it inactive,
/// and buying or cancelling it is refused with `ListingNotActive`, which
/// changes nothing.
pub proof fn law_closed_listing_stays_closed_for_good(
    m: MarketView,
    listing_id: u64,
    ops: Seq<MarketOp>,
    buyer: Seq<char>,
    seller: Seq<char>,
)
    requires
        closed_for_good(m, listing_id),
    ensures
        closed_for_good(run(m, ops), listing_id),
        listing_closed(run(m, ops), listing_id, buyer, seller),
    decreases ops.len(),
{
    if ops.len() > 0 {
        law_closed_listing_stays_closed_for_good(m, listing_id, ops.drop_last(), buyer, seller);
        lemma_step_keeps_closed(run(m, ops.drop_last()), ops.last(), listing_id);
    }
}

/// In an initialized marketplace, a purchase or cancellation of a listing
/// handed out since initialization closes it for good.
pub proof fn law_closing_is_for_good(
    m: MarketView,
    by: Seq<char>,
    listing_id: u64,
)
    requires
        m.is_initialized(),
        m.well_formed(),
        listing_id <= m.total_listings(),
    ensures
        m.buy_item(by, listing_id) matches Ok(w) ==> closed_for_good(w, listing_id),
        m.cancel_listing(by, listing_id) matches Ok(w) ==> closed_for_good(w, listing_id),
{
}

/// The ids that the successful listings among `ops` hand out, in order.
pub open spec fn listed_ids(m: MarketView, ops: Seq<MarketOp>) -> Seq<nat>
    decreases ops.len(),
{
    if ops.len() == 0 {
        Seq::empty()
    } else {
        let before = run(m, ops.drop_last());
        let earlier = listed_ids(m, ops.drop_last());
        if step(before, ops.last()).listing_counter != before.listing_counter {
            earlier.push(before.next_listing_id())
        } else {
            earlier
        }
    }
}

/// The terms of a listing (all but whether it is active) are the same in both.
pub open spec fn same_terms(a: ListingView, b: ListingView) -> bool {
    &&& a.seller == b.seller
    &&& a.nft_contract == b.nft_contract
    &&& a.token_id == b.token_id
    &&& a.payment_token == b.payment_token
    &&& a.price == b.price
}

proof fn lemma_market_step(m: MarketView, op: MarketOp)
    requires
        m.is_initialized(),
        m.well_formed(),
    ensures
        step(m, op).is_initialized(),
        step(m, op).well_formed(),
        step(m, op).address == m.address,
        step(m, op).listing_counter == m.listing_counter || step(m, op).listing_counter
            == m.listing_counter + 1,
        step(m, op).listing_counter == m.listing_counter + 1 ==> op is List,
        forall|i: int|
            0 <= i < m.listing_counter ==> same_terms(
                #[trigger] step(m, op).listings[i],
                m.listings[i],
            ),
{
    let w = step(m, op);
    assert forall|i: int| 0 <= i < m.listing_counter implies same_terms(
        #[trigger] w.listings[i],
        m.listings[i],
    ) by {
        match op {
            MarketOp::List { .. } => {
                if w != m {
                    assert(w.listings[i] == m.listings[i]);
                }
            },
            MarketOp::Buy { listing_id, .. } => {
                if w != m && i != listing_id - 1 {
                    assert(w.listings[i] == m.listings[i]);
                }
            },
            MarketOp::Cancel { listing_id, .. } => {
                if w != m && i != listing_id - 1 {
                    assert(w.listings[i] == m.listings[i]);
                }
            },
            MarketOp::Initialize { .. } => {},
        }
    }
}

/// Once a marketplace is initialized, the successful listings hand out the
/// ids that follow the counter, one after another and never one twice;
/// `total_listings()` grows by one with each of them and with nothing else;
/// and the terms of a listing once handed out are never overwritten (only
/// whether it is active changes).
pub proof fn law_listing_ids_in_sequence(m: MarketView, ops: Seq<MarketOp>)
    requires
        m.is_initialized(),
        m.well_formed(),
    ensures
        run(m, ops).is_initialized(),
        run(m, ops).well_formed(),
        run(m, ops).total_listings() == m.total_listings() + listed_ids(m, ops).len(),
        forall|i: int|
            0 <= i < listed_ids(m, ops).len() ==> #[trigger] listed_ids(m, ops)[i]
                == m.total_listings() + i + 1,
        forall|i: int|
            0 <= i < m.listing_counter ==> same_terms(
                #[trigger] run(m, ops).listings[i],
                m.listings[i],
            ),
    decreases ops.len(),
{
    if ops.len() > 0 {
        let prev = ops.drop_last();
        law_listing_ids_in_sequence(m, prev);
        let before = run(m, prev);
        lemma_market_step(before, ops.last());
        assert forall|i: int| 0 <= i < m.listing_counter implies same_terms(
            #[trigger] run(m, ops).listings[i],
            m.listings[i],
        ) by {
            assert(same_terms(before.listings[i], m.listings[i]));
            assert(same_terms(step(before, ops.last()).listings[i], before.listings[i]));
        }
    }
}

/// An operation of the NFT contract, with its arguments as plain values.
pub enum NftOp {
    Initialize { admin: Seq<char> },
    Mint { to: Seq<char>, uri: Seq<u8> },
    Transfer { from: Seq<char>, to: Seq<char>, token_id: u32 },
}

/// The NFT state after `op`. A refused operation, and a mint on which the
/// contract panics (before initialization, or with every id used), leave the
/// state as it was, since the whole invocation is reverted.
pub open spec fn nft_step(v: NftView, op: NftOp) -> NftView {
    match op {
        NftOp::Initialize { admin } => match v.initialize(admin) {
            Ok(w) => w,
            Err(_) => v,
        },
        NftOp::Mint { to, uri } => if v.is_initialized() && v.total_supply() < u32::MAX {
            v.mint(to, uri)
        } else {
            v
        },
        NftOp::Transfer { from, to, token_id } => match v.transfer(from, to, token_id) {
            Ok(w) => w,
            Err(_) => v,
        },
    }
}

/// The NFT state after the operations `ops`, in order.
pub open spec fn nft_run(v: NftView, ops: Seq<NftOp>) -> NftView
    decreases ops.len(),
{
    if ops.len() == 0 {
        v
    } else {
        nft_step(nft_run(v, ops.drop_last()), ops.last())
    }
}

/// The ids that the successful mints among `ops` hand out, in order.
pub open spec fn minted_ids(v: NftView, ops: Seq<NftOp>) -> Seq<nat>
    decreases ops.len(),
{
    if ops.len() == 0 {
        Seq::empty()
    } else {
        let before = nft_run(v, ops.drop_last());
        let earlier = minted_ids(v, ops.drop_last());
        if nft_step(before, ops.last()).total_supply() != before.total_supply() {
            earlier.push(before.next_token_id())
        } else {
            earlier
        }
    }
}

proof fn lemma_nft_step(v: NftView, op: NftOp)
    requires
        v.well_formed(),
    ensures
        nft_step(v, op).well_formed(),
        nft_step(v, op).total_supply() == v.total_supply() || nft_step(v, op).total_supply()
            == v.total_supply() + 1,
        forall|t: u32| #[trigger]
            v.has_token(t) ==> nft_step(v, op).has_token(t) && nft_step(v, op).token_uri(t)
                == v.token_uri(t),
{
}

/// The successful mints hand out the ids that follow the total supply, one
/// after another and never one twice; the total supply grows by one with each
/// of them and with nothing else (so, from a freshly initialized contract,
/// the mints return 1, 2, ..., k and the total supply is k); and every
/// existing token keeps its URI, whatever mints and transfers follow.
pub proof fn law_token_ids_in_sequence(v: NftView, ops: Seq<NftOp>)
    requires
        v.well_formed(),
    ensures
        nft_run(v, ops).well_formed(),
        nft_run(v, ops).total_supply() == v.total_supply() + minted_ids(v, ops).len(),
        forall|i: int|
            0 <= i < minted_ids(v, ops).len() ==> #[trigger] minted_ids(v, ops)[i]
                == v.total_supply() + i + 1,
        forall|t: u32| #[trigger]
            v.has_token(t) ==> nft_run(v, ops).has_token(t) && nft_run(v, ops).token_uri(t)
                == v.token_uri(t),
    decreases ops.len(),
{
    if ops.len() > 0 {
        let prev = ops.drop_last();
        law_token_ids_in_sequence(v, prev);
        let before = nft_run(v, prev);
        lemma_nft_step(before, ops.last());
        assert forall|t: u32| #[trigger] v.has_token(t) implies nft_run(v, ops).has_token(t)
            && nft_run(v, ops).token_uri(t) == v.token_uri(t) by {
            assert(before.has_token(t));
        }
    }
}

/// The address whose authorization an operation of the NFT contract needs:
/// the admin for a mint, the sender for a transfer, nobody for initialization.
pub open spec fn nft_authorizer(v: NftView, op: NftOp) -> Option<Seq<char>> {
    match op {
        NftOp::Initialize { .. } => None,
        NftOp::Mint { .. } => v.admin,
        NftOp::Transfer { from, .. } => Some(from),
    }
}

/// The address whose authorization an operation of the marketplace needs: the
/// seller for a listing or a cancellation, the buyer for a purchase, nobody
/// for initialization.
pub open spec fn market_authorizer(op: MarketOp) -> Option<Seq<char>> {
    match op {
        MarketOp::Initialize { .. } => None,
        MarketOp::List { seller, .. } => Some(seller),
        MarketOp::Buy { buyer, .. } => Some(buyer),
        MarketOp::Cancel { seller, .. } => Some(seller),
    }
}

/// A token leaves its owner only by an operation that the owner authorizes,
/// and a mint only goes through where there is an admin to authorize it.
pub proof fn law_nft_needs_owner_authorization(
    v: NftView,
    op: NftOp,
    token_id: u32,
    holder: Seq<char>,
)
    requires
        v.well_formed(),
        v.owner_of(token_id) == Ok::<Seq<char>, NftError>(holder),
    ensures
        nft_step(v, op).owner_of(token_id) != Ok::<Seq<char>, NftError>(holder) ==> nft_authorizer(
            v,
            op,
        ) == Some(holder),
        (op is Mint && nft_step(v, op) != v) ==> nft_authorizer(v, op) is Some,
{
}

/// Listings and closings go through only with the authorization of the party
/// that gives something up: a listing is made by its seller, who owns the
/// token; a listing is cancelled only by its seller; a purchase is authorized
/// by the buyer, who makes both payments (see `buy_item`).
pub proof fn law_market_needs_authorization(m: MarketView, op: MarketOp, listing_id: u64)
    requires
        m.well_formed(),
    ensures
        ({
            let w = step(m, op);
            &&& w.listing_counter > m.listing_counter ==> (op matches MarketOp::List {
                seller,
                current_owner,
                ..
            } && market_authorizer(op) == Some(seller) && current_owner == seller
                && w.listings[m.listing_counter as int].seller == seller)
            &&& (m.has_listing(listing_id) && m.listings[listing_id - 1].active
                && !w.listings[listing_id - 1].active) ==> ((op matches MarketOp::Buy {
                buyer,
                listing_id: l,
            } && l == listing_id && market_authorizer(op) == Some(buyer)) || (
            op matches MarketOp::Cancel { seller, listing_id: l } && l == listing_id
                && market_authorizer(op) == Some(m.listings[listing_id - 1].seller)))
        }),
{
    let w = step(m, op);
    match op {
        MarketOp::List { .. } => {
            if w != m && m.has_listing(listing_id) && listing_id - 1 != m.listing_counter {
                assert(w.listings[listing_id - 1] == m.listings[listing_id - 1]);
            }
        },
        MarketOp::Buy { listing_id: l, .. } => {
            if w != m && m.has_listing(listing_id) && l != listing_id {
                assert(w.listings[listing_id - 1] == m.listings[listing_id - 1]);
            }
        },
        MarketOp::Cancel { listing_id: l, .. } => {
            if w != m && m.has_listing(listing_id) && l != listing_id {
                assert(w.listings[listing_id - 1] == m.listings[listing_id - 1]);
            }
        },
        MarketOp::Initialize { .. } => {},
    }
}

/// The fee is the price times the fee in basis points over 10000, rounded
/// toward zero, with no cap: for a price that is not negative,
/// `0 <= price * fee_bps - 10000 * fee < 10000`, and for a negative price,
/// `-10000 < price * fee_bps - 10000 * fee <= 0`. The same holds of the fee
/// that a marketplace charges at its own rate.
pub proof fn law_fee_is_proportional(m: MarketView, price: i128, fee_bps: u32)
    ensures
        price >= 0 ==> 0 <= price * fee_bps - 10000 * fee_for(price as int, fee_bps as int) < 10000,
        price < 0 ==> -10000 < price * fee_bps - 10000 * fee_for(price as int, fee_bps as int) <= 0,
        price >= 0 ==> 0 <= price * m.fee_bps - 10000 * m.fee_of(price) < 10000,
        price < 0 ==> -10000 < price * m.fee_bps - 10000 * m.fee_of(price) <= 0,
{
    lemma_div_toward_zero(price as int, fee_bps as int);
    lemma_div_toward_zero(price as int, m.fee_bps as int);
}

proof fn lemma_div_toward_zero(p: int, b: int)
    requires
        b >= 0,
    ensures
        p >= 0 ==> 0 <= p * b - 10000 * fee_for(p, b) < 10000,
        p < 0 ==> -10000 < p * b - 10000 * fee_for(p, b) <= 0,
{
    let a = p * b;
    if p >= 0 {
        assert(a >= 0) by (nonlinear_arith)
            requires
                p >= 0,
                b >= 0,
                a == p * b,
        ;
        assert(0 <= a - 10000 * (a / 10000) < 10000) by (nonlinear_arith)
            requires
                a >= 0,
        ;
    } else {
        assert(a <= 0) by (nonlinear_arith)
            requires
                p < 0,
                b >= 0,
                a == p * b,
        ;
        let c = -a;
        assert(0 <= c - 10000 * (c / 10000) < 10000) by (nonlinear_arith)
            requires
                c >= 0,
        ;
    }
}

/// Initializing a marketplace that has no admin succeeds and stores exactly
/// the given admin and fee, starts the listing counter at 0, and keeps its
/// address and its listings; initializing one that has an admin is refused
/// with `Unauthorized`.
pub proof fn law_initialize_stores_admin_and_fee(m: MarketView, admin: Seq<char>, fee_bps: u32)
    ensures
        m.admin is None ==> (m.initialize(admin, fee_bps) matches Ok(w) && w.admin == Some(admin)
            && w.fee_bps == fee_bps && w.listing_counter == 0 && w.listings == m.listings
            && w.address == m.address),
        m.admin is Some ==> m.initialize(admin, fee_bps) == Err::<MarketView, MarketError>(
            MarketError::Unauthorized,
        ),
{
}

/// `get_listing` returns the stored listing as it is, and `ListingNotFound`
/// for an id that no listing has.
pub proof fn law_get_listing_returns_stored(m: MarketView, listing_id: u64)
    ensures
        1 <= listing_id <= m.listings.len() ==> m.get_listing(listing_id) == Ok::<
            ListingView,
            MarketError,
        >(m.listings[listing_id - 1]),
        !(1 <= listing_id <= m.listings.len()) ==> m.get_listing(listing_id) == Err::<
            ListingView,
            MarketError,
        >(MarketError::ListingNotFound),
{
}

/// `w` is `m` with listing `listing_id` closed: that listing keeps its terms
/// and becomes inactive, and everything else stays as it was.
pub open spec fn closes_only(m: MarketView, w: MarketView, listing_id: u64) -> bool {
    &&& w.listings.len() == m.listings.len()
    &&& same_terms(w.listings[listing_id - 1], m.listings[listing_id - 1])
    &&& !w.listings[listing_id - 1].active
    &&& forall|i: int|
        0 <= i < m.listings.len() && i != listing_id - 1 ==> #[trigger] w.listings[i] == m.listings[i]
    &&& w.address == m.address
    &&& w.admin == m.admin
    &&& w.fee_bps == m.fee_bps
    &&& w.listing_counter == m.listing_counter
}

/// Any active listing can be bought, whatever the other listings are; the
/// purchase closes that listing and nothing else, so `get_listing` shows every
/// other listing as before. A missing listing is refused with
/// `ListingNotFound` and an inactive one with `ListingNotActive`.
pub proof fn law_active_listing_can_be_bought(m: MarketView, buyer: Seq<char>, listing_id: u64, other: u64)
    ensures
        (1 <= listing_id <= m.listings.len() && m.listings[listing_id - 1].active) ==> (m.buy_item(
            buyer,
            listing_id,
        ) matches Ok(w) && closes_only(m, w, listing_id) && (other != listing_id
            ==> w.get_listing(other) == m.get_listing(other))),
        !(1 <= listing_id <= m.listings.len()) ==> m.buy_item(buyer, listing_id) == Err::<
            MarketView,
            MarketError,
        >(MarketError::ListingNotFound),
        (1 <= listing_id <= m.listings.len() && !m.listings[listing_id - 1].active) ==> m.buy_item(
            buyer,
            listing_id,
        ) == Err::<MarketView, MarketError>(MarketError::ListingNotActive),
{
}

/// The seller of any active listing can cancel it, whatever the other
/// listings are; the cancellation closes that listing and nothing else, so
/// `get_listing` shows every other listing as before. A missing listing is
/// refused with `ListingNotFound`, an inactive one with `ListingNotActive`,
/// and anyone but its seller with `NotSeller`.
pub proof fn law_seller_can_cancel_active_listing(
    m: MarketView,
    seller: Seq<char>,
    listing_id: u64,
    other: u64,
)
    ensures
        (1 <= listing_id <= m.listings.len() && m.listings[listing_id - 1].active
            && m.listings[listing_id - 1].seller == seller) ==> (m.cancel_listing(seller, listing_id) matches Ok(
            w,
        ) && closes_only(m, w, listing_id) && (other != listing_id ==> w.get_listing(other)
            == m.get_listing(other))),
        !(1 <= listing_id <= m.listings.len()) ==> m.cancel_listing(seller, listing_id) == Err::<
            MarketView,
            MarketError,
        >(MarketError::ListingNotFound),
        (1 <= listing_id <= m.listings.len() && !m.listings[listing_id - 1].active)
            ==> m.cancel_listing(seller, listing_id) == Err::<MarketView, MarketError>(
            MarketError::ListingNotActive,
        ),
        (1 <= listing_id <= m.listings.len() && m.listings[listing_id - 1].active
            && m.listings[listing_id - 1].seller != seller) ==> m.cancel_listing(seller, listing_id)
            == Err::<MarketView, MarketError>(MarketError::NotSeller),
{
}

/// Listing by the token's owner succeeds: it writes an active listing with
/// exactly the given terms at the slot after the counter (appending it where
/// that slot is new), hands out the id after the counter, counts one more
/// listing, and leaves every other listing, the admin, the fee and the address
/// as they were. Listing by anyone else is refused with
/// `SellerDoesNotOwnToken`.
pub proof fn law_listing_writes_next_slot(
    m: MarketView,
    seller: Seq<char>,
    nft_contract: Seq<char>,
    token_id: u32,
    payment_token: Seq<char>,
    price: i128,
    current_owner: Seq<char>,
)
    requires
        m.listing_counter <= m.listings.len(),
    ensures
        m.next_listing_id() == m.listing_counter + 1,
        m.total_listings() == m.listing_counter,
        current_owner == seller ==> (m.list_item(
            seller,
            nft_contract,
            token_id,
            payment_token,
            price,
            current_owner,
        ) matches Ok(w) && w.listing_counter == m.listing_counter + 1 && w.listings[m.listing_counter as int]
            == (ListingView { seller, nft_contract, token_id, payment_token, price, active: true })
            && w.listings.len() == if m.listing_counter < m.listings.len() {
            m.listings.len()
        } else {
            m.listings.len() + 1
        } && (forall|i: int|
            0 <= i < m.listings.len() && i != m.listing_counter ==> #[trigger] w.listings[i]
                == m.listings[i]) && w.admin == m.admin && w.fee_bps == m.fee_bps && w.address
            == m.address),
        current_owner != seller ==> m.list_item(
            seller,
            nft_contract,
            token_id,
            payment_token,
            price,
            current_owner,
        ) == Err::<MarketView, MarketError>(MarketError::SellerDoesNotOwnToken),
{
}

/// The queries of the NFT contract read the state as it is: `owner_of` and
/// `token_uri` give the owner and URI stored for an id that a token has, and
/// `TokenNotFound` otherwise; `total_supply` is the number of tokens.
pub proof fn law_nft_queries_read_state(v: NftView, token_id: u32)
    ensures
        v.total_supply() == v.owners.len(),
        v.next_token_id() == v.owners.len() + 1,
        1 <= token_id <= v.owners.len() ==> v.owner_of(token_id) == Ok::<Seq<char>, NftError>(
            v.owners[token_id - 1],
        ) && v.token_uri(token_id) == Ok::<Seq<u8>, NftError>(v.uris[token_id - 1]),
        !(1 <= token_id <= v.owners.len()) ==> v.owner_of(token_id) == Err::<Seq<char>, NftError>(
            NftError::TokenNotFound,
        ) && v.token_uri(token_id) == Err::<Seq<u8>, NftError>(NftError::TokenNotFound),
{
}

/// Initializing an NFT contract without admin stores exactly the given admin
/// and keeps its tokens; with an admin it is refused with `AlreadyInitialized`.
/// A mint appends one token with exactly the given owner and URI. A transfer
/// by the owner of an existing token changes that token's owner to `to` and
/// nothing else.
pub proof fn law_nft_updates_write_exactly(
    v: NftView,
    admin: Seq<char>,
    to: Seq<char>,
    uri: Seq<u8>,
    from: Seq<char>,
    token_id: u32,
)
    ensures
        v.admin is None ==> v.initialize(admin) == Ok::<NftView, NftError>(
            NftView { admin: Some(admin), owners: v.owners, uris: v.uris },
        ),
        v.admin is Some ==> v.initialize(admin) == Err::<NftView, NftError>(
            NftError::AlreadyInitialized,
        ),
        v.mint(to, uri) == (NftView { admin: v.admin, owners: v.owners.push(to), uris: v.uris.push(uri) }),
        (1 <= token_id <= v.owners.len() && v.owners[token_id - 1] == from) ==> v.transfer(
            from,
            to,
            token_id,
        ) == Ok::<NftView, NftError>(
            NftView { admin: v.admin, owners: v.owners.update(token_id - 1, to), uris: v.uris },
        ),
{
}

/// The balance of a holder is the number of tokens whose owner it is.
pub proof fn law_balance_counts_owned_tokens(v: NftView, holder: Seq<char>)
    ensures
        v.balance_of(holder) == v.owners.filter(|o: Seq<char>| o == holder).len(),
{
    lemma_count_is_filter_len(v.owners, holder);
}

proof fn lemma_count_is_filter_len(s: Seq<Seq<char>>, a: Seq<char>)
    ensures
        count_of(s, a) == s.filter(|o: Seq<char>| o == a).len(),
    decreases s.len(),
{
    reveal(Seq::filter);
    if s.len() > 0 {
        lemma_count_is_filter_len(s.drop_last(), a);
    }
}

} // verus!
