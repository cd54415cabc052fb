use vstd::prelude::*;

use crate::address::{opt_key, Address};

verus! {

/// The ways an operation of the marketplace can be refused.
#[derive(Debug, Clone, Copy, PartialEq, Eq, Structural)]
pub enum ContractError {
    Unauthorized,
    NotSeller,
    ListingNotActive,
    ListingNotFound,
    SellerDoesNotOwnToken,
    PaymentFailed,
}

/// An NFT offered for sale, held in escrow by the marketplace while active.
#[derive(Debug)]
pub struct Listing {
    pub seller: Address,
    pub nft_contract: Address,
    pub token_id: u32,
    pub payment_token: Address,
    pub price: i128,
    pub active: bool,
}

/// A listing with its addresses taken by their keys.
pub struct ListingView {
    pub seller: Seq<char>,
    pub nft_contract: Seq<char>,
    pub token_id: u32,
    pub payment_token: Seq<char>,
    pub price: i128,
    pub active: bool,
}

impl View for Listing {
    type V = ListingView;

    open spec fn view(&self) -> ListingView {
        ListingView {
            seller: self.seller@,
            nft_contract: self.nft_contract@,
            token_id: self.token_id,
            payment_token: self.payment_token@,
            price: self.price,
            active: self.active,
        }
    }
}

impl Listing {
    /// A copy of this listing.
    pub fn copy(&self) -> (l: Listing)
        ensures
            l == *self,
            l@ == self@,
    {
        Listing {
            seller: self.seller.copy(),
            nft_contract: self.nft_contract.copy(),
            token_id: self.token_id,
            payment_token: self.payment_token.copy(),
            price: self.price,
            active: self.active,
        }
    }
}

/// Published when an NFT is listed.
#[derive(Debug)]
pub struct ListedEvent {
    pub listing_id: u64,
    pub seller: Address,
    pub nft_contract: Address,
    pub token_id: u32,
    pub payment_token: Address,
    pub price: i128,
}

/// Published when a listing is bought.
#[derive(Debug)]
pub struct BoughtEvent {
    pub listing_id: u64,
    pub buyer: Address,
    pub seller: Address,
    pub nft_contract: Address,
    pub token_id: u32,
    pub price: i128,
    pub fee: i128,
}

/// Published when a listing is cancelled.
#[derive(Debug)]
pub struct CancelledEvent {
    pub listing_id: u64,
    pub seller: Address,
    pub nft_contract: Address,
    pub token_id: u32,
}

/// A call of `transfer(from, to, token_id)` on the NFT contract at `nft_contract`.
#[derive(Debug)]
pub struct NftTransfer {
    pub nft_contract: Address,
    pub from: Address,
    pub to: Address,
    pub token_id: u32,
}

/// A call of `transfer(from, to, amount)` on the token contract at `token`.
#[derive(Debug)]
pub struct TokenTransfer {
    pub token: Address,
    pub from: Address,
    pub to: Address,
    pub amount: i128,
}

/// What a successful listing hands back: the new listing's id, the transfer
/// that puts the NFT in escrow, and the event to publish.
#[derive(Debug)]
pub struct Listed {
    pub listing_id: u64,
    pub escrow: NftTransfer,
    pub event: ListedEvent,
}

/// What a successful purchase hands back, in the order in which the calls are
/// made: the payment to the seller, the fee to the admin where the fee is
/// positive, the delivery of the NFT to the buyer, and the event to publish.
#[derive(Debug)]
pub struct Purchase {
    pub seller_payment: TokenTransfer,
    pub fee_payment: Option<TokenTransfer>,
    pub delivery: NftTransfer,
    pub event: BoughtEvent,
}

/// What a successful cancellation hands back: the transfer that returns the
/// NFT to the seller, and the event to publish.
#[derive(Debug)]
pub struct Cancellation {
    pub refund: NftTransfer,
    pub event: CancelledEvent,
}

/// Integer division that rounds toward zero, as Rust's `/` on integers does.
pub open spec fn div_toward_zero(a: int, b: int) -> int {
    if a >= 0 {
        a / b
    } else {
        -((-a) / b)
    }
}

/// The fee on a sale at `price` with a fee of `fee_bps` basis points.
pub open spec fn fee_for(price: int, fee_bps: int) -> int {
    div_toward_zero(price * fee_bps, 10000)
}

/// The abstract state of the marketplace: its own address, its admin, its fee
/// in basis points, the listing counter, and the stored listings, the one at
/// position `i` having id `i + 1`.
pub struct MarketView {
    pub address: Seq<char>,
    pub admin: Option<Seq<char>>,
    pub fee_bps: u32,
    pub listing_counter: nat,
    pub listings: Seq<ListingView>,
}

impl MarketView {
    /// The state of a marketplace at `address` whose storage is empty.
    pub open spec fn empty(address: Seq<char>) -> MarketView {
        MarketView {
            address,
            admin: None,
            fee_bps: 0,
            listing_counter: 0,
            listings: Seq::empty(),
        }
    }

    pub open spec fn is_initialized(self) -> bool {
        self.admin is Some
    }

    /// The listing counter never passes the stored listings.
    pub open spec fn well_formed(self) -> bool {
        self.listing_counter <= self.listings.len()
    }

    /// The id that the next listing receives.
    pub open spec fn next_listing_id(self) -> nat {
        self.listing_counter + 1
    }

    pub open spec fn total_listings(self) -> nat {
        self.listing_counter
    }

    pub open spec fn has_listing(self, listing_id: u64) -> bool {
        1 <= listing_id <= self.listings.len()
    }

    pub open spec fn get_listing(self, listing_id: u64) -> Result<ListingView, ContractError> {
        if self.has_listing(listing_id) {
            Ok(self.listings[listing_id - 1])
        } else {
            Err(ContractError::ListingNotFound)
        }
    }

    /// The fee on a sale at `price`.
    pub open spec fn fee_of(self, price: i128) -> int {
        fee_for(price as int, self.fee_bps as int)
    }

    pub open spec fn initialize(self, admin: Seq<char>, fee_bps: u32) -> Result<
        MarketView,
        ContractError,
    > {
        if self.is_initialized() {
            Err(ContractError::Unauthorized)
        } else {
            Ok(MarketView { admin: Some(admin), fee_bps, listing_counter: 0, ..self })
        }
    }

    /// The state after listing a token whose owner, as the NFT contract
    /// reports it, is `current_owner`.
    pub open spec fn list_item(
        self,
        seller: Seq<char>,
        nft_contract: Seq<char>,
        token_id: u32,
        payment_token: Seq<char>,
        price: i128,
        current_owner: Seq<char>,
    ) -> Result<MarketView, ContractError> {
        if current_owner != seller {
            Err(ContractError::SellerDoesNotOwnToken)
        } else {
            let id = self.next_listing_id();
            let l = ListingView { seller, nft_contract, token_id, payment_token, price, active: true };
            Ok(
                MarketView {
                    listing_counter: id,
                    listings: if id <= self.listings.len() {
                        self.listings.update(id - 1, l)
                    } else {
                        self.listings.push(l)
                    },
                    ..self
                },
            )
        }
    }

    /// The state after `listing_id` is closed.
    pub open spec fn deactivate(self, listing_id: u64) -> MarketView {
        MarketView {
            listings: self.listings.update(
                listing_id - 1,
                ListingView { active: false, ..self.listings[listing_id - 1] },
            ),
            ..self
        }
    }

    pub open spec fn buy_item(self, buyer: Seq<char>, listing_id: u64) -> Result<
        MarketView,
        ContractError,
    > {
        if !self.has_listing(listing_id) {
            Err(ContractError::ListingNotFound)
        } else if !self.listings[listing_id - 1].active {
            Err(ContractError::ListingNotActive)
        } else {
            Ok(self.deactivate(listing_id))
        }
    }

    pub open spec fn cancel_listing(self, seller: Seq<char>, listing_id: u64) -> Result<
        MarketView,
        ContractError,
    > {
        if !self.has_listing(listing_id) {
            Err(ContractError::ListingNotFound)
        } else if !self.listings[listing_id - 1].active {
            Err(ContractError::ListingNotActive)
        } else if self.listings[listing_id - 1].seller != seller {
            Err(ContractError::NotSeller)
        } else {
            Ok(self.deactivate(listing_id))
        }
    }

    /// A purchase of `listing_id` neither finds the marketplace uninitialized
    /// nor overflows computing the fee, where it gets that far.
    pub open spec fn purchase_is_defined(self, listing_id: u64) -> bool {
        (self.has_listing(listing_id) && self.listings[listing_id - 1].active) ==> {
            &&& self.is_initialized()
            &&& i128::MIN <= self.listings[listing_id - 1].price * self.fee_bps <= i128::MAX
        }
    }
}

/// The fee on a sale at `price` with `fee_bps` basis points.
fn compute_fee(price: i128, fee_bps: u32) -> (fee: i128)
    requires
        i128::MIN <= price * fee_bps <= i128::MAX,
    ensures
        fee == fee_for(price as int, fee_bps as int),
        price >= 0 ==> fee >= 0,
        price <= 0 ==> fee <= 0,
        fee > i128::MIN,
{
    let product = price * (fee_bps as i128);
    proof {
        let b = fee_bps as int;
        let p = price as int;
        assert(p >= 0 ==> p * b >= 0) by (nonlinear_arith)
            requires
                b >= 0,
        ;
        assert(p <= 0 ==> p * b <= 0) by (nonlinear_arith)
            requires
                b >= 0,
        ;
    }
    product / 10000
}

/// The marketplace's storage, together with its own address.
pub struct MarketplaceContract {
    address: Address,
    admin: Option<Address>,
    fee_bps: u32,
    listing_counter: u64,
    listings: Vec<Listing>,
}

impl View for MarketplaceContract {
    type V = MarketView;

    closed spec fn view(&self) -> MarketView {
        MarketView {
            address: self.address@,
            admin: opt_key(self.admin),
            fee_bps: self.fee_bps,
            listing_counter: self.listing_counter as nat,
            listings: self.listings@.map_values(|l: Listing| l@),
        }
    }
}

impl MarketplaceContract {
    /// The listing counter never passes the stored listings.
    pub closed spec fn well_formed(&self) -> bool {
        self.listing_counter <= self.listings@.len()
    }

    /// A consistent storage has a well-formed view.
    pub proof fn lemma_view_well_formed(&self)
        requires
            self.well_formed(),
        ensures
            self@.well_formed(),
    {
    }

    /// The marketplace at `address`, with empty storage.
    pub fn new(address: Address) -> (m: MarketplaceContract)
        ensures
            m.well_formed(),
            m@ == MarketView::empty(address@),
    {
        let m = MarketplaceContract {
            address,
            admin: None,
            fee_bps: 0,
            listing_counter: 0,
            listings: Vec::new(),
        };
        assert(m@.listings =~= Seq::<ListingView>::empty());
        m
    }

    /// Rebuilds the storage of the marketplace at `address` from its admin,
    /// its fee, its listing counter and its listings in the order of their
    /// ids. `None` where the counter passes the listings.
    pub fn restore(
        address: Address,
        admin: Option<Address>,
        fee_bps: u32,
        listing_counter: u64,
        listings: Vec<Listing>,
    ) -> (r: Option<MarketplaceContract>)
        ensures
            r is None <==> listing_counter > listings@.len(),
            r matches Some(m) ==> m.well_formed() && m@ == (MarketView {
                address: address@,
                admin: opt_key(admin),
                fee_bps,
                listing_counter: listing_counter as nat,
                listings: listings@.map_values(|l: Listing| l@),
            }),
    {
        if listing_counter > listings.len() as u64 {
            return None;
        }
        Some(MarketplaceContract { address, admin, fee_bps, listing_counter, listings })
    }

    /// The marketplace's own address.
    pub fn address(&self) -> (a: &Address)
        ensures
            a@ == self@.address,
    {
        &self.address
    }

    /// The admin, once the marketplace is initialized.
    pub fn admin(&self) -> (r: Option<&Address>)
        ensures
            match r {
                Some(a) => self@.admin == Some(a@),
                None => self@.admin is None,
            },
    {
        match &self.admin {
            Some(a) => Some(a),
            None => None,
        }
    }

    /// The fee in basis points (0 before initialization).
    pub fn fee_bps(&self) -> (r: u32)
        ensures
            r == self@.fee_bps,
    {
        self.fee_bps
    }

    /// Sets the admin and the fee and starts the listing counter at 0.
    /// Refused with `Unauthorized` where an admin is already set.
    pub fn initialize(&mut self, admin: Address, fee_bps: u32) -> (r: Result<(), ContractError>)
        requires
            old(self).well_formed(),
        ensures
            final(self).well_formed(),
            match old(self)@.initialize(admin@, fee_bps) {
                Ok(v) => r is Ok && final(self)@ == v,
                Err(e) => r == Err::<(), ContractError>(e) && final(self)@ == old(self)@,
            },
    {
        if self.admin.is_some() {
            return Err(ContractError::Unauthorized);
        }
        self.admin = Some(admin);
        self.fee_bps = fee_bps;
        self.listing_counter = 0;
        Ok(())
    }

    /// Lists `token_id` of `nft_contract` for sale at `price`, given the owner
    /// of the token as the NFT contract reports it. Refused with
    /// `SellerDoesNotOwnToken` where that owner is not `seller`. On success the
    /// caller moves the NFT into escrow with the returned transfer; the
    /// seller's authorization is checked by the caller.
    pub fn list_item(
        &mut self,
        seller: Address,
        nft_contract: Address,
        token_id: u32,
        payment_token: Address,
        price: i128,
        current_owner: &Address,
    ) -> (r: Result<Listed, ContractError>)
        requires
            old(self).well_formed(),
            current_owner@ == seller@ ==> old(self)@.total_listings() < u64::MAX,
        ensures
            final(self).well_formed(),
            match old(self)@.list_item(
                seller@,
                nft_contract@,
                token_id,
                payment_token@,
                price,
                current_owner@,
            ) {
                Ok(v) => r matches Ok(out) && final(self)@ == v && out.listing_id
                    == old(self)@.next_listing_id() && out.escrow.nft_contract@ == nft_contract@
                    && out.escrow.from@ == seller@ && out.escrow.to@ == old(self)@.address
                    && out.escrow.token_id == token_id && out.event.listing_id == out.listing_id
                    && out.event.seller@ == seller@ && out.event.nft_contract@ == nft_contract@
                    && out.event.token_id == token_id && out.event.payment_token@
                    == payment_token@ && out.event.price == price,
                Err(e) => r matches Err(f) && f == e && final(self)@ == old(self)@,
            },
    {
        if !current_owner.same_as(&seller) {
            return Err(ContractError::SellerDoesNotOwnToken);
        }
        let escrow = NftTransfer {
            nft_contract: nft_contract.copy(),
            from: seller.copy(),
            to: self.address.copy(),
            token_id,
        };
        let listing_id = self.listing_counter + 1;
        let listing = Listing {
            seller: seller.copy(),
            nft_contract: nft_contract.copy(),
            token_id,
            payment_token: payment_token.copy(),
            price,
            active: true,
        };
        let ghost old_listings = self@.listings;
        let idx = self.listing_counter as usize;
        if idx < self.listings.len() {
            self.listings.set(idx, listing);
            assert(self@.listings =~= old_listings.update(idx as int, listing@));
        } else {
            self.listings.push(listing);
            assert(self@.listings =~= old_listings.push(listing@));
        }
        self.listing_counter = listing_id;
        Ok(
            Listed {
                listing_id,
                escrow,
                event: ListedEvent {
                    listing_id,
                    seller,
                    nft_contract,
                    token_id,
                    payment_token,
                    price,
                },
            },
        )
    }

    fn close(&mut self, listing_id: u64, idx: usize)
        requires
            old(self).well_formed(),
            old(self)@.has_listing(listing_id),
            idx == listing_id - 1,
        ensures
            final(self).well_formed(),
            final(self)@ == old(self)@.deactivate(listing_id),
    {
        let ghost old_listings = self@.listings;
        let mut l = self.listings[idx].copy();
        l.active = false;
        self.listings.set(idx, l);
        assert(self@.listings =~= old_listings.update(
            idx as int,
            ListingView { active: false, ..old_listings[idx as int] },
        ));
    }

    /// Buys `listing_id` for `buyer`. Refused with `ListingNotFound` where no
    /// listing has that id and with `ListingNotActive` where it was bought or
    /// cancelled. On success the caller makes the returned payments and the
    /// delivery; the buyer's authorization is checked by the caller.
    pub fn buy_item(&mut self, buyer: Address, listing_id: u64) -> (r: Result<
        Purchase,
        ContractError,
    >)
        requires
            old(self).well_formed(),
            old(self)@.purchase_is_defined(listing_id),
        ensures
            final(self).well_formed(),
            match old(self)@.buy_item(buyer@, listing_id) {
                Ok(v) => r matches Ok(p) && final(self)@ == v && {
                    let l = old(self)@.listings[listing_id - 1];
                    let fee = old(self)@.fee_of(l.price);
                    let admin = old(self)@.admin->Some_0;
                    &&& p.seller_payment.token@ == l.payment_token
                    &&& p.seller_payment.from@ == buyer@
                    &&& p.seller_payment.to@ == l.seller
                    &&& p.seller_payment.amount == l.price - fee
                    &&& (fee > 0 <==> p.fee_payment is Some)
                    &&& (p.fee_payment matches Some(t) ==> t.token@ == l.payment_token
                        && t.from@ == buyer@ && t.to@ == admin && t.amount == fee)
                    &&& p.delivery.nft_contract@ == l.nft_contract
                    &&& p.delivery.from@ == old(self)@.address
                    &&& p.delivery.to@ == buyer@
                    &&& p.delivery.token_id == l.token_id
                    &&& p.event.listing_id == listing_id
                    &&& p.event.buyer@ == buyer@
                    &&& p.event.seller@ == l.seller
                    &&& p.event.nft_contract@ == l.nft_contract
                    &&& p.event.token_id == l.token_id
                    &&& p.event.price == l.price
                    &&& p.event.fee == fee
                },
                Err(e) => r matches Err(f) && f == e && final(self)@ == old(self)@,
            },
    {
        if listing_id == 0 || listing_id > self.listings.len() as u64 {
            return Err(ContractError::ListingNotFound);
        }
        let idx = (listing_id - 1) as usize;
        assert(self.listings@[idx as int]@ == self@.listings[listing_id - 1]);
        if !self.listings[idx].active {
            return Err(ContractError::ListingNotActive);
        }
        let price = self.listings[idx].price;
        let fee = compute_fee(price, self.fee_bps);
        let seller_amount = price - fee;
        let admin = self.admin.as_ref().unwrap();
        let listing = &self.listings[idx];
        let seller_payment = TokenTransfer {
            token: listing.payment_token.copy(),
            from: buyer.copy(),
            to: listing.seller.copy(),
            amount: seller_amount,
        };
        let fee_payment = if fee > 0 {
            Some(
                TokenTransfer {
                    token: listing.payment_token.copy(),
                    from: buyer.copy(),
                    to: admin.copy(),
                    amount: fee,
                },
            )
        } else {
            None
        };
        let delivery = NftTransfer {
            nft_contract: listing.nft_contract.copy(),
            from: self.address.copy(),
            to: buyer.copy(),
            token_id: listing.token_id,
        };
        let event = BoughtEvent {
            listing_id,
            buyer,
            seller: listing.seller.copy(),
            nft_contract: listing.nft_contract.copy(),
            token_id: listing.token_id,
            price,
            fee,
        };
        self.close(listing_id, idx);
        Ok(Purchase { seller_payment, fee_payment, delivery, event })
    }

    /// Cancels `listing_id` on behalf of `seller`. Refused with
    /// `ListingNotFound` where no listing has that id, with `ListingNotActive`
    /// where it was bought or cancelled, and with `NotSeller` where `seller`
    /// did not list it. On success the caller returns the NFT with the returned
    /// transfer; the seller's authorization is checked by the caller.
    pub fn cancel_listing(&mut self, seller: Address, listing_id: u64) -> (r: Result<
        Cancellation,
        ContractError,
    >)
        requires
            old(self).well_formed(),
        ensures
            final(self).well_formed(),
            match old(self)@.cancel_listing(seller@, listing_id) {
                Ok(v) => r matches Ok(c) && final(self)@ == v && {
                    let l = old(self)@.listings[listing_id - 1];
                    &&& c.refund.nft_contract@ == l.nft_contract
                    &&& c.refund.from@ == old(self)@.address
                    &&& c.refund.to@ == seller@
                    &&& c.refund.token_id == l.token_id
                    &&& c.event.listing_id == listing_id
                    &&& c.event.seller@ == seller@
                    &&& c.event.nft_contract@ == l.nft_contract
                    &&& c.event.token_id == l.token_id
                },
                Err(e) => r matches Err(f) && f == e && final(self)@ == old(self)@,
            },
    {
        if listing_id == 0 || listing_id > self.listings.len() as u64 {
            return Err(ContractError::ListingNotFound);
        }
        let idx = (listing_id - 1) as usize;
        assert(self.listings@[idx as int]@ == self@.listings[listing_id - 1]);
        if !self.listings[idx].active {
            return Err(ContractError::ListingNotActive);
        }
        if !self.listings[idx].seller.same_as(&seller) {
            return Err(ContractError::NotSeller);
        }
        let listing = &self.listings[idx];
        let refund = NftTransfer {
            nft_contract: listing.nft_contract.copy(),
            from: self.address.copy(),
            to: seller.copy(),
            token_id: listing.token_id,
        };
        let event = CancelledEvent {
            listing_id,
            seller,
            nft_contract: listing.nft_contract.copy(),
            token_id: listing.token_id,
        };
        self.close(listing_id, idx);
        Ok(Cancellation { refund, event })
    }

    /// The listing with id `listing_id`; `ListingNotFound` where there is none.
    pub fn get_listing(&self, listing_id: u64) -> (r: Result<Listing, ContractError>)
        requires
            self.well_formed(),
        ensures
            match self@.get_listing(listing_id) {
                Ok(l) => r matches Ok(x) && x@ == l,
                Err(e) => r matches Err(f) && f == e,
            },
    {
        if listing_id == 0 || listing_id > self.listings.len() as u64 {
            return Err(ContractError::ListingNotFound);
        }
        let idx = (listing_id - 1) as usize;
        Ok(self.listings[idx].copy())
    }

    /// The number of listings made so far (the listing counter).
    pub fn total_listings(&self) -> (r: u64)
        ensures
            r as nat == self@.total_listings(),
    {
        self.listing_counter
    }
}

} // verus!
