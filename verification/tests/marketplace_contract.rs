use std::collections::HashMap;

use nft_marketplace::address::Address;
use nft_marketplace::marketplace::{
    ContractError, Listing, MarketplaceContract, NftTransfer, Purchase, TokenTransfer,
};
use nft_marketplace::nft::NftContract;

fn addr(key: &str) -> Address {
    Address::new(key.to_string())
}

/// The NFT contract, the marketplace and the payment token's balances, wired
/// together as the host wires the contracts: the marketplace's requests for
/// transfers are carried out on the NFT contract and on the token ledger, and
/// a refused transfer aborts with a panic.
struct World {
    nft: NftContract,
    market: MarketplaceContract,
    token_balances: HashMap<String, i128>,
}

impl World {
    fn new(market_address: &Address) -> World {
        World {
            nft: NftContract::new(),
            market: MarketplaceContract::new(market_address.copy()),
            token_balances: HashMap::new(),
        }
    }

    fn token_balance(&self, a: &Address) -> i128 {
        *self.token_balances.get(a.key()).unwrap_or(&0)
    }

    fn mint_tokens(&mut self, to: &Address, amount: i128) {
        *self.token_balances.entry(to.key().clone()).or_insert(0) += amount;
    }

    fn pay(&mut self, t: &TokenTransfer) {
        let from = self.token_balance(&t.from);
        assert!(t.amount >= 0 && from >= t.amount, "payment failed");
        self.token_balances.insert(t.from.key().clone(), from - t.amount);
        self.mint_tokens(&t.to, t.amount);
    }

    fn move_nft(&mut self, t: &NftTransfer) {
        if let Err(e) = self.nft.transfer(t.from.copy(), t.to.copy(), t.token_id) {
            panic!("{:?}", e);
        }
    }

    fn list_item(
        &mut self,
        seller: &Address,
        nft_contract: &Address,
        token_id: u32,
        payment_token: &Address,
        price: i128,
    ) -> u64 {
        let owner = self.nft.owner_of(token_id).unwrap();
        match self.market.list_item(
            seller.copy(),
            nft_contract.copy(),
            token_id,
            payment_token.copy(),
            price,
            &owner,
        ) {
            Ok(listed) => {
                self.move_nft(&listed.escrow);
                listed.listing_id
            }
            Err(e) => panic!("{:?}", e),
        }
    }

    fn buy_item(&mut self, buyer: &Address, listing_id: u64) -> Purchase {
        match self.market.buy_item(buyer.copy(), listing_id) {
            Ok(p) => {
                self.pay(&p.seller_payment);
                if let Some(fee) = &p.fee_payment {
                    self.pay(fee);
                }
                self.move_nft(&p.delivery);
                p
            }
            Err(e) => panic!("{:?}", e),
        }
    }

    fn cancel_listing(&mut self, seller: &Address, listing_id: u64) {
        match self.market.cancel_listing(seller.copy(), listing_id) {
            Ok(c) => self.move_nft(&c.refund),
            Err(e) => panic!("{:?}", e),
        }
    }

    fn get_listing(&self, listing_id: u64) -> Listing {
        self.market.get_listing(listing_id).unwrap()
    }
}

#[test]
fn listing_escrows_nft_to_marketplace() {
    let admin = addr("GADMIN");
    let seller = addr("GSELLER");
    let _buyer = addr("GBUYER");
    let nft_contract_id = addr("CNFT");
    let marketplace_contract_id = addr("CMARKET");
    let payment_token = addr("CTOKEN");
    let mut world = World::new(&marketplace_contract_id);

    world.nft.initialize(admin.copy()).unwrap();
    let (token_id, _) = world.nft.mint(seller.copy(), b"https://example.com/nft/1".to_vec());

    world.market.initialize(admin.copy(), 500).unwrap();
    let listing_id = world.list_item(&seller, &nft_contract_id, token_id, &payment_token, 1000i128);

    assert_eq!(world.nft.owner_of(token_id).unwrap(), marketplace_contract_id);
    let listing = world.get_listing(listing_id);
    assert!(listing.active);
    assert_eq!(listing.seller, seller);
}

#[test]
fn buying_transfers_nft_to_buyer_and_splits_payment() {
    let admin = addr("GADMIN");
    let seller = addr("GSELLER");
    let buyer = addr("GBUYER");
    let nft_contract_id = addr("CNFT");
    let marketplace_contract_id = addr("CMARKET");
    let payment_token = addr("CTOKEN");
    let mut world = World::new(&marketplace_contract_id);

    world.nft.initialize(admin.copy()).unwrap();
    let (token_id, _) = world.nft.mint(seller.copy(), b"https://example.com/nft/2".to_vec());

    world.mint_tokens(&buyer, 10000i128);

    world.market.initialize(admin.copy(), 500).unwrap();
    let listing_id = world.list_item(&seller, &nft_contract_id, token_id, &payment_token, 1000i128);
    world.buy_item(&buyer, listing_id);

    assert_eq!(world.nft.owner_of(token_id).unwrap(), buyer);
    assert_eq!(world.token_balance(&buyer), 9000i128);
    assert_eq!(world.token_balance(&seller), 950i128);
    assert_eq!(world.token_balance(&admin), 50i128);
}

#[test]
fn cancelling_returns_nft_to_seller() {
    let admin = addr("GADMIN");
    let seller = addr("GSELLER");
    let nft_contract_id = addr("CNFT");
    let marketplace_contract_id = addr("CMARKET");
    let payment_token = addr("CTOKEN");
    let mut world = World::new(&marketplace_contract_id);

    world.nft.initialize(admin.copy()).unwrap();
    let (token_id, _) = world.nft.mint(seller.copy(), b"https://example.com/nft/3".to_vec());

    world.market.initialize(admin.copy(), 200).unwrap();
    let listing_id = world.list_item(&seller, &nft_contract_id, token_id, &payment_token, 500i128);
    world.cancel_listing(&seller, listing_id);

    assert_eq!(world.nft.owner_of(token_id).unwrap(), seller);
    let listing = world.get_listing(listing_id);
    assert!(!listing.active);
}

#[test]
#[should_panic(expected = "ListingNotActive")]
fn buying_inactive_listing_panics() {
    let admin = addr("GADMIN");
    let seller = addr("GSELLER");
    let buyer = addr("GBUYER");
    let nft_contract_id = addr("CNFT");
    let marketplace_contract_id = addr("CMARKET");
    let payment_token = addr("CTOKEN");
    let mut world = World::new(&marketplace_contract_id);

    world.nft.initialize(admin.copy()).unwrap();
    let (token_id, _) = world.nft.mint(seller.copy(), b"https://example.com/nft/4".to_vec());

    world.mint_tokens(&buyer, 1000i128);

    world.market.initialize(admin.copy(), 100).unwrap();
    let listing_id = world.list_item(&seller, &nft_contract_id, token_id, &payment_token, 500i128);
    world.cancel_listing(&seller, listing_id);
    world.buy_item(&buyer, listing_id);
}

#[test]
#[should_panic(expected = "SellerDoesNotOwnToken")]
fn listing_nft_you_do_not_own_panics() {
    let admin = addr("GADMIN");
    let seller = addr("GSELLER");
    let impersonator = addr("GIMPERSONATOR");
    let nft_contract_id = addr("CNFT");
    let marketplace_contract_id = addr("CMARKET");
    let payment_token = addr("CTOKEN");
    let mut world = World::new(&marketplace_contract_id);

    world.nft.initialize(admin.copy()).unwrap();
    let (token_id, _) = world.nft.mint(seller.copy(), b"https://example.com/nft/5".to_vec());

    world.market.initialize(admin.copy(), 100).unwrap();
    world.list_item(&impersonator, &nft_contract_id, token_id, &payment_token, 1000i128);
}

#[test]
fn market_initialize_twice_is_refused() {
    let mut m = MarketplaceContract::new(addr("CMARKET"));
    m.initialize(addr("GADMIN"), 250).unwrap();
    assert_eq!(m.initialize(addr("GOTHER"), 1), Err(ContractError::Unauthorized));
    assert_eq!(m.fee_bps(), 250);
    assert_eq!(m.admin().unwrap(), &addr("GADMIN"));
}

#[test]
fn listing_ids_are_consecutive_and_counted() {
    let mut m = MarketplaceContract::new(addr("CMARKET"));
    m.initialize(addr("GADMIN"), 0).unwrap();
    assert_eq!(m.total_listings(), 0);
    for expected in 1..=3u64 {
        let listed = m
            .list_item(addr("GS"), addr("CNFT"), expected as u32, addr("CT"), 10, &addr("GS"))
            .unwrap();
        assert_eq!(listed.listing_id, expected);
        assert_eq!(listed.event.listing_id, expected);
        assert_eq!(listed.escrow.from, addr("GS"));
        assert_eq!(listed.escrow.to, addr("CMARKET"));
        assert_eq!(listed.escrow.nft_contract, addr("CNFT"));
    }
    assert_eq!(m.total_listings(), 3);
    assert_eq!(m.get_listing(2).unwrap().token_id, 2);
}

#[test]
fn refused_listing_changes_nothing() {
    let mut m = MarketplaceContract::new(addr("CMARKET"));
    m.initialize(addr("GADMIN"), 0).unwrap();
    let r = m.list_item(addr("GS"), addr("CNFT"), 1, addr("CT"), 10, &addr("GOWNER"));
    assert_eq!(r.unwrap_err(), ContractError::SellerDoesNotOwnToken);
    assert_eq!(m.total_listings(), 0);
    assert_eq!(m.get_listing(1).unwrap_err(), ContractError::ListingNotFound);
}

#[test]
fn unknown_listing_is_not_found() {
    let mut m = MarketplaceContract::new(addr("CMARKET"));
    m.initialize(addr("GADMIN"), 100).unwrap();
    assert_eq!(m.get_listing(0).unwrap_err(), ContractError::ListingNotFound);
    assert_eq!(m.buy_item(addr("GB"), 1).unwrap_err(), ContractError::ListingNotFound);
    assert_eq!(m.cancel_listing(addr("GS"), 7).unwrap_err(), ContractError::ListingNotFound);
}

#[test]
fn only_the_seller_cancels() {
    let mut m = MarketplaceContract::new(addr("CMARKET"));
    m.initialize(addr("GADMIN"), 100).unwrap();
    let id = m
        .list_item(addr("GS"), addr("CNFT"), 1, addr("CT"), 10, &addr("GS"))
        .unwrap()
        .listing_id;
    assert_eq!(m.cancel_listing(addr("GX"), id).unwrap_err(), ContractError::NotSeller);
    assert!(m.get_listing(id).unwrap().active);
    let c = m.cancel_listing(addr("GS"), id).unwrap();
    assert_eq!(c.refund.from, addr("CMARKET"));
    assert_eq!(c.refund.to, addr("GS"));
    assert_eq!(c.refund.token_id, 1);
    assert_eq!(c.event.listing_id, id);
    assert_eq!(m.cancel_listing(addr("GS"), id).unwrap_err(), ContractError::ListingNotActive);
}

#[test]
fn sold_listing_cannot_be_bought_or_cancelled() {
    let mut m = MarketplaceContract::new(addr("CMARKET"));
    m.initialize(addr("GADMIN"), 100).unwrap();
    let id = m
        .list_item(addr("GS"), addr("CNFT"), 4, addr("CT"), 10, &addr("GS"))
        .unwrap()
        .listing_id;
    m.buy_item(addr("GB"), id).unwrap();
    assert!(!m.get_listing(id).unwrap().active);
    assert_eq!(m.buy_item(addr("GB"), id).unwrap_err(), ContractError::ListingNotActive);
    assert_eq!(m.cancel_listing(addr("GS"), id).unwrap_err(), ContractError::ListingNotActive);
}

#[test]
fn purchase_splits_price_and_fee() {
    let mut m = MarketplaceContract::new(addr("CMARKET"));
    m.initialize(addr("GADMIN"), 250).unwrap();
    let id = m
        .list_item(addr("GS"), addr("CNFT"), 9, addr("CT"), 10_000, &addr("GS"))
        .unwrap()
        .listing_id;
    let p = m.buy_item(addr("GB"), id).unwrap();
    assert_eq!(p.seller_payment.amount, 9_750);
    assert_eq!(p.seller_payment.to, addr("GS"));
    assert_eq!(p.seller_payment.from, addr("GB"));
    assert_eq!(p.seller_payment.token, addr("CT"));
    let fee = p.fee_payment.unwrap();
    assert_eq!(fee.amount, 250);
    assert_eq!(fee.to, addr("GADMIN"));
    assert_eq!(p.delivery.from, addr("CMARKET"));
    assert_eq!(p.delivery.to, addr("GB"));
    assert_eq!(p.delivery.token_id, 9);
    assert_eq!(p.event.fee, 250);
    assert_eq!(p.event.price, 10_000);
}

#[test]
fn fee_rounds_toward_zero_and_zero_fee_is_not_paid() {
    let mut m = MarketplaceContract::new(addr("CMARKET"));
    m.initialize(addr("GADMIN"), 500).unwrap();
    let small = m
        .list_item(addr("GS"), addr("CNFT"), 1, addr("CT"), 19, &addr("GS"))
        .unwrap()
        .listing_id;
    let p = m.buy_item(addr("GB"), small).unwrap();
    assert_eq!(p.event.fee, 0);
    assert!(p.fee_payment.is_none());
    assert_eq!(p.seller_payment.amount, 19);

    let negative = m
        .list_item(addr("GS"), addr("CNFT"), 2, addr("CT"), -1_999, &addr("GS"))
        .unwrap()
        .listing_id;
    let q = m.buy_item(addr("GB"), negative).unwrap();
    assert_eq!(q.event.fee, -99);
    assert!(q.fee_payment.is_none());
    assert_eq!(q.seller_payment.amount, -1_900);
}

#[test]
fn listing_before_initialization_then_restart_of_ids() {
    let mut m = MarketplaceContract::new(addr("CMARKET"));
    let first = m
        .list_item(addr("GS"), addr("CNFT"), 1, addr("CT"), 10, &addr("GS"))
        .unwrap();
    assert_eq!(first.listing_id, 1);
    m.initialize(addr("GADMIN"), 100).unwrap();
    assert_eq!(m.total_listings(), 0);
    let again = m
        .list_item(addr("GT"), addr("CNFT"), 2, addr("CT"), 20, &addr("GT"))
        .unwrap();
    assert_eq!(again.listing_id, 1);
    assert_eq!(m.get_listing(1).unwrap().seller, addr("GT"));
}

#[test]
fn restore_keeps_listings() {
    let listing = Listing {
        seller: addr("GS"),
        nft_contract: addr("CNFT"),
        token_id: 3,
        payment_token: addr("CT"),
        price: 70,
        active: false,
    };
    let m = MarketplaceContract::restore(addr("CMARKET"), Some(addr("GADMIN")), 10, 1, vec![listing])
        .unwrap();
    assert_eq!(m.total_listings(), 1);
    assert!(!m.get_listing(1).unwrap().active);
    assert_eq!(m.address(), &addr("CMARKET"));
    assert!(MarketplaceContract::restore(addr("CMARKET"), None, 0, 2, Vec::new()).is_none());
}

#[test]
fn active_listings_stay_in_escrow() {
    let admin = addr("GADMIN");
    let market = addr("CMARKET");
    let nft_id = addr("CNFT");
    let token = addr("CTOKEN");
    let alice = addr("GALICE");
    let bob = addr("GBOB");
    let mut world = World::new(&market);
    world.nft.initialize(admin.copy()).unwrap();
    world.market.initialize(admin.copy(), 1000).unwrap();
    for _ in 0..3 {
        world.nft.mint(alice.copy(), b"u".to_vec());
    }
    world.mint_tokens(&bob, 1000);
    let l1 = world.list_item(&alice, &nft_id, 1, &token, 100);
    let l2 = world.list_item(&alice, &nft_id, 2, &token, 200);
    let l3 = world.list_item(&alice, &nft_id, 3, &token, 300);
    world.buy_item(&bob, l2);
    world.cancel_listing(&alice, l3);
    // a transfer by someone else does not reach the escrowed token
    assert!(world.nft.transfer(bob.copy(), bob.copy(), 1).is_err());
    for id in [l1, l2, l3] {
        let l = world.get_listing(id);
        if l.active {
            assert_eq!(world.nft.owner_of(l.token_id).unwrap(), market);
        }
    }
    assert_eq!(world.nft.owner_of(2).unwrap(), bob);
    assert_eq!(world.nft.owner_of(3).unwrap(), alice);
    assert_eq!(world.token_balance(&bob), 800);
    assert_eq!(world.token_balance(&alice), 180);
    assert_eq!(world.token_balance(&admin), 20);
}

#[test]
fn closed_listing_stays_closed_after_later_calls() {
    let mut m = MarketplaceContract::new(addr("CMARKET"));
    m.initialize(addr("GADMIN"), 100).unwrap();
    let sold = m
        .list_item(addr("GS"), addr("CNFT"), 1, addr("CT"), 10, &addr("GS"))
        .unwrap()
        .listing_id;
    m.buy_item(addr("GB"), sold).unwrap();
    let other = m
        .list_item(addr("GS"), addr("CNFT"), 2, addr("CT"), 10, &addr("GS"))
        .unwrap()
        .listing_id;
    m.cancel_listing(addr("GS"), other).unwrap();
    assert_eq!(m.initialize(addr("GX"), 0), Err(ContractError::Unauthorized));
    for t in 3..6u32 {
        m.list_item(addr("GS"), addr("CNFT"), t, addr("CT"), 10, &addr("GS")).unwrap();
    }
    for id in [sold, other] {
        assert!(!m.get_listing(id).unwrap().active);
        assert_eq!(m.buy_item(addr("GB"), id).unwrap_err(), ContractError::ListingNotActive);
        assert_eq!(m.cancel_listing(addr("GS"), id).unwrap_err(), ContractError::ListingNotActive);
    }
    assert_eq!(m.total_listings(), 5);
}

#[test]
fn listing_ids_stay_consecutive_and_terms_fixed() {
    let mut m = MarketplaceContract::new(addr("CMARKET"));
    m.initialize(addr("GADMIN"), 100).unwrap();
    let mut ids = Vec::new();
    for t in 1..=5u32 {
        let id = m
            .list_item(addr("GS"), addr("CNFT"), t, addr("CT"), (t as i128) * 10, &addr("GS"))
            .unwrap()
            .listing_id;
        ids.push(id);
        if t == 2 {
            m.buy_item(addr("GB"), 1).unwrap();
        }
        if t == 4 {
            m.cancel_listing(addr("GS"), 3).unwrap();
        }
        assert!(m.list_item(addr("GX"), addr("CNFT"), t, addr("CT"), 1, &addr("GS")).is_err());
    }
    assert_eq!(ids, vec![1, 2, 3, 4, 5]);
    assert_eq!(m.total_listings(), 5);
    for t in 1..=5u64 {
        let l = m.get_listing(t).unwrap();
        assert_eq!(l.token_id as u64, t);
        assert_eq!(l.price, (t as i128) * 10);
        assert_eq!(l.seller, addr("GS"));
        assert_eq!(l.active, t != 1 && t != 3);
    }
}
