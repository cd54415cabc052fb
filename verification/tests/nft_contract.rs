use nft_marketplace::address::Address;
use nft_marketplace::nft::{ContractError, NftContract};

fn addr(key: &str) -> Address {
    Address::new(key.to_string())
}

fn uri(s: &str) -> Vec<u8> {
    s.as_bytes().to_vec()
}

/// A contract initialized with `admin`.
fn initialized(admin: &Address) -> NftContract {
    let mut c = NftContract::new();
    c.initialize(admin.copy()).unwrap();
    c
}

#[test]
fn mint_sets_owner_and_balance_correctly() {
    let admin = addr("GADMIN");
    let owner = addr("GOWNER");
    let mut client = initialized(&admin);

    let (token_id, _) = client.mint(owner.copy(), uri("https://example.com/nft/1"));

    assert_eq!(token_id, 1);
    assert_eq!(client.owner_of(1).unwrap(), owner);
    assert_eq!(client.balance_of(&owner), 1);
}

#[test]
fn transfer_moves_ownership_and_updates_balances() {
    let admin = addr("GADMIN");
    let seller = addr("GSELLER");
    let buyer = addr("GBUYER");
    let mut client = initialized(&admin);

    let (token_id, _) = client.mint(seller.copy(), uri("https://example.com/nft/2"));
    assert_eq!(client.balance_of(&seller), 1);

    client.transfer(seller.copy(), buyer.copy(), token_id).unwrap();
    assert_eq!(client.owner_of(token_id).unwrap(), buyer);
    assert_eq!(client.balance_of(&seller), 0);
    assert_eq!(client.balance_of(&buyer), 1);
}

#[test]
fn total_supply_increments_across_mints() {
    let admin = addr("GADMIN");
    let first = addr("GFIRST");
    let second = addr("GSECOND");
    let mut client = initialized(&admin);

    client.mint(first, uri("https://example.com/nft/3"));
    client.mint(second, uri("https://example.com/nft/4"));

    assert_eq!(client.total_supply(), 2);
}

#[test]
#[should_panic(expected = "NotOwner")]
fn transfer_by_non_owner_panics() {
    let admin = addr("GADMIN");
    let owner = addr("GOWNER");
    let other = addr("GOTHER");
    let mut client = initialized(&admin);

    let (token_id, _) = client.mint(owner, uri("https://example.com/nft/5"));
    if let Err(e) = client.transfer(other, addr("GSOMEONE"), token_id) {
        panic!("{:?}", e);
    }
}

#[test]
fn new_contract_is_empty() {
    let c = NftContract::new();
    assert!(c.admin().is_none());
    assert_eq!(c.total_supply(), 0);
    assert_eq!(c.balance_of(&addr("GANY")), 0);
    assert_eq!(c.owner_of(1).unwrap_err(), ContractError::TokenNotFound);
}

#[test]
fn nft_initialize_twice_is_refused() {
    let mut c = initialized(&addr("GADMIN"));
    assert_eq!(c.initialize(addr("GOTHER")), Err(ContractError::AlreadyInitialized));
    assert_eq!(c.admin().unwrap(), &addr("GADMIN"));
}

#[test]
fn mint_returns_event_and_uri() {
    let mut c = initialized(&addr("GADMIN"));
    let (id, event) = c.mint(addr("GOWNER"), uri("ipfs://a"));
    assert_eq!(id, 1);
    assert_eq!(event.owner, addr("GOWNER"));
    assert_eq!(event.token_id, 1);
    assert_eq!(event.uri, uri("ipfs://a"));
    assert_eq!(c.token_uri(1).unwrap(), uri("ipfs://a"));
}

#[test]
fn mint_ids_are_consecutive() {
    let mut c = initialized(&addr("GADMIN"));
    let owner = addr("GOWNER");
    for expected in 1..=5u32 {
        let (id, _) = c.mint(owner.copy(), uri("u"));
        assert_eq!(id, expected);
    }
    assert_eq!(c.balance_of(&owner), 5);
    assert_eq!(c.total_supply(), 5);
}

#[test]
fn unknown_tokens_are_not_found() {
    let mut c = initialized(&addr("GADMIN"));
    c.mint(addr("GOWNER"), uri("u"));
    assert_eq!(c.owner_of(0).unwrap_err(), ContractError::TokenNotFound);
    assert_eq!(c.owner_of(2).unwrap_err(), ContractError::TokenNotFound);
    assert_eq!(c.token_uri(2).unwrap_err(), ContractError::TokenNotFound);
    assert_eq!(
        c.transfer(addr("GOWNER"), addr("GX"), 2).unwrap_err(),
        ContractError::TokenNotFound
    );
}

#[test]
fn refused_transfer_changes_nothing() {
    let mut c = initialized(&addr("GADMIN"));
    c.mint(addr("GOWNER"), uri("u"));
    assert_eq!(
        c.transfer(addr("GTHIEF"), addr("GTHIEF"), 1).unwrap_err(),
        ContractError::NotOwner
    );
    assert_eq!(c.owner_of(1).unwrap(), addr("GOWNER"));
    assert_eq!(c.balance_of(&addr("GOWNER")), 1);
    assert_eq!(c.balance_of(&addr("GTHIEF")), 0);
}

#[test]
fn transfer_to_self_keeps_balance() {
    let mut c = initialized(&addr("GADMIN"));
    c.mint(addr("GOWNER"), uri("u"));
    let event = c.transfer(addr("GOWNER"), addr("GOWNER"), 1).unwrap();
    assert_eq!(event.from, addr("GOWNER"));
    assert_eq!(event.to, addr("GOWNER"));
    assert_eq!(event.token_id, 1);
    assert_eq!(c.owner_of(1).unwrap(), addr("GOWNER"));
    assert_eq!(c.balance_of(&addr("GOWNER")), 1);
}

#[test]
fn transfer_and_back_restores_balances() {
    let mut c = initialized(&addr("GADMIN"));
    c.mint(addr("GA"), uri("u1"));
    c.mint(addr("GB"), uri("u2"));
    c.transfer(addr("GA"), addr("GB"), 1).unwrap();
    assert_eq!(c.balance_of(&addr("GA")), 0);
    assert_eq!(c.balance_of(&addr("GB")), 2);
    c.transfer(addr("GB"), addr("GA"), 1).unwrap();
    assert_eq!(c.owner_of(1).unwrap(), addr("GA"));
    assert_eq!(c.owner_of(2).unwrap(), addr("GB"));
    assert_eq!(c.balance_of(&addr("GA")), 1);
    assert_eq!(c.balance_of(&addr("GB")), 1);
    assert_eq!(c.total_supply(), 2);
}

#[test]
fn restore_rebuilds_tokens_and_balances() {
    let tokens = vec![
        (addr("GA"), uri("u1")),
        (addr("GB"), uri("u2")),
        (addr("GA"), uri("u3")),
    ];
    let c = NftContract::restore(Some(addr("GADMIN")), &tokens).unwrap();
    assert_eq!(c.total_supply(), 3);
    assert_eq!(c.owner_of(3).unwrap(), addr("GA"));
    assert_eq!(c.token_uri(2).unwrap(), uri("u2"));
    assert_eq!(c.balance_of(&addr("GA")), 2);
    assert_eq!(c.balance_of(&addr("GB")), 1);
    assert!(NftContract::restore(None, &tokens).is_none());
    assert!(NftContract::restore(None, &Vec::new()).is_some());
}

#[test]
fn balances_add_up_to_total_supply() {
    let mut c = initialized(&addr("GADMIN"));
    let holders = [addr("GA"), addr("GB"), addr("GC")];
    for i in 0..7usize {
        c.mint(holders[i % 3].copy(), uri("u"));
    }
    c.transfer(addr("GA"), addr("GC"), 1).unwrap();
    c.transfer(addr("GB"), addr("GA"), 2).unwrap();
    c.transfer(addr("GC"), addr("GC"), 3).unwrap();
    let sum: u32 = holders.iter().map(|h| c.balance_of(h)).sum();
    assert_eq!(sum, c.total_supply());
    assert_eq!(c.total_supply(), 7);
    assert_eq!(c.balance_of(&addr("GA")), 3);
    assert_eq!(c.balance_of(&addr("GB")), 1);
    assert_eq!(c.balance_of(&addr("GC")), 3);
}

#[test]
fn uris_are_arbitrary_bytes() {
    let mut c = initialized(&addr("GADMIN"));
    let raw = vec![0xffu8, 0x00, 0xfe, b'x'];
    let (id, event) = c.mint(addr("GOWNER"), raw.clone());
    assert_eq!(event.uri, raw);
    assert_eq!(c.token_uri(id).unwrap(), raw);
    let restored = NftContract::restore(Some(addr("GADMIN")), &vec![(addr("GOWNER"), raw.clone())])
        .unwrap();
    assert_eq!(restored.token_uri(1).unwrap(), raw);
}

#[test]
fn ids_stay_consecutive_and_uris_fixed_across_transfers() {
    let mut c = initialized(&addr("GADMIN"));
    let mut ids = Vec::new();
    for k in 0..6u32 {
        let holder = if k % 2 == 0 { addr("GA") } else { addr("GB") };
        let (id, _) = c.mint(holder, uri(&format!("uri-{}", k)));
        ids.push(id);
        if k >= 1 {
            c.transfer(addr("GB"), addr("GA"), id - (k % 2)).ok();
            c.transfer(addr("GA"), addr("GC"), 1).ok();
        }
    }
    assert_eq!(ids, vec![1, 2, 3, 4, 5, 6]);
    assert_eq!(c.total_supply(), 6);
    for k in 0..6u32 {
        assert_eq!(c.token_uri(k + 1).unwrap(), uri(&format!("uri-{}", k)));
    }
}
