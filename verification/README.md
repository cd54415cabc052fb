# nft_marketplace

A verified core for an NFT registry and an NFT marketplace that escrows listed
tokens and settles purchases with a fee in basis points.

- `src/address.rs`: addresses, identified by their textual key.
- `src/balances.rs`: a ledger of per-holder amounts with at most one record per holder.
- `src/nft.rs`: the NFT contract's storage, its abstract state (`NftView`) and its
  operations, each proved to act on the storage as the abstract operation of the
  same name acts on the abstract state.
- `src/marketplace.rs`: the marketplace's storage, its abstract state (`MarketView`)
  and its operations. Where the marketplace needs other contracts, an operation
  takes what they reported and returns the transfers to make.
- `src/laws.rs`: properties that span operations and both contracts.
- `app/`: the two Soroban contracts around the core (storage, authorization,
  cross-contract calls, events).
