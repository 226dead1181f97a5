//! The asset registry: assets with immutable genomes, their owners, a
//! deposit reserved from each owner for every asset it holds, and ask
//! prices for a small marketplace.
use crate::balances::{
    account_of, after_reserve, after_transfer, after_unreserve, AccountId, Balance, BalanceError,
    Balances,
};
use crate::genome::{combine_dna, crossover};
use crate::randomness::{random_value, selector_of, BlockContext};
use std::collections::HashMap;
use vstd::prelude::*;

verus! {

broadcast use vstd::std_specs::hash::group_hash_axioms;

/// An asset identifier.
pub type KittyIndex = u32;

/// An asset: its 16-byte genome.
#[derive(Clone, Copy, Debug)]
pub struct Kitty(pub [u8; 16]);

/// The registry's parameters.
#[derive(Clone, Copy, Debug, PartialEq, Eq, Structural)]
pub struct Config {
    /// The deposit reserved from an owner for each asset it holds.
    pub pledge_quantity: Balance,
}

/// The notification that a successful operation hands back.
#[derive(Clone, Copy, Debug, PartialEq, Eq, Structural)]
pub enum Event {
    /// An asset was created: its owner and identifier.
    KittyCreated(AccountId, KittyIndex),
    /// An asset changed hands: the former owner, the new owner, the asset.
    KittyTransferred(AccountId, AccountId, KittyIndex),
    /// An asking price was set or withdrawn.
    KittyAsk(KittyIndex, Option<Balance>),
    /// An asset was sold: the seller, the buyer, the asset and the price paid.
    KittySold(AccountId, AccountId, KittyIndex, Balance),
}

/// Why an operation was refused. A refused operation changes nothing.
#[derive(Clone, Copy, Debug, PartialEq, Eq, Structural)]
pub enum Error {
    /// The identifier space is exhausted.
    KittiesCountOverflow,
    /// The caller does not own the asset.
    NotKittyOwner,
    /// Both parents are the same asset.
    SameKitties,
    /// No asset has this identifier.
    InvalidKittyId,
    /// The asset has no asking price.
    KittyNotForSale,
    /// The offered price is below the asking price.
    PriceTooLow,
    /// A deposit or a payment is not covered by the free balance.
    InsufficientBalance,
    /// A payment would take the receiver's total past the largest balance.
    Overflow,
}

/// The ledger's error as an error of the registry.
pub open spec fn balance_error(e: BalanceError) -> Error {
    match e {
        BalanceError::InsufficientBalance => Error::InsufficientBalance,
        BalanceError::Overflow => Error::Overflow,
    }
}

fn from_balance_error(e: BalanceError) -> (r: Error)
    ensures
        r == balance_error(e),
{
    match e {
        BalanceError::InsufficientBalance => Error::InsufficientBalance,
        BalanceError::Overflow => Error::Overflow,
    }
}

/// The assets that `who` owns.
pub open spec fn owned_by(owners: Map<KittyIndex, AccountId>, who: AccountId) -> Set<KittyIndex> {
    owners.dom().filter(|k: KittyIndex| owners[k] == who)
}

/// The number of assets that `who` owns.
pub open spec fn owned_count(owners: Map<KittyIndex, AccountId>, who: AccountId) -> nat {
    owned_by(owners, who).len()
}

/// Giving asset `id` to `to` changes the counts of its former owner and of
/// `to`, and of no one else.
pub proof fn lemma_owned_count_insert(owners: Map<KittyIndex, AccountId>, id: KittyIndex, to: AccountId, who: AccountId)
    requires
        owners.dom().finite(),
    ensures
        owned_count(owners.insert(id, to), who) == owned_count(owners, who)
            - (if owners.contains_key(id) && owners[id] == who { 1int } else { 0int })
            + (if to == who { 1int } else { 0int }),
{
    let s = owned_by(owners, who);
    let s2 = owned_by(owners.insert(id, to), who);
    owners.dom().lemma_len_filter(|k: KittyIndex| owners[k] == who);
    let base = s.remove(id);
    if to == who {
        assert(s2 =~= base.insert(id));
    } else {
        assert(s2 =~= base);
    }
}

proof fn lemma_mul_step(p: int, c: int)
    ensures
        p * (c + 1) == p * c + p,
        p * (c - 1) == p * c - p,
{
    assert(p * (c + 1) == p * c + p) by (nonlinear_arith);
    assert(p * (c - 1) == p * c - p) by (nonlinear_arith);
}

/// The owner of a stored asset owns at least one asset.
proof fn lemma_owner_count_positive(owners: Map<KittyIndex, AccountId>, id: KittyIndex)
    requires
        owners.dom().finite(),
        owners.contains_key(id),
    ensures
        owned_count(owners, owners[id]) >= 1,
{
    let s = owned_by(owners, owners[id]);
    owners.dom().lemma_len_filter(|k: KittyIndex| owners[k] == owners[id]);
    assert(s.contains(id));
    assert(s.remove(id).len() == s.len() - 1);
}

proof fn lemma_mul_at_least(p: int, c: int)
    requires
        p >= 0,
        c >= 1,
    ensures
        p * c >= p,
{
    assert(p * c >= p) by (nonlinear_arith)
        requires
            p >= 0,
            c >= 1,
    ;
}

/// The registry and the ledger that its deposits and payments draw on.
pub struct Pallet {
    config: Config,
    kitties_count: Option<KittyIndex>,
    kitties: HashMap<KittyIndex, Kitty>,
    owners: HashMap<KittyIndex, AccountId>,
    prices: HashMap<KittyIndex, Balance>,
    balances: Balances,
}

impl Pallet {
    /// The deposit reserved per asset.
    pub closed spec fn pledge(&self) -> Balance {
        self.config.pledge_quantity
    }

    /// The stored counter, absent until the first asset is created.
    pub closed spec fn count_value(&self) -> Option<KittyIndex> {
        self.kitties_count
    }

    /// The identifier that the next creation allocates.
    pub open spec fn next_id(&self) -> KittyIndex {
        match self.count_value() {
            Some(n) => n,
            None => 0,
        }
    }

    /// The assets, by identifier.
    pub closed spec fn kitty_map(&self) -> Map<KittyIndex, Kitty> {
        self.kitties@
    }

    /// The owner of each asset.
    pub closed spec fn owner_map(&self) -> Map<KittyIndex, AccountId> {
        self.owners@
    }

    /// The asking price of each listed asset.
    pub closed spec fn price_map(&self) -> Map<KittyIndex, Balance> {
        self.prices@
    }

    /// The balance ledger.
    pub closed spec fn ledger(&self) -> Balances {
        self.balances
    }

    /// Every stored asset has an identifier below the counter and an owner,
    /// and only stored assets have owners or prices; every account's
    /// reserved balance is the deposit times the number of assets it owns.
    pub closed spec fn wf(&self) -> bool {
        &&& self.balances.wf()
        &&& forall|id: KittyIndex| #[trigger] self.kitties@.contains_key(id) ==> id < self.next_id()
        &&& self.owners@.dom() == self.kitties@.dom()
        &&& forall|id: KittyIndex| #[trigger] self.prices@.contains_key(id) ==> self.kitties@.contains_key(id)
        &&& forall|a: AccountId|
            #[trigger] self.balances.reserved(a) == self.config.pledge_quantity * owned_count(self.owners@, a)
    }

    /// `self` is `before` with asset `id` added: genome `dna`, owned by
    /// `owner`, its deposit reserved from `owner`, the counter past `id`.
    pub open spec fn adds_kitty(self, before: Self, id: KittyIndex, owner: AccountId, dna: Seq<u8>) -> bool {
        &&& id == before.next_id()
        &&& !before.kitty_map().contains_key(id)
        &&& self.kitty_map() == before.kitty_map().insert(id, self.kitty_map()[id])
        &&& self.kitty_map()[id].0@ == dna
        &&& self.owner_map() == before.owner_map().insert(id, owner)
        &&& self.price_map() == before.price_map()
        &&& self.count_value() == Some((id + 1) as KittyIndex)
        &&& self.pledge() == before.pledge()
        &&& self.ledger()@ == after_reserve(before.ledger()@, owner, before.pledge())
    }

    /// `self` is `before` with asset `id` handed from `from` to `to`: the
    /// deposit is reserved from `to`, then released to `from`. Assets, the
    /// counter and the deposit size stay as they were.
    pub open spec fn moves_kitty(self, before: Self, id: KittyIndex, from: AccountId, to: AccountId) -> bool {
        &&& self.owner_map() == before.owner_map().insert(id, to)
        &&& self.kitty_map() == before.kitty_map()
        &&& self.count_value() == before.count_value()
        &&& self.pledge() == before.pledge()
        &&& self.ledger()@ == after_unreserve(after_reserve(before.ledger()@, to, before.pledge()), from, before.pledge())
    }

    /// `self` holds the same assets, owners and counter as `before`, under
    /// the same deposit size.
    pub open spec fn same_assets(self, before: Self) -> bool {
        &&& self.kitty_map() == before.kitty_map()
        &&& self.owner_map() == before.owner_map()
        &&& self.count_value() == before.count_value()
        &&& self.pledge() == before.pledge()
    }

    /// Why `sender` handing asset `id` to `to` would be refused, if it would.
    pub open spec fn transfer_error(self, sender: AccountId, to: AccountId, id: KittyIndex) -> Option<Error> {
        if !self.kitty_map().contains_key(id) {
            Some(Error::InvalidKittyId)
        } else if self.owner_map()[id] != sender {
            Some(Error::NotKittyOwner)
        } else if self.ledger().free(to) < self.pledge() {
            Some(Error::InsufficientBalance)
        } else {
            None
        }
    }

    /// Why combining parents `m` and `f` for `owner` would be refused, if it would.
    pub open spec fn breed_error(self, owner: AccountId, m: KittyIndex, f: KittyIndex) -> Option<Error> {
        if m == f {
            Some(Error::SameKitties)
        } else if !self.kitty_map().contains_key(m) || !self.kitty_map().contains_key(f) {
            Some(Error::InvalidKittyId)
        } else {
            self.create_error(owner)
        }
    }

    /// Why `sender` setting the asking price of asset `id` would be refused, if it would.
    pub open spec fn ask_error(self, sender: AccountId, id: KittyIndex) -> Option<Error> {
        if !self.kitty_map().contains_key(id) {
            Some(Error::InvalidKittyId)
        } else if self.owner_map()[id] != sender {
            Some(Error::NotKittyOwner)
        } else {
            None
        }
    }

    /// The ledger after `buyer` has paid `price` to `seller` for asset `id`
    /// and the asset's deposit has moved from `seller` to `buyer`.
    pub open spec fn ledger_after_sale(self, buyer: AccountId, seller: AccountId, price: Balance) -> Map<AccountId, crate::balances::AccountData> {
        after_unreserve(
            after_reserve(after_transfer(self.ledger()@, buyer, seller, price), buyer, self.pledge()),
            seller,
            self.pledge(),
        )
    }

    /// Why `buyer` offering `offered` for asset `id` would be refused, if it would.
    pub open spec fn buy_error(self, buyer: AccountId, id: KittyIndex, offered: Balance) -> Option<Error> {
        if !self.owner_map().contains_key(id) {
            Some(Error::InvalidKittyId)
        } else if !self.price_map().contains_key(id) {
            Some(Error::KittyNotForSale)
        } else if offered < self.price_map()[id] {
            Some(Error::PriceTooLow)
        } else {
            let seller = self.owner_map()[id];
            let listed = self.price_map()[id];
            let l = self.ledger();
            if seller != buyer && listed > l.free(buyer) {
                Some(Error::InsufficientBalance)
            } else if seller != buyer && l.free(seller) + l.reserved(seller) + listed > u128::MAX {
                Some(Error::Overflow)
            } else if account_of(after_transfer(l@, buyer, seller, listed), buyer).free < self.pledge() {
                Some(Error::InsufficientBalance)
            } else {
                None
            }
        }
    }

    /// Why creating an asset for `owner` would be refused, if it would.
    pub open spec fn create_error(self, owner: AccountId) -> Option<Error> {
        if self.next_id() == KittyIndex::MAX {
            Some(Error::KittiesCountOverflow)
        } else if self.ledger().free(owner) < self.pledge() {
            Some(Error::InsufficientBalance)
        } else {
            None
        }
    }

    /// An empty registry over an empty ledger.
    pub fn new(config: Config) -> (r: Self)
        ensures
            r.wf(),
            r.pledge() == config.pledge_quantity,
            r.count_value() is None,
            r.kitty_map() == Map::<KittyIndex, Kitty>::empty(),
            r.owner_map() == Map::<KittyIndex, AccountId>::empty(),
            r.price_map() == Map::<KittyIndex, Balance>::empty(),
            r.ledger()@ == Map::<AccountId, crate::balances::AccountData>::empty(),
    {
        let r = Pallet {
            config,
            kitties_count: None,
            kitties: HashMap::new(),
            owners: HashMap::new(),
            prices: HashMap::new(),
            balances: Balances::new(),
        };
        proof {
            assert forall|a: AccountId| #[trigger] r.balances.reserved(a) == r.config.pledge_quantity * owned_count(r.owners@, a) by {
                assert(owned_by(r.owners@, a) =~= Set::empty());
                assert(owned_count(r.owners@, a) == 0);
                assert(!r.balances@.contains_key(a));
                assert(r.config.pledge_quantity * 0 == 0);
            }
        }
        r
    }

    /// The identifier that the next creation would allocate, refused once
    /// the counter has reached the largest identifier.
    fn next_kitty_id(&self) -> (r: Result<KittyIndex, Error>)
        ensures
            r == (if self.next_id() == KittyIndex::MAX {
                Err::<KittyIndex, Error>(Error::KittiesCountOverflow)
            } else {
                Ok::<KittyIndex, Error>(self.next_id())
            }),
    {
        let kitty_id = match self.kitties_count {
            Some(n) => n,
            None => 0,
        };
        if kitty_id == KittyIndex::MAX {
            return Err(Error::KittiesCountOverflow);
        }
        Ok(kitty_id)
    }

    /// Creates an asset with genome `dna` owned by `owner`, reserving the
    /// deposit from `owner`. Refused with nothing changed when the counter
    /// is exhausted or `owner` cannot cover the deposit.
    pub fn create_kitty(&mut self, owner: AccountId, dna: [u8; 16]) -> (r: Result<KittyIndex, Error>)
        requires
            old(self).wf(),
        ensures
            final(self).wf(),
            match old(self).create_error(owner) {
                Some(e) => r == Err::<KittyIndex, Error>(e) && *final(self) == *old(self),
                None => r is Ok && final(self).adds_kitty(*old(self), r->Ok_0, owner, dna@),
            },
    {
        let kitty_id = self.next_kitty_id()?;
        let pledge = self.config.pledge_quantity;
        match self.balances.reserve(owner, pledge) {
            Ok(()) => {},
            Err(e) => {
                return Err(from_balance_error(e));
            },
        }
        let ghost before = *old(self);
        proof {
            assert(!self.kitties@.contains_key(kitty_id));
            lemma_owned_count_insert(self.owners@, kitty_id, owner, owner);
        }
        self.kitties.insert(kitty_id, Kitty(dna));
        self.owners.insert(kitty_id, owner);
        self.kitties_count = Some(kitty_id + 1);
        proof {
            assert forall|id: KittyIndex| #[trigger] self.kitties@.contains_key(id) implies id < self.next_id() by {
                if id != kitty_id {
                    assert(before.kitties@.contains_key(id));
                }
            }
            assert forall|id: KittyIndex| #[trigger] self.prices@.contains_key(id) implies self.kitties@.contains_key(id) by {
                assert(before.kitties@.contains_key(id));
            }
            assert forall|a: AccountId|
                #[trigger] self.balances.reserved(a) == self.config.pledge_quantity * owned_count(self.owners@, a) by {
                lemma_owned_count_insert(before.owners@, kitty_id, owner, a);
                assert(before.balances.reserved(a) == pledge * owned_count(before.owners@, a));
                lemma_mul_step(pledge as int, owned_count(before.owners@, a) as int);
                if a != owner {
                    assert(self.balances.account(a) == before.balances.account(a));
                }
            }
            assert(self.owners@.dom() =~= self.kitties@.dom());
        }
        Ok(kitty_id)
    }

    /// Hands asset `kitty_id` from its owner `from` to `to`: reserves the
    /// deposit from `to` first, then releases `from`'s. Refused with nothing
    /// changed when `to` cannot cover the deposit.
    fn do_transfer(&mut self, from: AccountId, to: AccountId, kitty_id: KittyIndex) -> (r: Result<(), Error>)
        requires
            old(self).wf(),
            old(self).owner_map().contains_key(kitty_id),
            old(self).owner_map()[kitty_id] == from,
        ensures
            final(self).wf(),
            r is Ok <==> old(self).pledge() <= old(self).ledger().free(to),
            r is Err ==> r == Err::<(), Error>(Error::InsufficientBalance) && *final(self) == *old(self),
            r is Ok ==> final(self).moves_kitty(*old(self), kitty_id, from, to) && final(self).price_map() == old(self).price_map(),
    {
        let pledge = self.config.pledge_quantity;
        match self.balances.reserve(to, pledge) {
            Ok(()) => {},
            Err(e) => {
                return Err(from_balance_error(e));
            },
        }
        let ghost before = *old(self);
        let ghost mid = self.balances;
        proof {
            lemma_owner_count_positive(before.owners@, kitty_id);
            assert(before.balances.reserved(from) == pledge * owned_count(before.owners@, from));
            lemma_mul_at_least(pledge as int, owned_count(before.owners@, from) as int);
            assert(mid.reserved(from) >= pledge);
        }
        self.balances.unreserve(from, pledge);
        self.owners.insert(kitty_id, to);
        proof {
            assert forall|a: AccountId|
                #[trigger] self.balances.reserved(a) == self.config.pledge_quantity * owned_count(self.owners@, a) by {
                lemma_owned_count_insert(before.owners@, kitty_id, to, a);
                assert(before.balances.reserved(a) == pledge * owned_count(before.owners@, a));
                lemma_mul_step(pledge as int, owned_count(before.owners@, a) as int);
                if a != to {
                    assert(mid.account(a) == before.balances.account(a));
                }
                if a != from {
                    assert(self.balances.account(a) == mid.account(a));
                }
            }
            assert(self.owners@.dom() =~= self.kitties@.dom());
        }
        Ok(())
    }

    /// Creates an asset for `owner` whose genome is the selector drawn for
    /// `owner` in the block context.
    pub fn create(&mut self, owner: AccountId, ctx: &BlockContext) -> (r: Result<Event, Error>)
        requires
            old(self).wf(),
        ensures
            final(self).wf(),
            match old(self).create_error(owner) {
                Some(e) => r == Err::<Event, Error>(e) && *final(self) == *old(self),
                None => r == Ok::<Event, Error>(Event::KittyCreated(owner, old(self).next_id()))
                    && final(self).adds_kitty(*old(self), old(self).next_id(), owner, selector_of(*ctx, owner)),
            },
    {
        let dna = random_value(ctx, owner);
        let kitty_id = self.create_kitty(owner, dna)?;
        Ok(Event::KittyCreated(owner, kitty_id))
    }

    /// `sender` hands its asset `kitty_id` to `to`, whose free balance must
    /// cover the deposit. The asking price, if any, stays.
    pub fn transfer(&mut self, sender: AccountId, to: AccountId, kitty_id: KittyIndex) -> (r: Result<Event, Error>)
        requires
            old(self).wf(),
        ensures
            final(self).wf(),
            match old(self).transfer_error(sender, to, kitty_id) {
                Some(e) => r == Err::<Event, Error>(e) && *final(self) == *old(self),
                None => r == Ok::<Event, Error>(Event::KittyTransferred(sender, to, kitty_id))
                    && final(self).moves_kitty(*old(self), kitty_id, sender, to)
                    && final(self).price_map() == old(self).price_map(),
            },
    {
        if !self.kitties.contains_key(&kitty_id) {
            return Err(Error::InvalidKittyId);
        }
        match self.owners.get(&kitty_id) {
            Some(o) => {
                if *o != sender {
                    return Err(Error::NotKittyOwner);
                }
            },
            None => {
                return Err(Error::InvalidKittyId);
            },
        }
        self.do_transfer(sender, to, kitty_id)?;
        Ok(Event::KittyTransferred(sender, to, kitty_id))
    }

    /// `owner` combines its parents `parent_id_m` and `parent_id_f` under
    /// `selector` into a new asset, created as `create_kitty` does.
    pub fn breed_with_selector(
        &mut self,
        owner: AccountId,
        parent_id_m: KittyIndex,
        parent_id_f: KittyIndex,
        selector: &[u8; 16],
    ) -> (r: Result<Event, Error>)
        requires
            old(self).wf(),
        ensures
            final(self).wf(),
            match old(self).breed_error(owner, parent_id_m, parent_id_f) {
                Some(e) => r == Err::<Event, Error>(e) && *final(self) == *old(self),
                None => r == Ok::<Event, Error>(Event::KittyCreated(owner, old(self).next_id()))
                    && final(self).adds_kitty(
                    *old(self),
                    old(self).next_id(),
                    owner,
                    crossover(
                        selector@,
                        old(self).kitty_map()[parent_id_m].0@,
                        old(self).kitty_map()[parent_id_f].0@,
                    ),
                ),
            },
    {
        if parent_id_m == parent_id_f {
            return Err(Error::SameKitties);
        }
        let kitty_m = match self.kitties.get(&parent_id_m) {
            Some(k) => *k,
            None => {
                return Err(Error::InvalidKittyId);
            },
        };
        let kitty_f = match self.kitties.get(&parent_id_f) {
            Some(k) => *k,
            None => {
                return Err(Error::InvalidKittyId);
            },
        };
        let dna = combine_dna(selector, &kitty_m.0, &kitty_f.0);
        let kitty_id = self.create_kitty(owner, dna)?;
        Ok(Event::KittyCreated(owner, kitty_id))
    }

    /// `owner` combines its parents under the selector drawn for `owner` in
    /// the block context.
    pub fn breed(&mut self, owner: AccountId, parent_id_m: KittyIndex, parent_id_f: KittyIndex, ctx: &BlockContext) -> (r: Result<Event, Error>)
        requires
            old(self).wf(),
        ensures
            final(self).wf(),
            match old(self).breed_error(owner, parent_id_m, parent_id_f) {
                Some(e) => r == Err::<Event, Error>(e) && *final(self) == *old(self),
                None => r == Ok::<Event, Error>(Event::KittyCreated(owner, old(self).next_id()))
                    && final(self).adds_kitty(
                    *old(self),
                    old(self).next_id(),
                    owner,
                    crossover(
                        selector_of(*ctx, owner),
                        old(self).kitty_map()[parent_id_m].0@,
                        old(self).kitty_map()[parent_id_f].0@,
                    ),
                ),
            },
    {
        let selector = random_value(ctx, owner);
        self.breed_with_selector(owner, parent_id_m, parent_id_f, &selector)
    }

    /// `sender`, the owner of asset `kitty_id`, sets its asking price;
    /// `None` withdraws it.
    pub fn ask(&mut self, sender: AccountId, kitty_id: KittyIndex, price: Option<Balance>) -> (r: Result<Event, Error>)
        requires
            old(self).wf(),
        ensures
            final(self).wf(),
            match old(self).ask_error(sender, kitty_id) {
                Some(e) => r == Err::<Event, Error>(e) && *final(self) == *old(self),
                None => r == Ok::<Event, Error>(Event::KittyAsk(kitty_id, price))
                    && final(self).same_assets(*old(self))
                    && final(self).ledger() == old(self).ledger()
                    && final(self).price_map() == match price {
                        Some(p) => old(self).price_map().insert(kitty_id, p),
                        None => old(self).price_map().remove(kitty_id),
                    },
            },
    {
        if !self.kitties.contains_key(&kitty_id) {
            return Err(Error::InvalidKittyId);
        }
        match self.owners.get(&kitty_id) {
            Some(o) => {
                if *o != sender {
                    return Err(Error::NotKittyOwner);
                }
            },
            None => {
                return Err(Error::InvalidKittyId);
            },
        }
        match price {
            Some(p) => {
                self.prices.insert(kitty_id, p);
            },
            None => {
                self.prices.remove(&kitty_id);
            },
        }
        Ok(Event::KittyAsk(kitty_id, price))
    }

    /// `buyer` buys asset `kitty_id` at its asking price, offering at least
    /// that much: the price moves from the buyer's free balance to the
    /// seller's, the asking price is cleared, and the asset with its deposit
    /// moves to the buyer. Refused with nothing changed when any step fails.
    pub fn buy(&mut self, buyer: AccountId, kitty_id: KittyIndex, price: Balance) -> (r: Result<Event, Error>)
        requires
            old(self).wf(),
        ensures
            final(self).wf(),
            match old(self).buy_error(buyer, kitty_id, price) {
                Some(e) => r == Err::<Event, Error>(e) && *final(self) == *old(self),
                None => {
                    let seller = old(self).owner_map()[kitty_id];
                    let listed = old(self).price_map()[kitty_id];
                    let p = old(self).pledge();
                    let l0 = old(self).ledger();
                    let l1 = final(self).ledger();
                    &&& r == Ok::<Event, Error>(Event::KittySold(seller, buyer, kitty_id, listed))
                    &&& !final(self).price_map().contains_key(kitty_id)
                    &&& final(self).price_map() == old(self).price_map().remove(kitty_id)
                    &&& final(self).owner_map() == old(self).owner_map().insert(kitty_id, buyer)
                    &&& final(self).kitty_map() == old(self).kitty_map()
                    &&& final(self).count_value() == old(self).count_value()
                    &&& final(self).pledge() == p
                    &&& l1@ == old(self).ledger_after_sale(buyer, seller, listed)
                    &&& seller != buyer ==> {
                        &&& l1.free(buyer) == l0.free(buyer) - listed - p
                        &&& l1.free(seller) == l0.free(seller) + listed + p
                        &&& l1.reserved(buyer) == l0.reserved(buyer) + p
                        &&& l1.reserved(seller) == l0.reserved(seller) - p
                    }
                },
            },
    {
        let seller = match self.owners.get(&kitty_id) {
            Some(o) => *o,
            None => {
                return Err(Error::InvalidKittyId);
            },
        };
        let listed = match self.prices.get(&kitty_id) {
            Some(p) => *p,
            None => {
                return Err(Error::KittyNotForSale);
            },
        };
        if price < listed {
            return Err(Error::PriceTooLow);
        }
        let pledge = self.config.pledge_quantity;
        let buyer_free = self.balances.free_balance(buyer);
        if seller != buyer {
            if buyer_free < listed {
                return Err(Error::InsufficientBalance);
            }
            let seller_free = self.balances.free_balance(seller);
            let seller_reserved = self.balances.reserved_balance(seller);
            proof {
                assert(self.balances.account(seller).free + self.balances.account(seller).reserved <= u128::MAX);
            }
            if seller_free + seller_reserved > u128::MAX - listed {
                return Err(Error::Overflow);
            }
            if buyer_free - listed < pledge {
                return Err(Error::InsufficientBalance);
            }
        } else if buyer_free < pledge {
            return Err(Error::InsufficientBalance);
        }
        let ghost before = *old(self);
        let paid = self.balances.transfer(buyer, seller, listed);
        proof {
            assert(paid is Ok);
        }
        self.prices.remove(&kitty_id);
        proof {
            assert forall|a: AccountId|
                #[trigger] self.balances.reserved(a) == self.config.pledge_quantity * owned_count(self.owners@, a) by {
                assert(before.balances.reserved(a) == pledge * owned_count(before.owners@, a));
                if a != buyer && a != seller {
                    assert(self.balances.account(a) == before.balances.account(a));
                }
            }
            assert forall|id: KittyIndex| #[trigger] self.prices@.contains_key(id) implies self.kitties@.contains_key(id) by {
                assert(before.prices@.contains_key(id));
            }
            assert(self.balances.free(buyer) >= pledge);
        }
        let ghost paid_state = *self;
        let moved = self.do_transfer(seller, buyer, kitty_id);
        proof {
            assert(moved is Ok);
            assert(paid_state.balances@ == after_transfer(before.balances@, buyer, seller, listed));
            assert(self.balances@ == before.ledger_after_sale(buyer, seller, listed));
            assert(self.prices@ =~= before.prices@.remove(kitty_id));
            if seller != buyer {
                let l0 = before.balances@;
                let l1 = after_transfer(l0, buyer, seller, listed);
                let l2 = after_reserve(l1, buyer, pledge);
                assert(account_of(l1, buyer).free == account_of(l0, buyer).free - listed);
                assert(account_of(l1, seller).free == account_of(l0, seller).free + listed);
                assert(account_of(l2, seller) == account_of(l1, seller));
                assert(account_of(self.balances@, buyer) == account_of(l2, buyer));
                lemma_owner_count_positive(before.owners@, kitty_id);
                assert(before.balances.reserved(seller) == pledge * owned_count(before.owners@, seller));
                lemma_mul_at_least(pledge as int, owned_count(before.owners@, seller) as int);
                assert(account_of(l2, seller).reserved >= pledge);
            }
        }
        Ok(Event::KittySold(seller, buyer, kitty_id, listed))
    }

    /// Sets the free balance of `who`, keeping its reserved balance; refused
    /// with `Overflow` when the account's total would not fit in a `u128`.
    pub fn set_balance(&mut self, who: AccountId, free: Balance) -> (r: Result<(), Error>)
        requires
            old(self).wf(),
        ensures
            final(self).wf(),
            final(self).same_assets(*old(self)),
            final(self).price_map() == old(self).price_map(),
            r is Ok <==> free + old(self).ledger().reserved(who) <= u128::MAX,
            r is Ok ==> final(self).ledger()@ == old(self).ledger()@.insert(
                who,
                crate::balances::AccountData { free, reserved: old(self).ledger().reserved(who) },
            ),
            r is Err ==> r == Err::<(), Error>(Error::Overflow) && *final(self) == *old(self),
    {
        let ghost before = *old(self);
        match self.balances.set_free_balance(who, free) {
            Ok(()) => {},
            Err(e) => {
                return Err(from_balance_error(e));
            },
        }
        proof {
            assert forall|a: AccountId|
                #[trigger] self.balances.reserved(a) == self.config.pledge_quantity * owned_count(self.owners@, a) by {
                assert(before.balances.reserved(a) == self.config.pledge_quantity * owned_count(before.owners@, a));
                if a != who {
                    assert(self.balances.account(a) == before.balances.account(a));
                }
            }
        }
        Ok(())
    }

    /// Moves the counter forward to `count`, so that creation continues
    /// from there.
    pub fn put_kitties_count(&mut self, count: KittyIndex)
        requires
            old(self).wf(),
            old(self).next_id() <= count,
        ensures
            final(self).wf(),
            final(self).count_value() == Some(count),
            final(self).kitty_map() == old(self).kitty_map(),
            final(self).owner_map() == old(self).owner_map(),
            final(self).price_map() == old(self).price_map(),
            final(self).pledge() == old(self).pledge(),
            final(self).ledger() == old(self).ledger(),
    {
        self.kitties_count = Some(count);
        proof {
            assert forall|id: KittyIndex| #[trigger] self.kitties@.contains_key(id) implies id < self.next_id() by {
                assert(old(self).kitties@.contains_key(id));
            }
        }
    }

    /// The stored counter, absent until the first creation.
    pub fn kitties_count(&self) -> (r: Option<KittyIndex>)
        ensures
            r == self.count_value(),
    {
        self.kitties_count
    }

    /// The asset with identifier `kitty_id`, if it exists.
    pub fn kitties(&self, kitty_id: KittyIndex) -> (r: Option<Kitty>)
        ensures
            r == (if self.kitty_map().contains_key(kitty_id) {
                Some(self.kitty_map()[kitty_id])
            } else {
                None::<Kitty>
            }),
    {
        match self.kitties.get(&kitty_id) {
            Some(k) => Some(*k),
            None => None,
        }
    }

    /// The owner of asset `kitty_id`, if it exists.
    pub fn kitty_owner(&self, kitty_id: KittyIndex) -> (r: Option<AccountId>)
        ensures
            r == (if self.owner_map().contains_key(kitty_id) {
                Some(self.owner_map()[kitty_id])
            } else {
                None::<AccountId>
            }),
    {
        match self.owners.get(&kitty_id) {
            Some(o) => Some(*o),
            None => None,
        }
    }

    /// The asking price of asset `kitty_id`, if it is listed.
    pub fn kitty_price(&self, kitty_id: KittyIndex) -> (r: Option<Balance>)
        ensures
            r == (if self.price_map().contains_key(kitty_id) {
                Some(self.price_map()[kitty_id])
            } else {
                None::<Balance>
            }),
    {
        match self.prices.get(&kitty_id) {
            Some(p) => Some(*p),
            None => None,
        }
    }

    /// The deposit reserved per asset.
    pub fn pledge_quantity(&self) -> (r: Balance)
        ensures
            r == self.pledge(),
    {
        self.config.pledge_quantity
    }

    /// The free balance of `who`.
    pub fn free_balance(&self, who: AccountId) -> (r: Balance)
        ensures
            r == self.ledger().free(who),
    {
        self.balances.free_balance(who)
    }

    /// The reserved balance of `who`.
    pub fn reserved_balance(&self, who: AccountId) -> (r: Balance)
        ensures
            r == self.ledger().reserved(who),
    {
        self.balances.reserved_balance(who)
    }
}

/// In every well-formed registry, which every operation preserves, each
/// account's reserved balance is the deposit times the number of assets it
/// owns.
pub proof fn lemma_escrow_matches_ownership(p: &Pallet, who: AccountId)
    requires
        p.wf(),
    ensures
        p.ledger().reserved(who) == p.pledge() * owned_count(p.owner_map(), who),
{
}

/// Every stored identifier lies below the counter, and every stored asset
/// has an owner; so the identifier that the next creation returns (the
/// counter, which creation then advances) is none that was returned before.
pub proof fn lemma_stored_ids_below_counter(p: &Pallet, id: KittyIndex)
    requires
        p.wf(),
        p.kitty_map().contains_key(id),
    ensures
        id < p.next_id(),
        p.owner_map().contains_key(id),
{
}

/// Two creations never return the same identifier: once an asset is
/// created, a later creation, in any state that still holds that asset,
/// returns another identifier.
pub proof fn lemma_created_ids_distinct(
    s0: Pallet,
    s1: Pallet,
    s2: Pallet,
    s3: Pallet,
    id1: KittyIndex,
    id2: KittyIndex,
    owner1: AccountId,
    owner2: AccountId,
    dna1: Seq<u8>,
    dna2: Seq<u8>,
)
    requires
        s1.adds_kitty(s0, id1, owner1, dna1),
        s1.kitty_map().dom().subset_of(s2.kitty_map().dom()),
        s3.adds_kitty(s2, id2, owner2, dna2),
    ensures
        id1 != id2,
{
    assert(s1.kitty_map().contains_key(id1));
}

} // verus!
