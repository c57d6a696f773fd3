//! A registry of kitties: each has 16 bytes of DNA, an owner and perhaps a
//! price. Creating or breeding a kitty reserves a deposit of the creator;
//! kitties can be given away, put on sale and bought.
//!
//! What the registry needs from the chain it runs on (the deposit, entropy,
//! the currency) comes through the [`Config`] trait. Every call returns the
//! event that it deposits.
use vstd::prelude::*;
use std::collections::BTreeMap;
use crate::entropy::{blake2_128_digest, dna_from_entropy, random_payload};

verus! {

broadcast use {
    vstd::std_specs::btree::group_btree_axioms,
    vstd::laws_cmp::group_laws_cmp,
};

/// An account of the chain.
pub type AccountId = u64;

/// The number of a kitty: kitties are numbered 0, 1, 2, ... in order of creation.
pub type KittyIndex = u32;

/// An amount of the chain's currency.
pub type Balance = u64;

/// A block number.
pub type BlockNumber = u64;

/// A kitty: its DNA.
#[derive(Debug, Clone, Copy, PartialEq, Eq)]
pub struct Kitty(pub [u8; 16]);

/// Who dispatched a call.
#[derive(Debug, Clone, Copy, PartialEq, Eq, Structural)]
pub enum Origin {
    /// A call signed by an account.
    Signed(AccountId),
    /// A call made by the chain's root authority.
    Root,
    /// An unsigned call.
    Unsigned,
}

impl Origin {
    /// The origin of a call signed by `who`.
    pub fn signed(who: AccountId) -> (res: Origin)
        ensures
            res == Origin::Signed(who),
    {
        Origin::Signed(who)
    }
}

/// Whether a transfer may leave the sender's account below the existential deposit.
#[derive(Debug, Clone, Copy, PartialEq, Eq, Structural)]
pub enum ExistenceRequirement {
    KeepAlive,
    AllowDeath,
}

/// Why the registry refused a call.
#[derive(Debug, Clone, Copy, PartialEq, Eq, Structural)]
pub enum Error {
    /// No kitty number is left.
    KittiesCountOverflow,
    /// The caller does not own the kitty.
    NotOwner,
    /// A kitty cannot be bred with itself.
    SameParentIndex,
    /// No kitty has that number.
    InvalidKittyIndex,
    /// The price or amount is the largest balance, which is refused.
    KittyPriceOverflow,
    /// The kitty is not for sale.
    KittyNotSale,
    /// The caller cannot pay.
    NotEnoughToken,
}

/// Why a call failed.
#[derive(Debug, Clone, Copy, PartialEq, Eq, Structural)]
pub enum DispatchError {
    /// The call was not signed.
    BadOrigin,
    /// The registry refused the call.
    Module(Error),
    /// The chain's currency refused an operation; its code is passed on unchanged.
    Currency(u32),
}

/// What a successful call announces.
#[derive(Debug, Clone, Copy, PartialEq, Eq, Structural)]
pub enum Event {
    /// `(owner, kitty)`: a kitty was created or bred.
    KittyCreate(AccountId, KittyIndex),
    /// `(from, to, kitty)`: a kitty was given away.
    KittyTransfer(AccountId, AccountId, KittyIndex),
    /// `(owner, price, kitty)`: a kitty was put on sale.
    KittySetPrice(AccountId, Balance, KittyIndex),
    /// `(buyer, amount, kitty)`: a kitty was bought.
    KittyBuy(AccountId, Balance, KittyIndex),
}

/// One request that the registry made of the chain's randomness source or
/// currency, with the answer.
#[derive(Debug, Clone, Copy)]
pub enum RuntimeCall {
    /// `(seed, block)`: the randomness source was read.
    RandomSeed([u8; 32], BlockNumber),
    /// `(who, value, outcome)`: `value` of `who`'s free balance was to be reserved.
    Reserve(AccountId, Balance, Result<(), DispatchError>),
    /// `(who, value, remainder)`: `value` of `who`'s reserved balance was to
    /// be given back; `remainder` could not be.
    Unreserve(AccountId, Balance, Balance),
    /// `(source, dest, value, existence, outcome)`: `value` of free balance
    /// was to move from `source` to `dest`.
    Transfer(AccountId, AccountId, Balance, ExistenceRequirement, Result<(), DispatchError>),
}

/// What the chain provides the registry with: the deposit (a constant of the
/// chain), the randomness source, the index of the current extrinsic, and a
/// currency with reserves. Implemented by the runtime that hosts the registry.
///
/// The contracts below are what an implementation promises, and what the
/// registry's proofs rest on: `requests` is the history of the requests
/// made of its randomness source and currency, in order and with their
/// answers, and each such request adds itself to it; the deposit and the
/// extrinsic index stay fixed while a call runs. Nothing is promised of the
/// answers themselves.
pub trait Config {
    /// The requests made so far of the randomness source and the currency.
    spec fn requests(&self) -> Seq<RuntimeCall>;

    /// The deposit reserved for each kitty one owns.
    spec fn spec_deposit(&self) -> Balance;

    /// The index of the current extrinsic in its block, if any.
    spec fn spec_extrinsic_index(&self) -> Option<u32>;

    /// The deposit reserved for each kitty one owns.
    fn deposit(&self) -> (res: Balance)
        ensures
            res == self.spec_deposit(),
    ;

    /// The randomness source's current seed and the block it was made for.
    fn random_seed(&mut self) -> (res: ([u8; 32], BlockNumber))
        ensures
            final(self).requests() == old(self).requests().push(RuntimeCall::RandomSeed(res.0, res.1)),
            final(self).spec_deposit() == old(self).spec_deposit(),
            final(self).spec_extrinsic_index() == old(self).spec_extrinsic_index(),
    ;

    /// The index of the current extrinsic in its block, if any.
    fn extrinsic_index(&self) -> (res: Option<u32>)
        ensures
            res == self.spec_extrinsic_index(),
    ;

    /// Reserves `value` of `who`'s free balance.
    fn reserve(&mut self, who: AccountId, value: Balance) -> (res: Result<(), DispatchError>)
        ensures
            final(self).requests() == old(self).requests().push(RuntimeCall::Reserve(who, value, res)),
            final(self).spec_deposit() == old(self).spec_deposit(),
            final(self).spec_extrinsic_index() == old(self).spec_extrinsic_index(),
    ;

    /// Gives back up to `value` of `who`'s reserved balance; returns what
    /// could not be given back.
    fn unreserve(&mut self, who: AccountId, value: Balance) -> (res: Balance)
        ensures
            final(self).requests() == old(self).requests().push(RuntimeCall::Unreserve(who, value, res)),
            final(self).spec_deposit() == old(self).spec_deposit(),
            final(self).spec_extrinsic_index() == old(self).spec_extrinsic_index(),
    ;

    /// Moves `value` from `source`'s free balance to `dest`'s.
    fn transfer(
        &mut self,
        source: AccountId,
        dest: AccountId,
        value: Balance,
        existence: ExistenceRequirement,
    ) -> (res: Result<(), DispatchError>)
        ensures
            final(self).requests() == old(self).requests().push(
                RuntimeCall::Transfer(source, dest, value, existence, res),
            ),
            final(self).spec_deposit() == old(self).spec_deposit(),
            final(self).spec_extrinsic_index() == old(self).spec_extrinsic_index(),
    ;
}

/// The outcome of a reserve or a transfer (other requests always succeed).
pub open spec fn outcome(call: RuntimeCall) -> Result<(), DispatchError> {
    match call {
        RuntimeCall::Reserve(_, _, r) => r,
        RuntimeCall::Transfer(_, _, _, _, r) => r,
        _ => Ok(()),
    }
}

/// What a give-back could not give back (zero for other requests).
pub open spec fn remainder(call: RuntimeCall) -> Balance {
    match call {
        RuntimeCall::Unreserve(_, _, rest) => rest,
        _ => 0,
    }
}

/// The DNA drawn for `sender` from a read of the randomness source, in the
/// extrinsic with index `extrinsic_index`.
pub open spec fn drawn_dna(seed: RuntimeCall, extrinsic_index: Option<u32>, sender: AccountId) -> Seq<u8> {
    match seed {
        RuntimeCall::RandomSeed(s, b) => blake2_128_digest(random_payload(s@, b, sender, extrinsic_index)),
        _ => Seq::empty(),
    }
}

/// `log` is `prior` followed by `added` more requests.
pub open spec fn grew_by(log: Seq<RuntimeCall>, prior: Seq<RuntimeCall>, added: nat) -> bool {
    log.len() == prior.len() + added && log.take(prior.len() as int) == prior
}

/// How a request changes `who`'s reserved balance: a successful reserve
/// raises it by the amount, a give-back lowers it by what was given back.
pub open spec fn reserve_delta(call: RuntimeCall, who: AccountId) -> int {
    match call {
        RuntimeCall::Reserve(w, v, Ok(_)) => if w == who { v as int } else { 0 },
        RuntimeCall::Unreserve(w, v, rest) => if w == who { rest - v } else { 0 },
        _ => 0,
    }
}

/// How a run of requests changes `who`'s reserved balance.
pub open spec fn reserved_change(calls: Seq<RuntimeCall>, who: AccountId) -> int
    decreases calls.len(),
{
    if calls.len() == 0 {
        0
    } else {
        reserved_change(calls.drop_last(), who) + reserve_delta(calls.last(), who)
    }
}

/// Every give-back in a run of requests gave back all it was asked for.
pub open spec fn give_backs_complete(calls: Seq<RuntimeCall>) -> bool {
    forall|i: int| 0 <= i < calls.len() ==> remainder(#[trigger] calls[i]) == 0
}

/// The kitties that `who` owns.
pub open spec fn owned_ids(owner: Map<KittyIndex, AccountId>, who: AccountId) -> Set<KittyIndex> {
    Set::new(|k: KittyIndex| owner.contains_key(k) && owner[k] == who)
}

/// The number of kitties that `who` owns.
pub open spec fn owned_count(owner: Map<KittyIndex, AccountId>, who: AccountId) -> nat {
    owned_ids(owner, who).len()
}

/// Deposits follow ownership: over calls that made the requests `added`,
/// when all give-backs were complete, each account's reserved balance changed
/// by `deposit` times the change in the number of kitties it owns.
pub open spec fn reserves_follow_ownership(
    before: PalletView,
    after: PalletView,
    added: Seq<RuntimeCall>,
    deposit: Balance,
) -> bool {
    give_backs_complete(added) ==> forall|a: AccountId|
        #[trigger] reserved_change(added, a) == deposit as int * (owned_count(after.owner, a)
            - owned_count(before.owner, a))
}

/// The account that signed `origin`, or `BadOrigin` for an unsigned one.
pub fn ensure_signed(origin: Origin) -> (res: Result<AccountId, DispatchError>)
    ensures
        match origin {
            Origin::Signed(who) => res == Ok::<AccountId, DispatchError>(who),
            _ => res == Err::<AccountId, DispatchError>(DispatchError::BadOrigin),
        },
{
    match origin {
        Origin::Signed(who) => Ok(who),
        _ => Err(DispatchError::BadOrigin),
    }
}

/// The number that the next kitty gets under a given kitty count, or `None`
/// when every number is taken.
pub open spec fn next_index(count: Option<KittyIndex>) -> Option<KittyIndex> {
    match count {
        None => Some(0),
        Some(n) => if n == KittyIndex::MAX { None } else { Some(n) },
    }
}

/// The number of kitties that a kitty count stands for.
pub open spec fn count_value(count: Option<KittyIndex>) -> nat {
    match count {
        None => 0,
        Some(n) => n as nat,
    }
}

/// One byte of a bred kitty: the bits of `a` where the selector has a one,
/// the bits of `b` where it has a zero.
pub open spec fn mixed_byte(selector: u8, a: u8, b: u8) -> u8 {
    (selector & a) | (!selector & b)
}

/// The DNA bred from two parents under a selector, byte by byte.
pub open spec fn mixed_dna(selector: Seq<u8>, a: Seq<u8>, b: Seq<u8>) -> Seq<u8> {
    Seq::new(16, |i: int| mixed_byte(selector[i], a[i], b[i]))
}

/// Breeds DNA from the DNA of two parents: each bit comes from the first
/// parent where the selector has a one, from the second where it has a zero.
pub fn mix_dna(selector: &[u8; 16], dna_1: &[u8; 16], dna_2: &[u8; 16]) -> (res: [u8; 16])
    ensures
        res@ == mixed_dna(selector@, dna_1@, dna_2@),
{
    let mut new_dna = [0u8; 16];
    for i in 0..16
        invariant
            new_dna@.len() == 16,
            forall|j: int| 0 <= j < i ==> new_dna@[j] == mixed_byte(selector@[j], dna_1@[j], dna_2@[j]),
    {
        new_dna[i] = (selector[i] & dna_1[i]) | (!selector[i] & dna_2[i]);
    }
    assert(new_dna@ =~= mixed_dna(selector@, dna_1@, dna_2@));
    new_dna
}

/// The abstract state of the registry.
pub struct PalletView {
    pub kitties_count: Option<KittyIndex>,
    pub kitties: Map<KittyIndex, Kitty>,
    pub owner: Map<KittyIndex, AccountId>,
    pub kitty_price: Map<KittyIndex, Balance>,
}

impl PalletView {
    /// The registry with a new kitty `id` of `who` with `dna`, counted.
    pub open spec fn with_new_kitty(self, who: AccountId, id: KittyIndex, dna: Kitty) -> PalletView {
        PalletView {
            kitties_count: Some((id + 1) as KittyIndex),
            kitties: self.kitties.insert(id, dna),
            owner: self.owner.insert(id, who),
            kitty_price: self.kitty_price,
        }
    }

    /// The registry with kitty `id` now owned by `who`.
    pub open spec fn with_owner(self, id: KittyIndex, who: AccountId) -> PalletView {
        PalletView { owner: self.owner.insert(id, who), ..self }
    }

    /// The registry with kitty `id` priced at `price`.
    pub open spec fn with_price(self, id: KittyIndex, price: Balance) -> PalletView {
        PalletView { kitty_price: self.kitty_price.insert(id, price), ..self }
    }
}

/// The registry's storage.
pub struct Pallet {
    kitties_count: Option<KittyIndex>,
    kitties: BTreeMap<KittyIndex, Kitty>,
    owner: BTreeMap<KittyIndex, AccountId>,
    kitty_price: BTreeMap<KittyIndex, Balance>,
}

impl View for Pallet {
    type V = PalletView;

    closed spec fn view(&self) -> PalletView {
        PalletView {
            kitties_count: self.kitties_count,
            kitties: self.kitties@,
            owner: self.owner@,
            kitty_price: self.kitty_price@,
        }
    }
}

impl PalletView {
    /// The registry's invariant: kitties are numbered densely below the
    /// count, each has an owner, and only kitties have prices.
    pub open spec fn wf(self) -> bool {
        &&& self.owner.dom().finite()
        &&& forall|id: KittyIndex|
            #[trigger] self.kitties.contains_key(id) <==> (id as nat) < count_value(self.kitties_count)
        &&& forall|id: KittyIndex|
            #[trigger] self.owner.contains_key(id) <==> self.kitties.contains_key(id)
        &&& forall|id: KittyIndex|
            #[trigger] self.kitty_price.contains_key(id) ==> self.kitties.contains_key(id)
    }

    /// Whether `who` owns kitty `id`.
    pub open spec fn owned_by(self, id: KittyIndex, who: AccountId) -> bool {
        self.owner.contains_key(id) && self.owner[id] == who
    }

    /// Why creating a kitty is refused, if it is.
    pub open spec fn create_refusal(self) -> Option<Error> {
        if next_index(self.kitties_count) is None {
            Some(Error::KittiesCountOverflow)
        } else {
            None
        }
    }

    /// Why `who` may not give kitty `id` away, if it may not.
    pub open spec fn transfer_refusal(self, who: AccountId, id: KittyIndex) -> Option<Error> {
        if self.owned_by(id, who) {
            None
        } else {
            Some(Error::NotOwner)
        }
    }

    /// Why breeding kitties `id_1` and `id_2` is refused, if it is.
    pub open spec fn bread_refusal(self, id_1: KittyIndex, id_2: KittyIndex) -> Option<Error> {
        if id_1 == id_2 {
            Some(Error::SameParentIndex)
        } else if !self.kitties.contains_key(id_1) || !self.kitties.contains_key(id_2) {
            Some(Error::InvalidKittyIndex)
        } else {
            self.create_refusal()
        }
    }

    /// Why `who` may not price kitty `id` at `price`, if it may not.
    pub open spec fn set_price_refusal(self, who: AccountId, price: Balance, id: KittyIndex) -> Option<Error> {
        if !self.owned_by(id, who) {
            Some(Error::NotOwner)
        } else if price == Balance::MAX {
            Some(Error::KittyPriceOverflow)
        } else {
            None
        }
    }

    /// Whether kitty `id` is on sale: its owner priced it above zero.
    pub open spec fn for_sale(self, id: KittyIndex) -> bool {
        self.kitty_price.contains_key(id) && self.kitty_price[id] != 0
    }

    /// Why buying kitty `id` for `mount` is refused, if it is. Only a kitty
    /// on sale can be bought, for at least its price.
    pub open spec fn buy_refusal(self, mount: Balance, id: KittyIndex) -> Option<Error> {
        if mount == Balance::MAX {
            Some(Error::KittyPriceOverflow)
        } else if !self.for_sale(id) {
            Some(Error::KittyNotSale)
        } else if mount < self.kitty_price[id] {
            Some(Error::NotEnoughToken)
        } else if !self.owner.contains_key(id) {
            Some(Error::NotOwner)
        } else {
            None
        }
    }
}

impl Pallet {
    /// The registry's invariant, on its abstract state.
    pub open spec fn wf(&self) -> bool {
        self@.wf()
    }

    /// An empty registry: no kitty count yet, no kitties.
    pub fn new() -> (res: Pallet)
        ensures
            res.wf(),
            res@.kitties_count is None,
            res@.kitties == Map::<KittyIndex, Kitty>::empty(),
            res@.owner == Map::<KittyIndex, AccountId>::empty(),
            res@.kitty_price == Map::<KittyIndex, Balance>::empty(),
    {
        Pallet {
            kitties_count: None,
            kitties: BTreeMap::new(),
            owner: BTreeMap::new(),
            kitty_price: BTreeMap::new(),
        }
    }

    /// The number of kitties created so far, if any was.
    pub fn kitties_count(&self) -> (res: Option<KittyIndex>)
        ensures
            res == self@.kitties_count,
    {
        self.kitties_count
    }

    /// Kitty `id`, if there is one.
    pub fn kitties(&self, id: KittyIndex) -> (res: Option<Kitty>)
        ensures
            res == (if self@.kitties.contains_key(id) { Some(self@.kitties[id]) } else { None::<Kitty> }),
    {
        match self.kitties.get(&id) {
            Some(k) => Some(*k),
            None => None,
        }
    }

    /// The owner of kitty `id`, if there is one.
    pub fn owner(&self, id: KittyIndex) -> (res: Option<AccountId>)
        ensures
            res == (if self@.owner.contains_key(id) { Some(self@.owner[id]) } else { None::<AccountId> }),
    {
        match self.owner.get(&id) {
            Some(o) => Some(*o),
            None => None,
        }
    }

    /// The price of kitty `id`, if it has one.
    pub fn kitty_price(&self, id: KittyIndex) -> (res: Option<Balance>)
        ensures
            res == (if self@.kitty_price.contains_key(id) { Some(self@.kitty_price[id]) } else { None::<Balance> }),
    {
        match self.kitty_price.get(&id) {
            Some(p) => Some(*p),
            None => None,
        }
    }

    /// The DNA that the runtime's entropy gives a kitty of `sender`: the digest
    /// of the seed, block and extrinsic index that the runtime supplies.
    pub fn random_value<R: Config>(rt: &mut R, sender: AccountId) -> (res: [u8; 16])
        ensures
            grew_by(final(rt).requests(), old(rt).requests(), 1),
            final(rt).spec_deposit() == old(rt).spec_deposit(),
            final(rt).spec_extrinsic_index() == old(rt).spec_extrinsic_index(),
            final(rt).requests()[old(rt).requests().len() as int] is RandomSeed,
            res@ == drawn_dna(
                final(rt).requests()[old(rt).requests().len() as int],
                old(rt).spec_extrinsic_index(),
                sender,
            ),
    {
        let (seed, block) = rt.random_seed();
        let extrinsic_index = rt.extrinsic_index();
        proof {
            assert(rt.requests().take(old(rt).requests().len() as int) =~= old(rt).requests());
        }
        dna_from_entropy(seed, block, sender, extrinsic_index)
    }

    /// The number that the next kitty gets, or `KittiesCountOverflow`.
    fn next_kitty_id(&self) -> (res: Result<KittyIndex, DispatchError>)
        ensures
            match next_index(self@.kitties_count) {
                Some(id) => res == Ok::<KittyIndex, DispatchError>(id),
                None => res == Err::<KittyIndex, DispatchError>(DispatchError::Module(Error::KittiesCountOverflow)),
            },
    {
        match self.kitties_count {
            Some(id) => {
                if id == KittyIndex::MAX {
                    return Err(DispatchError::Module(Error::KittiesCountOverflow));
                }
                Ok(id)
            },
            None => Ok(0),
        }
    }

    /// Whether `who` owns kitty `id`.
    fn is_owner(&self, id: KittyIndex, who: AccountId) -> (res: bool)
        ensures
            res == self@.owned_by(id, who),
    {
        match self.owner.get(&id) {
            Some(o) => *o == who,
            None => false,
        }
    }

    /// Stores kitty `kitty_id` of `who` with `dna`, given whether the
    /// deposit could be reserved: without it the kitty is refused for
    /// `NotEnoughToken`.
    pub fn finish_create(
        &mut self,
        who: AccountId,
        kitty_id: KittyIndex,
        dna: Kitty,
        reserved: Result<(), DispatchError>,
    ) -> (res: Result<Event, DispatchError>)
        requires
            old(self).wf(),
            next_index(old(self)@.kitties_count) == Some(kitty_id),
        ensures
            final(self).wf(),
            reserved is Err ==> {
                &&& res == Err::<Event, DispatchError>(DispatchError::Module(Error::NotEnoughToken))
                &&& final(self)@ == old(self)@
            },
            reserved is Ok ==> {
                &&& res == Ok::<Event, DispatchError>(Event::KittyCreate(who, kitty_id))
                &&& final(self)@ == old(self)@.with_new_kitty(who, kitty_id, dna)
            },
    {
        if reserved.is_err() {
            return Err(DispatchError::Module(Error::NotEnoughToken));
        }
        self.kitties.insert(kitty_id, dna);
        self.owner.insert(kitty_id, who);
        self.kitties_count = Some(kitty_id + 1);
        Ok(Event::KittyCreate(who, kitty_id))
    }

    /// Creates a kitty for the signer, with DNA from the runtime's entropy,
    /// reserving the deposit from the signer.
    pub fn create<R: Config>(&mut self, rt: &mut R, origin: Origin) -> (res: Result<Event, DispatchError>)
        requires
            old(self).wf(),
        ensures
            final(self).wf(),
            final(rt).spec_deposit() == old(rt).spec_deposit(),
            match origin {
                Origin::Signed(who) => count_value(old(self)@.kitties_count) < KittyIndex::MAX ==> {
                    ||| res == Err::<Event, DispatchError>(DispatchError::Module(Error::NotEnoughToken))
                    ||| {
                        &&& res == Ok::<Event, DispatchError>(
                            Event::KittyCreate(who, count_value(old(self)@.kitties_count) as KittyIndex),
                        )
                        &&& count_value(final(self)@.kitties_count) == count_value(old(self)@.kitties_count) + 1
                        &&& final(self)@.owned_by(count_value(old(self)@.kitties_count) as KittyIndex, who)
                    }
                },
                _ => true,
            },
            res is Err ==> final(self)@ == old(self)@,
            reserves_follow_ownership(
                old(self)@,
                final(self)@,
                final(rt).requests().skip(old(rt).requests().len() as int),
                old(rt).spec_deposit(),
            ),
            forall|k: KittyIndex| #[trigger] stays_off_sale(old(self)@, final(self)@, k),
            match origin {
                Origin::Signed(who) => match next_index(old(self)@.kitties_count) {
                    None => {
                        &&& res == Err::<Event, DispatchError>(DispatchError::Module(Error::KittiesCountOverflow))
                        &&& *final(rt) == *old(rt)
                    },
                    Some(id) => {
                        let log = final(rt).requests();
                        let n = old(rt).requests().len() as int;
                        &&& grew_by(log, old(rt).requests(), 2)
                        &&& log[n] is RandomSeed
                        &&& log[n + 1] == RuntimeCall::Reserve(who, old(rt).spec_deposit(), outcome(log[n + 1]))
                        &&& outcome(log[n + 1]) is Err ==> res == Err::<Event, DispatchError>(
                            DispatchError::Module(Error::NotEnoughToken),
                        )
                        &&& outcome(log[n + 1]) is Ok ==> {
                            &&& res == Ok::<Event, DispatchError>(Event::KittyCreate(who, id))
                            &&& final(self)@ == old(self)@.with_new_kitty(who, id, final(self)@.kitties[id])
                            &&& final(self)@.kitties[id].0@ == drawn_dna(log[n], old(rt).spec_extrinsic_index(), who)
                        }
                    },
                },
                _ => res == Err::<Event, DispatchError>(DispatchError::BadOrigin) && *final(rt) == *old(rt),
            },
    {
        proof {
            lemma_nothing_added(old(self)@, old(rt).requests(), old(rt).spec_deposit());
        }
        let who = match ensure_signed(origin) {
            Ok(who) => who,
            Err(e) => {
                return Err(e);
            },
        };
        let kitty_id = match self.next_kitty_id() {
            Ok(id) => id,
            Err(e) => {
                return Err(e);
            },
        };
        let dna = Self::random_value(rt, who);
        let deposit = rt.deposit();
        let reserved = rt.reserve(who, deposit);
        proof {
            assert(rt.requests().take(old(rt).requests().len() as int) =~= old(rt).requests());
        }
        let res = self.finish_create(who, kitty_id, Kitty(dna), reserved);
        proof {
            lemma_create_reserves(old(self)@, self@, old(rt).requests(), rt.requests(), who, kitty_id, Kitty(dna), deposit);
        }
        res
    }

    /// Gives kitty `kitty_id` of `who` to `new_owner`, given whether
    /// `new_owner`'s deposit could be reserved: if not, the currency's error
    /// is returned.
    pub fn finish_transfer(
        &mut self,
        who: AccountId,
        new_owner: AccountId,
        kitty_id: KittyIndex,
        reserved: Result<(), DispatchError>,
    ) -> (res: Result<Event, DispatchError>)
        requires
            old(self).wf(),
            old(self)@.owned_by(kitty_id, who),
        ensures
            final(self)@.kitties == old(self)@.kitties,
            final(self).wf(),
            match reserved {
                Err(e) => res == Err::<Event, DispatchError>(e) && final(self)@ == old(self)@,
                Ok(_) => {
                    &&& res == Ok::<Event, DispatchError>(Event::KittyTransfer(who, new_owner, kitty_id))
                    &&& final(self)@ == old(self)@.with_owner(kitty_id, new_owner)
                },
            },
    {
        match reserved {
            Err(e) => Err(e),
            Ok(_) => {
                self.owner.insert(kitty_id, new_owner);
                Ok(Event::KittyTransfer(who, new_owner, kitty_id))
            },
        }
    }

    /// Gives the signer's kitty `kitty_id` to `new_owner`: the new owner's
    /// deposit is reserved and, if that succeeded, the signer's is given back.
    pub fn transfer<R: Config>(
        &mut self,
        rt: &mut R,
        origin: Origin,
        new_owner: AccountId,
        kitty_id: KittyIndex,
    ) -> (res: Result<Event, DispatchError>)
        requires
            old(self).wf(),
        ensures
            final(self).wf(),
            final(rt).spec_deposit() == old(rt).spec_deposit(),
            final(self)@.kitties == old(self)@.kitties,
            final(self)@.kitties_count == old(self)@.kitties_count,
            final(self)@.kitty_price == old(self)@.kitty_price,
            res is Err ==> final(self)@ == old(self)@,
            reserves_follow_ownership(
                old(self)@,
                final(self)@,
                final(rt).requests().skip(old(rt).requests().len() as int),
                old(rt).spec_deposit(),
            ),
            forall|k: KittyIndex| #[trigger] stays_off_sale(old(self)@, final(self)@, k),
            match origin {
                Origin::Signed(who) => match old(self)@.transfer_refusal(who, kitty_id) {
                    Some(e) => {
                        &&& res == Err::<Event, DispatchError>(DispatchError::Module(e))
                        &&& *final(rt) == *old(rt)
                    },
                    None => {
                        let log = final(rt).requests();
                        let n = old(rt).requests().len() as int;
                        let deposit = old(rt).spec_deposit();
                        &&& log[n] == RuntimeCall::Reserve(new_owner, deposit, outcome(log[n]))
                        &&& match outcome(log[n]) {
                            Err(e) => {
                                &&& grew_by(log, old(rt).requests(), 1)
                                &&& res == Err::<Event, DispatchError>(e)
                            },
                            Ok(_) => {
                                &&& grew_by(log, old(rt).requests(), 2)
                                &&& log[n + 1] == RuntimeCall::Unreserve(who, deposit, remainder(log[n + 1]))
                                &&& res == Ok::<Event, DispatchError>(Event::KittyTransfer(who, new_owner, kitty_id))
                                &&& final(self)@ == old(self)@.with_owner(kitty_id, new_owner)
                            },
                        }
                    },
                },
                _ => res == Err::<Event, DispatchError>(DispatchError::BadOrigin) && *final(rt) == *old(rt),
            },
    {
        proof {
            lemma_nothing_added(old(self)@, old(rt).requests(), old(rt).spec_deposit());
        }
        let who = match ensure_signed(origin) {
            Ok(who) => who,
            Err(e) => {
                return Err(e);
            },
        };
        if !self.is_owner(kitty_id, who) {
            return Err(DispatchError::Module(Error::NotOwner));
        }
        let deposit = rt.deposit();
        let reserved = rt.reserve(new_owner, deposit);
        if reserved.is_ok() {
            rt.unreserve(who, deposit);
        }
        proof {
            assert(rt.requests().take(old(rt).requests().len() as int) =~= old(rt).requests());
        }
        let res = self.finish_transfer(who, new_owner, kitty_id, reserved);
        proof {
            lemma_transfer_reserves(old(self)@, self@, old(rt).requests(), rt.requests(), who, new_owner, kitty_id, deposit);
        }
        res
    }

    /// Breeds a kitty for the signer from kitties `kitty_id_1` and
    /// `kitty_id_2`: each bit of its DNA comes from one parent, chosen by
    /// bytes from the runtime's entropy; the deposit is reserved from the signer.
    pub fn bread<R: Config>(
        &mut self,
        rt: &mut R,
        origin: Origin,
        kitty_id_1: KittyIndex,
        kitty_id_2: KittyIndex,
    ) -> (res: Result<Event, DispatchError>)
        requires
            old(self).wf(),
        ensures
            final(self).wf(),
            final(rt).spec_deposit() == old(rt).spec_deposit(),
            match origin {
                Origin::Signed(who) => (kitty_id_1 != kitty_id_2 && old(self)@.kitties.contains_key(kitty_id_1)
                    && old(self)@.kitties.contains_key(kitty_id_2) && count_value(old(self)@.kitties_count)
                    < KittyIndex::MAX) ==> {
                    ||| res == Err::<Event, DispatchError>(DispatchError::Module(Error::NotEnoughToken))
                    ||| {
                        &&& res == Ok::<Event, DispatchError>(
                            Event::KittyCreate(who, count_value(old(self)@.kitties_count) as KittyIndex),
                        )
                        &&& count_value(final(self)@.kitties_count) == count_value(old(self)@.kitties_count) + 1
                        &&& final(self)@.owned_by(count_value(old(self)@.kitties_count) as KittyIndex, who)
                    }
                },
                _ => true,
            },
            res is Err ==> final(self)@ == old(self)@,
            reserves_follow_ownership(
                old(self)@,
                final(self)@,
                final(rt).requests().skip(old(rt).requests().len() as int),
                old(rt).spec_deposit(),
            ),
            forall|k: KittyIndex| #[trigger] stays_off_sale(old(self)@, final(self)@, k),
            match origin {
                Origin::Signed(who) => match old(self)@.bread_refusal(kitty_id_1, kitty_id_2) {
                    Some(e) => {
                        &&& res == Err::<Event, DispatchError>(DispatchError::Module(e))
                        &&& *final(rt) == *old(rt)
                    },
                    None => {
                        let id = count_value(old(self)@.kitties_count) as KittyIndex;
                        let log = final(rt).requests();
                        let n = old(rt).requests().len() as int;
                        &&& grew_by(log, old(rt).requests(), 2)
                        &&& log[n] is RandomSeed
                        &&& log[n + 1] == RuntimeCall::Reserve(who, old(rt).spec_deposit(), outcome(log[n + 1]))
                        &&& outcome(log[n + 1]) is Err ==> res == Err::<Event, DispatchError>(
                            DispatchError::Module(Error::NotEnoughToken),
                        )
                        &&& outcome(log[n + 1]) is Ok ==> {
                            &&& res == Ok::<Event, DispatchError>(Event::KittyCreate(who, id))
                            &&& final(self)@ == old(self)@.with_new_kitty(who, id, final(self)@.kitties[id])
                            &&& final(self)@.kitties[id].0@ == mixed_dna(
                                drawn_dna(log[n], old(rt).spec_extrinsic_index(), who),
                                old(self)@.kitties[kitty_id_1].0@,
                                old(self)@.kitties[kitty_id_2].0@,
                            )
                        }
                    },
                },
                _ => res == Err::<Event, DispatchError>(DispatchError::BadOrigin) && *final(rt) == *old(rt),
            },
    {
        proof {
            lemma_nothing_added(old(self)@, old(rt).requests(), old(rt).spec_deposit());
        }
        let who = match ensure_signed(origin) {
            Ok(who) => who,
            Err(e) => {
                return Err(e);
            },
        };
        if kitty_id_1 == kitty_id_2 {
            return Err(DispatchError::Module(Error::SameParentIndex));
        }
        let kitty1 = match self.kitties(kitty_id_1) {
            Some(k) => k,
            None => {
                return Err(DispatchError::Module(Error::InvalidKittyIndex));
            },
        };
        let kitty2 = match self.kitties(kitty_id_2) {
            Some(k) => k,
            None => {
                return Err(DispatchError::Module(Error::InvalidKittyIndex));
            },
        };
        let kitty_id = match self.next_kitty_id() {
            Ok(id) => id,
            Err(e) => {
                return Err(e);
            },
        };
        let selector = Self::random_value(rt, who);
        let new_dna = mix_dna(&selector, &kitty1.0, &kitty2.0);
        let deposit = rt.deposit();
        let reserved = rt.reserve(who, deposit);
        proof {
            assert(rt.requests().take(old(rt).requests().len() as int) =~= old(rt).requests());
        }
        let res = self.finish_create(who, kitty_id, Kitty(new_dna), reserved);
        proof {
            lemma_create_reserves(old(self)@, self@, old(rt).requests(), rt.requests(), who, kitty_id, Kitty(new_dna), deposit);
        }
        res
    }

    /// Puts the signer's kitty `kitty_id` on sale at `price`.
    pub fn set_price(&mut self, origin: Origin, price: Balance, kitty_id: KittyIndex) -> (res: Result<Event, DispatchError>)
        requires
            old(self).wf(),
        ensures
            final(self).wf(),
            forall|k: KittyIndex|
                (k != kitty_id || price == 0) ==> #[trigger] stays_off_sale(old(self)@, final(self)@, k),
            final(self)@.kitties == old(self)@.kitties,
            final(self)@.kitties_count == old(self)@.kitties_count,
            final(self)@.owner == old(self)@.owner,
            match origin {
                Origin::Signed(who) => old(self)@.owned_by(kitty_id, who) && price != Balance::MAX ==> {
                    &&& res is Ok
                    &&& final(self)@.kitty_price.contains_key(kitty_id)
                    &&& final(self)@.kitty_price[kitty_id] == price
                },
                _ => true,
            },
            res is Err ==> final(self)@ == old(self)@,
            match origin {
                Origin::Signed(who) => match old(self)@.set_price_refusal(who, price, kitty_id) {
                    Some(e) => res == Err::<Event, DispatchError>(DispatchError::Module(e)),
                    None => {
                        &&& res == Ok::<Event, DispatchError>(Event::KittySetPrice(who, price, kitty_id))
                        &&& final(self)@ == old(self)@.with_price(kitty_id, price)
                    },
                },
                _ => res == Err::<Event, DispatchError>(DispatchError::BadOrigin),
            },
    {
        let who = match ensure_signed(origin) {
            Ok(who) => who,
            Err(e) => {
                return Err(e);
            },
        };
        if !self.is_owner(kitty_id, who) {
            return Err(DispatchError::Module(Error::NotOwner));
        }
        if price == Balance::MAX {
            return Err(DispatchError::Module(Error::KittyPriceOverflow));
        }
        self.kitty_price.insert(kitty_id, price);
        Ok(Event::KittySetPrice(who, price, kitty_id))
    }

    /// Hands kitty `kitty_id` to the buyer `who`, who paid `mount`, given
    /// whether the buyer's deposit could be reserved: without it the sale is
    /// refused for `NotEnoughToken`. A bought kitty is no longer for sale.
    pub fn finish_buy(
        &mut self,
        who: AccountId,
        mount: Balance,
        kitty_id: KittyIndex,
        reserved: Result<(), DispatchError>,
    ) -> (res: Result<Event, DispatchError>)
        requires
            old(self).wf(),
            old(self)@.owner.contains_key(kitty_id),
        ensures
            final(self)@.kitties == old(self)@.kitties,
            final(self).wf(),
            reserved is Err ==> {
                &&& res == Err::<Event, DispatchError>(DispatchError::Module(Error::NotEnoughToken))
                &&& final(self)@ == old(self)@
            },
            reserved is Ok ==> {
                &&& res == Ok::<Event, DispatchError>(Event::KittyBuy(who, mount, kitty_id))
                &&& final(self)@ == old(self)@.with_owner(kitty_id, who).with_price(kitty_id, 0)
            },
    {
        if reserved.is_err() {
            return Err(DispatchError::Module(Error::NotEnoughToken));
        }
        self.owner.insert(kitty_id, who);
        self.kitty_price.insert(kitty_id, 0);
        Ok(Event::KittyBuy(who, mount, kitty_id))
    }

    /// The signer buys kitty `kitty_id`, which must be on sale, for `mount`
    /// of at least its price, paid to its owner; the buyer's deposit is
    /// reserved and the seller's given back.
    pub fn buy_kitty<R: Config>(
        &mut self,
        rt: &mut R,
        origin: Origin,
        mount: Balance,
        kitty_id: KittyIndex,
    ) -> (res: Result<Event, DispatchError>)
        requires
            old(self).wf(),
        ensures
            final(self).wf(),
            final(rt).spec_deposit() == old(rt).spec_deposit(),
            final(self)@.kitties == old(self)@.kitties,
            final(self)@.kitties_count == old(self)@.kitties_count,
            res is Ok ==> {
                &&& old(self)@.kitty_price.contains_key(kitty_id)
                &&& 0 < old(self)@.kitty_price[kitty_id] <= mount
                &&& final(self)@.kitty_price[kitty_id] == 0
            },
            res is Err ==> final(self)@ == old(self)@,
            reserves_follow_ownership(
                old(self)@,
                final(self)@,
                final(rt).requests().skip(old(rt).requests().len() as int),
                old(rt).spec_deposit(),
            ),
            forall|k: KittyIndex| #[trigger] stays_off_sale(old(self)@, final(self)@, k),
            match origin {
                Origin::Signed(who) => match old(self)@.buy_refusal(mount, kitty_id) {
                    Some(e) => {
                        &&& res == Err::<Event, DispatchError>(DispatchError::Module(e))
                        &&& *final(rt) == *old(rt)
                    },
                    None => {
                        let log = final(rt).requests();
                        let n = old(rt).requests().len() as int;
                        let seller = old(self)@.owner[kitty_id];
                        let deposit = old(rt).spec_deposit();
                        &&& log[n] == RuntimeCall::Transfer(
                            who,
                            seller,
                            mount,
                            ExistenceRequirement::KeepAlive,
                            outcome(log[n]),
                        )
                        &&& match outcome(log[n]) {
                            Err(e) => {
                                &&& grew_by(log, old(rt).requests(), 1)
                                &&& res == Err::<Event, DispatchError>(e)
                            },
                            Ok(_) => {
                                &&& log[n + 1] == RuntimeCall::Reserve(who, deposit, outcome(log[n + 1]))
                                &&& match outcome(log[n + 1]) {
                                    Err(_) => {
                                        &&& grew_by(log, old(rt).requests(), 2)
                                        &&& res == Err::<Event, DispatchError>(
                                            DispatchError::Module(Error::NotEnoughToken),
                                        )
                                    },
                                    Ok(_) => {
                                        &&& grew_by(log, old(rt).requests(), 3)
                                        &&& log[n + 2] == RuntimeCall::Unreserve(seller, deposit, remainder(log[n + 2]))
                                        &&& res == Ok::<Event, DispatchError>(Event::KittyBuy(who, mount, kitty_id))
                                        &&& final(self)@ == old(self)@.with_owner(kitty_id, who).with_price(kitty_id, 0)
                                    },
                                }
                            },
                        }
                    },
                },
                _ => res == Err::<Event, DispatchError>(DispatchError::BadOrigin) && *final(rt) == *old(rt),
            },
    {
        proof {
            lemma_nothing_added(old(self)@, old(rt).requests(), old(rt).spec_deposit());
        }
        let who = match ensure_signed(origin) {
            Ok(who) => who,
            Err(e) => {
                return Err(e);
            },
        };
        if mount == Balance::MAX {
            return Err(DispatchError::Module(Error::KittyPriceOverflow));
        }
        let price = match self.kitty_price(kitty_id) {
            Some(p) => p,
            None => 0,
        };
        if price == 0 {
            return Err(DispatchError::Module(Error::KittyNotSale));
        }
        if mount < price {
            return Err(DispatchError::Module(Error::NotEnoughToken));
        }
        let old_owner = match self.owner(kitty_id) {
            Some(o) => o,
            None => {
                return Err(DispatchError::Module(Error::NotOwner));
            },
        };
        let deposit = rt.deposit();
        match rt.transfer(who, old_owner, mount, ExistenceRequirement::KeepAlive) {
            Ok(_) => {},
            Err(e) => {
                proof {
                    assert(rt.requests().take(old(rt).requests().len() as int) =~= old(rt).requests());
                    lemma_buy_reserves(old(self)@, self@, old(rt).requests(), rt.requests(), who, old_owner, mount, kitty_id, deposit);
                }
                return Err(e);
            },
        }
        let reserved = rt.reserve(who, deposit);
        if reserved.is_ok() {
            rt.unreserve(old_owner, deposit);
        }
        proof {
            assert(rt.requests().take(old(rt).requests().len() as int) =~= old(rt).requests());
        }
        let res = self.finish_buy(who, mount, kitty_id, reserved);
        proof {
            lemma_buy_reserves(old(self)@, self@, old(rt).requests(), rt.requests(), who, old_owner, mount, kitty_id, deposit);
        }
        res
    }
}

/// A new kitty gets the next number and its creator as owner; the count
/// grows by one, every earlier kitty keeps its DNA, owner and price, and the
/// registry stays well formed.
pub proof fn lemma_new_kitty_numbered_and_owned(v: PalletView, who: AccountId, id: KittyIndex, dna: Kitty)
    requires
        v.wf(),
        next_index(v.kitties_count) == Some(id),
    ensures
        v.with_new_kitty(who, id, dna).wf(),
        id as nat == count_value(v.kitties_count),
        !v.kitties.contains_key(id),
        count_value(v.with_new_kitty(who, id, dna).kitties_count) == count_value(v.kitties_count) + 1,
        v.with_new_kitty(who, id, dna).owned_by(id, who),
        v.with_new_kitty(who, id, dna).kitties[id] == dna,
        forall|k: KittyIndex| #[trigger] v.kitties.contains_key(k) ==> {
            &&& v.with_new_kitty(who, id, dna).kitties[k] == v.kitties[k]
            &&& v.with_new_kitty(who, id, dna).owner[k] == v.owner[k]
        },
        v.with_new_kitty(who, id, dna).kitty_price == v.kitty_price,
{
}

/// After kitty `id` is given to `new_owner`, the new owner may give it away
/// or price it, and any other account (the former owner among them) may not.
pub proof fn lemma_transfer_moves_control(v: PalletView, id: KittyIndex, new_owner: AccountId, other: AccountId)
    requires
        v.wf(),
        v.owner.contains_key(id),
        other != new_owner,
    ensures
        v.with_owner(id, new_owner).transfer_refusal(new_owner, id) is None,
        v.with_owner(id, new_owner).transfer_refusal(other, id) == Some(Error::NotOwner),
        v.with_owner(id, new_owner).set_price_refusal(other, 1, id) == Some(Error::NotOwner),
{
}

/// A kitty priced at a positive `price` by its owner can then be bought, as
/// far as the registry decides, for any amount from `price` up to (not
/// including) the largest balance.
pub proof fn lemma_priced_kitty_can_be_bought(v: PalletView, owner: AccountId, price: Balance, id: KittyIndex, mount: Balance)
    requires
        v.wf(),
        v.set_price_refusal(owner, price, id) is None,
        price > 0,
        price <= mount < Balance::MAX,
    ensures
        v.with_price(id, price).buy_refusal(mount, id) is None,
{
}

/// Once kitty `id` is bought, it is no longer for sale: another purchase is
/// refused with `KittyNotSale` (or `KittyPriceOverflow` for the largest
/// amount, which is checked first).
pub proof fn lemma_bought_kitty_not_for_sale(v: PalletView, buyer: AccountId, mount: Balance, id: KittyIndex, next_mount: Balance)
    requires
        v.wf(),
        v.buy_refusal(mount, id) is None,
    ensures
        v.with_owner(id, buyer).with_price(id, 0).buy_refusal(next_mount, id) == Some(
            if next_mount == Balance::MAX { Error::KittyPriceOverflow } else { Error::KittyNotSale },
        ),
{
}

/// Each bit of a bred byte is the bit of the first parent where the selector
/// bit is one, and the bit of the second parent where it is zero.
pub proof fn lemma_mixed_byte_bits(selector: u8, a: u8, b: u8, bit: u8)
    requires
        bit < 8,
    ensures
        (mixed_byte(selector, a, b) >> bit) & 1 == if (selector >> bit) & 1 == 1 {
            (a >> bit) & 1
        } else {
            (b >> bit) & 1
        },
{
    assert((((selector & a) | (!selector & b)) >> bit) & 1 == if (selector >> bit) & 1 == 1 {
        (a >> bit) & 1
    } else {
        (b >> bit) & 1
    }) by (bit_vector)
        requires
            bit < 8,
    ;
}

/// A selector of all ones breeds the first parent's DNA, one of all zeros
/// the second's, and two parents with the same DNA breed that DNA.
pub proof fn lemma_mixed_dna_extremes(a: Seq<u8>, b: Seq<u8>, selector: Seq<u8>)
    requires
        a.len() == 16,
        b.len() == 16,
        selector.len() == 16,
    ensures
        mixed_dna(Seq::new(16, |i: int| 0xffu8), a, b) == a,
        mixed_dna(Seq::new(16, |i: int| 0u8), a, b) == b,
        mixed_dna(selector, a, a) == a,
{
    assert forall|x: u8, y: u8| #[trigger] mixed_byte(0xffu8, x, y) == x by {
        assert((0xffu8 & x) | (!0xffu8 & y) == x) by (bit_vector);
    }
    assert forall|x: u8, y: u8| #[trigger] mixed_byte(0u8, x, y) == y by {
        assert((0u8 & x) | (!0u8 & y) == y) by (bit_vector);
    }
    assert forall|s: u8, x: u8| #[trigger] mixed_byte(s, x, x) == x by {
        assert((s & x) | (!s & x) == x) by (bit_vector);
    }
    assert(mixed_dna(Seq::new(16, |i: int| 0xffu8), a, b) =~= a);
    assert(mixed_dna(Seq::new(16, |i: int| 0u8), a, b) =~= b);
    assert(mixed_dna(selector, a, a) =~= a);
}

/// Giving kitty `id` to `w` changes how many kitties `a` owns by one up if
/// `a` is `w`, and by one down if `a` owned it before.
pub proof fn lemma_owned_count_insert(owner: Map<KittyIndex, AccountId>, id: KittyIndex, w: AccountId, a: AccountId)
    requires
        owner.dom().finite(),
    ensures
        owned_count(owner.insert(id, w), a) == owned_count(owner, a) as int
            - (if owner.contains_key(id) && owner[id] == a { 1int } else { 0 })
            + (if w == a { 1int } else { 0 }),
{
    let m = owner.insert(id, w);
    let f = |k: KittyIndex| owner[k] == a;
    let before = owned_ids(owner, a);
    let after = owned_ids(m, a);
    assert(before =~= owner.dom().filter(f));
    owner.dom().lemma_len_filter(f);
    if w == a {
        assert(after =~= before.insert(id));
    } else {
        assert(after =~= before.remove(id));
    }
}

/// A run of requests followed by one more changes a reserved balance by the
/// run's change plus that request's.
pub proof fn lemma_reserved_change_push(calls: Seq<RuntimeCall>, c: RuntimeCall, who: AccountId)
    ensures
        reserved_change(calls.push(c), who) == reserved_change(calls, who) + reserve_delta(c, who),
{
    assert(calls.push(c).drop_last() =~= calls);
}

/// Two runs of requests one after the other change a reserved balance by
/// the sum of their changes.
pub proof fn lemma_reserved_change_concat(first: Seq<RuntimeCall>, second: Seq<RuntimeCall>, who: AccountId)
    ensures
        reserved_change(first + second, who) == reserved_change(first, who) + reserved_change(second, who),
    decreases second.len(),
{
    if second.len() == 0 {
        assert(first + second =~= first);
    } else {
        let rest = second.drop_last();
        lemma_reserved_change_concat(first, rest, who);
        assert((first + second).drop_last() =~= first + rest);
    }
}

/// Scaling by one, zero or minus one.
pub proof fn lemma_scale_by_unit(d: int, x: int)
    requires
        -1 <= x <= 1,
    ensures
        d * x == if x == 1 { d } else if x == 0 { 0 } else { -d },
{
    if x == 1 {
    } else if x == 0 {
    } else {
        assert(d * -1 == -d) by (nonlinear_arith);
    }
}

/// Deposits follow ownership over a creation or a breeding: the requests were
/// a read of the randomness source and a reserve of the deposit from the
/// creator.
pub proof fn lemma_create_reserves(
    before: PalletView,
    after: PalletView,
    prior: Seq<RuntimeCall>,
    log: Seq<RuntimeCall>,
    who: AccountId,
    id: KittyIndex,
    dna: Kitty,
    deposit: Balance,
)
    requires
        before.wf(),
        next_index(before.kitties_count) == Some(id),
        grew_by(log, prior, 2),
        log[prior.len() as int] is RandomSeed,
        log[prior.len() + 1int] == RuntimeCall::Reserve(who, deposit, outcome(log[prior.len() + 1int])),
        outcome(log[prior.len() + 1int]) is Err ==> after == before,
        outcome(log[prior.len() + 1int]) is Ok ==> after == before.with_new_kitty(who, id, dna),
    ensures
        reserves_follow_ownership(before, after, log.skip(prior.len() as int), deposit),
{
    let n = prior.len() as int;
    let c0 = log[n];
    let c1 = log[n + 1];
    let s0 = Seq::<RuntimeCall>::empty();
    assert(log.skip(n) =~= s0.push(c0).push(c1));
    assert forall|a: AccountId| #[trigger] reserved_change(log.skip(n), a) == deposit as int * (
    owned_count(after.owner, a) - owned_count(before.owner, a)) by {
        lemma_reserved_change_push(s0, c0, a);
        lemma_reserved_change_push(s0.push(c0), c1, a);
        assert(reserved_change(s0, a) == 0);
        if outcome(c1) is Err {
            assert(reserved_change(log.skip(n), a) == 0);
            assert(after.owner == before.owner);
        } else {
            assert(reserved_change(log.skip(n), a) == if a == who { deposit as int } else { 0 });
            lemma_owned_count_insert(before.owner, id, who, a);
            assert(!before.owner.contains_key(id));
            lemma_scale_by_unit(deposit as int, owned_count(after.owner, a) - owned_count(before.owner, a));
        }
    }
}

/// Deposits follow ownership over a gift: the requests were a reserve of the
/// deposit from the new owner and, if that succeeded, a give-back to the
/// former owner.
pub proof fn lemma_transfer_reserves(
    before: PalletView,
    after: PalletView,
    prior: Seq<RuntimeCall>,
    log: Seq<RuntimeCall>,
    who: AccountId,
    new_owner: AccountId,
    id: KittyIndex,
    deposit: Balance,
)
    requires
        before.wf(),
        before.owned_by(id, who),
        log.len() >= prior.len() + 1,
        log.take(prior.len() as int) == prior,
        log[prior.len() as int] == RuntimeCall::Reserve(new_owner, deposit, outcome(log[prior.len() as int])),
        outcome(log[prior.len() as int]) is Err ==> log.len() == prior.len() + 1 && after == before,
        outcome(log[prior.len() as int]) is Ok ==> {
            &&& log.len() == prior.len() + 2
            &&& log[prior.len() + 1int] == RuntimeCall::Unreserve(who, deposit, remainder(log[prior.len() + 1int]))
            &&& after == before.with_owner(id, new_owner)
        },
    ensures
        reserves_follow_ownership(before, after, log.skip(prior.len() as int), deposit),
{
    let n = prior.len() as int;
    let c0 = log[n];
    let s0 = Seq::<RuntimeCall>::empty();
    if outcome(c0) is Err {
        assert(log.skip(n) =~= s0.push(c0));
    assert forall|a: AccountId| #[trigger] reserved_change(log.skip(n), a) == deposit as int * (
        owned_count(after.owner, a) - owned_count(before.owner, a)) by {
            lemma_reserved_change_push(s0, c0, a);
        }
    } else {
        let c1 = log[n + 1];
        let added = s0.push(c0).push(c1);
        assert(log.skip(n) =~= added);
        if give_backs_complete(added) {
            assert(remainder(added[1]) == 0);
            assert forall|a: AccountId| #[trigger] reserved_change(log.skip(n), a) == deposit as int * (
            owned_count(after.owner, a) - owned_count(before.owner, a)) by {
                lemma_reserved_change_push(s0, c0, a);
                lemma_reserved_change_push(s0.push(c0), c1, a);
                lemma_owned_count_insert(before.owner, id, new_owner, a);
                lemma_scale_by_unit(deposit as int, owned_count(after.owner, a) - owned_count(before.owner, a));
            }
        }
    }
}

/// Deposits follow ownership over a purchase: the requests were the payment,
/// then a reserve of the deposit from the buyer and, if that succeeded, a
/// give-back to the seller.
pub proof fn lemma_buy_reserves(
    before: PalletView,
    after: PalletView,
    prior: Seq<RuntimeCall>,
    log: Seq<RuntimeCall>,
    who: AccountId,
    seller: AccountId,
    mount: Balance,
    id: KittyIndex,
    deposit: Balance,
)
    requires
        before.wf(),
        before.owned_by(id, seller),
        log.len() >= prior.len() + 1,
        log.take(prior.len() as int) == prior,
        log[prior.len() as int] == RuntimeCall::Transfer(
            who,
            seller,
            mount,
            ExistenceRequirement::KeepAlive,
            outcome(log[prior.len() as int]),
        ),
        outcome(log[prior.len() as int]) is Err ==> log.len() == prior.len() + 1 && after == before,
        outcome(log[prior.len() as int]) is Ok ==> {
            &&& log.len() >= prior.len() + 2
            &&& log[prior.len() + 1int] == RuntimeCall::Reserve(who, deposit, outcome(log[prior.len() + 1int]))
            &&& outcome(log[prior.len() + 1int]) is Err ==> log.len() == prior.len() + 2 && after == before
            &&& outcome(log[prior.len() + 1int]) is Ok ==> {
                &&& log.len() == prior.len() + 3
                &&& log[prior.len() + 2int] == RuntimeCall::Unreserve(
                    seller,
                    deposit,
                    remainder(log[prior.len() + 2int]),
                )
                &&& after == before.with_owner(id, who).with_price(id, 0)
            }
        },
    ensures
        reserves_follow_ownership(before, after, log.skip(prior.len() as int), deposit),
{
    let n = prior.len() as int;
    let c0 = log[n];
    let s0 = Seq::<RuntimeCall>::empty();
    if outcome(c0) is Err {
        assert(log.skip(n) =~= s0.push(c0));
    assert forall|a: AccountId| #[trigger] reserved_change(log.skip(n), a) == deposit as int * (
        owned_count(after.owner, a) - owned_count(before.owner, a)) by {
            lemma_reserved_change_push(s0, c0, a);
        }
    } else {
        let c1 = log[n + 1];
        if outcome(c1) is Err {
            assert(log.skip(n) =~= s0.push(c0).push(c1));
            assert forall|a: AccountId| #[trigger] reserved_change(log.skip(n), a) == deposit as int * (
            owned_count(after.owner, a) - owned_count(before.owner, a)) by {
                lemma_reserved_change_push(s0, c0, a);
                lemma_reserved_change_push(s0.push(c0), c1, a);
            }
        } else {
            let c2 = log[n + 2];
            let added = s0.push(c0).push(c1).push(c2);
            assert(log.skip(n) =~= added);
            if give_backs_complete(added) {
                assert(remainder(added[2]) == 0);
                assert forall|a: AccountId| #[trigger] reserved_change(log.skip(n), a) == deposit as int * (
                owned_count(after.owner, a) - owned_count(before.owner, a)) by {
                    lemma_reserved_change_push(s0, c0, a);
                    lemma_reserved_change_push(s0.push(c0), c1, a);
                    lemma_reserved_change_push(s0.push(c0).push(c1), c2, a);
                    lemma_owned_count_insert(before.owner, id, who, a);
                    lemma_scale_by_unit(deposit as int, owned_count(after.owner, a) - owned_count(before.owner, a));
                }
            }
        }
    }
}

/// Over a call that made no request and left the registry as it was,
/// deposits trivially follow ownership.
pub proof fn lemma_nothing_added(v: PalletView, log: Seq<RuntimeCall>, deposit: Balance)
    ensures
        reserves_follow_ownership(v, v, log.skip(log.len() as int), deposit),
{
    let added = log.skip(log.len() as int);
    assert(added =~= Seq::<RuntimeCall>::empty());
    assert forall|a: AccountId| #[trigger] reserved_change(added, a) == deposit as int * (
    owned_count(v.owner, a) - owned_count(v.owner, a)) by {
        assert(reserved_change(added, a) == 0);
    }
}

/// Deposits follow ownership across calls: over two runs of requests one
/// after the other, each of which kept deposits following ownership under
/// the same deposit, they follow ownership over the whole.
pub proof fn lemma_reserves_follow_ownership_across_calls(
    v0: PalletView,
    v1: PalletView,
    v2: PalletView,
    first: Seq<RuntimeCall>,
    second: Seq<RuntimeCall>,
    deposit: Balance,
)
    requires
        reserves_follow_ownership(v0, v1, first, deposit),
        reserves_follow_ownership(v1, v2, second, deposit),
    ensures
        reserves_follow_ownership(v0, v2, first + second, deposit),
{
    if give_backs_complete(first + second) {
        assert forall|i: int| 0 <= i < first.len() implies remainder(#[trigger] first[i]) == 0 by {
            assert((first + second)[i] == first[i]);
        }
        assert forall|i: int| 0 <= i < second.len() implies remainder(#[trigger] second[i]) == 0 by {
            assert((first + second)[first.len() + i] == second[i]);
        }
        assert forall|a: AccountId| #[trigger] reserved_change(first + second, a) == deposit as int * (
        owned_count(v2.owner, a) - owned_count(v0.owner, a)) by {
            lemma_reserved_change_concat(first, second, a);
            assert(reserved_change(first, a) == deposit as int * (owned_count(v1.owner, a) - owned_count(v0.owner, a)));
            assert(reserved_change(second, a) == deposit as int * (owned_count(v2.owner, a) - owned_count(v1.owner, a)));
            let x = owned_count(v1.owner, a) - owned_count(v0.owner, a);
            let y = owned_count(v2.owner, a) - owned_count(v1.owner, a);
            assert(deposit as int * x + deposit as int * y == deposit as int * (x + y)) by (nonlinear_arith);
        }
    }
}

/// Whether kitty `k`, if it was not on sale, is still not on sale.
pub open spec fn stays_off_sale(before: PalletView, after: PalletView, k: KittyIndex) -> bool {
    !before.for_sale(k) ==> !after.for_sale(k)
}

/// A kitty not on sale stays off sale over a run of calls none of which put
/// it on sale, and every purchase of it is then refused with `KittyNotSale`
/// (or `KittyPriceOverflow` for the largest amount, checked first).
pub proof fn lemma_off_sale_across_calls(states: Seq<PalletView>, k: KittyIndex, mount: Balance)
    requires
        states.len() >= 1,
        !states[0].for_sale(k),
        forall|i: int| 0 <= i < states.len() - 1 ==> #[trigger] stays_off_sale(states[i], states[i + 1], k),
    ensures
        !states.last().for_sale(k),
        states.last().buy_refusal(mount, k) == Some(
            if mount == Balance::MAX { Error::KittyPriceOverflow } else { Error::KittyNotSale },
        ),
    decreases states.len(),
{
    if states.len() > 1 {
        let earlier = states.drop_last();
        assert forall|i: int| 0 <= i < earlier.len() - 1 implies #[trigger] stays_off_sale(earlier[i], earlier[i + 1], k) by {
            assert(stays_off_sale(states[i], states[i + 1], k));
        }
        lemma_off_sale_across_calls(earlier, k, mount);
        let m = states.len() - 2;
        assert(earlier.last() == states[m]);
        assert(stays_off_sale(states[m], states[m + 1], k));
    }
}

/// Breeding looks at the parents' existence, not at who owns them: two
/// distinct kitties, whoever owns them (the same account included), can be
/// bred whenever a number is free, and the child gets the next number.
pub proof fn lemma_bread_whatever_the_owners(v: PalletView, id_1: KittyIndex, id_2: KittyIndex)
    requires
        v.wf(),
        id_1 != id_2,
        v.kitties.contains_key(id_1),
        v.kitties.contains_key(id_2),
        count_value(v.kitties_count) < KittyIndex::MAX,
    ensures
        v.bread_refusal(id_1, id_2) is None,
        next_index(v.kitties_count) == Some(count_value(v.kitties_count) as KittyIndex),
{
}

/// Creation is refused for the count exactly when every number up to the
/// largest is taken; otherwise the new kitty gets the number equal to the
/// count of kitties so far.
pub proof fn lemma_create_refused_only_at_max(v: PalletView)
    ensures
        (v.create_refusal() is Some) <==> v.kitties_count == Some(KittyIndex::MAX),
        count_value(v.kitties_count) < KittyIndex::MAX ==> next_index(v.kitties_count) == Some(
            count_value(v.kitties_count) as KittyIndex,
        ),
{
}

/// An owner can always price their kitty at any amount but the largest,
/// whatever its current price (on sale or not); the kitty then has exactly
/// that price, every other kitty keeps its price, and no owner or DNA changes.
pub proof fn lemma_owner_can_always_reprice(v: PalletView, who: AccountId, price: Balance, id: KittyIndex)
    requires
        v.owned_by(id, who),
        price != Balance::MAX,
    ensures
        v.set_price_refusal(who, price, id) is None,
        v.with_price(id, price).kitty_price.contains_key(id),
        v.with_price(id, price).kitty_price[id] == price,
        forall|k: KittyIndex| k != id ==> #[trigger] v.with_price(id, price).kitty_price.contains_key(k)
            == v.kitty_price.contains_key(k) && v.with_price(id, price).kitty_price[k] == v.kitty_price[k],
        v.with_price(id, price).owner == v.owner,
        v.with_price(id, price).kitties == v.kitties,
{
}

/// A purchase that the registry lets through is of a kitty priced above
/// zero, for at least its price (and below the largest amount), that has an owner.
pub proof fn lemma_purchase_pays_at_least_price(v: PalletView, mount: Balance, id: KittyIndex)
    requires
        v.buy_refusal(mount, id) is None,
    ensures
        v.kitty_price.contains_key(id),
        0 < v.kitty_price[id] <= mount,
        mount < Balance::MAX,
        v.owner.contains_key(id),
{
}

/// Changing a kitty's owner, and a purchase (new owner, price zero), leave
/// every kitty's DNA and the count as they were; only the owner of that
/// kitty changes.
pub proof fn lemma_ownership_change_keeps_dna(v: PalletView, id: KittyIndex, who: AccountId, price: Balance)
    ensures
        v.with_owner(id, who).kitties == v.kitties,
        v.with_owner(id, who).kitties_count == v.kitties_count,
        v.with_owner(id, who).owner[id] == who,
        forall|k: KittyIndex| k != id ==> #[trigger] v.with_owner(id, who).owner.contains_key(k)
            == v.owner.contains_key(k) && v.with_owner(id, who).owner[k] == v.owner[k],
        v.with_owner(id, who).with_price(id, price).kitties == v.kitties,
{
}

} // verus!
