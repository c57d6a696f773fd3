use kitties_erc20::kitties::{
    AccountId, Balance, BlockNumber, Config, DispatchError, Error, Event, ExistenceRequirement,
    Kitty, KittyIndex, Origin, Pallet, RuntimeCall,
};
use kitties_erc20::kitties::ensure_signed;
use std::collections::HashMap;
use vstd::seq::Seq;

/// A runtime for tests: accounts 1 to 6 start with 10_000 each, account 7
/// with nothing; the deposit is 1_000.
#[derive(Debug, Clone, PartialEq)]
struct MockRuntime {
    free: HashMap<AccountId, Balance>,
    reserved: HashMap<AccountId, Balance>,
    seed: u8,
}

const INSUFFICIENT: u32 = 1;
const EXISTENTIAL_DEPOSIT: Balance = 1;

impl MockRuntime {
    fn new() -> MockRuntime {
        let mut free = HashMap::new();
        for who in 1..=6u64 {
            free.insert(who, 10_000);
        }
        MockRuntime { free, reserved: HashMap::new(), seed: 0 }
    }

    fn free_balance(&self, who: AccountId) -> Balance {
        *self.free.get(&who).unwrap_or(&0)
    }

    fn reserved_balance(&self, who: AccountId) -> Balance {
        *self.reserved.get(&who).unwrap_or(&0)
    }
}

impl Config for MockRuntime {
    // The three specification items exist for the verifier only; compiled
    // code never calls them.
    fn requests(&self) -> Seq<RuntimeCall> {
        unreachable!()
    }

    fn spec_deposit(&self) -> Balance {
        unreachable!()
    }

    fn spec_extrinsic_index(&self) -> Option<u32> {
        unreachable!()
    }

    fn deposit(&self) -> Balance {
        1_000
    }

    fn random_seed(&mut self) -> ([u8; 32], BlockNumber) {
        self.seed = self.seed.wrapping_add(1);
        ([self.seed; 32], 1)
    }

    fn extrinsic_index(&self) -> Option<u32> {
        Some(0)
    }

    fn reserve(&mut self, who: AccountId, value: Balance) -> Result<(), DispatchError> {
        let free = self.free_balance(who);
        if free < value {
            return Err(DispatchError::Currency(INSUFFICIENT));
        }
        self.free.insert(who, free - value);
        let reserved = self.reserved_balance(who);
        self.reserved.insert(who, reserved + value);
        Ok(())
    }

    fn unreserve(&mut self, who: AccountId, value: Balance) -> Balance {
        let reserved = self.reserved_balance(who);
        let actual = reserved.min(value);
        self.reserved.insert(who, reserved - actual);
        let free = self.free_balance(who);
        self.free.insert(who, free + actual);
        value - actual
    }

    fn transfer(
        &mut self,
        source: AccountId,
        dest: AccountId,
        value: Balance,
        existence: ExistenceRequirement,
    ) -> Result<(), DispatchError> {
        let free = self.free_balance(source);
        if free < value {
            return Err(DispatchError::Currency(INSUFFICIENT));
        }
        if existence == ExistenceRequirement::KeepAlive && free - value < EXISTENTIAL_DEPOSIT {
            return Err(DispatchError::Currency(INSUFFICIENT));
        }
        self.free.insert(source, free - value);
        let to = self.free_balance(dest);
        self.free.insert(dest, to + value);
        Ok(())
    }
}

fn snapshot(p: &Pallet, ids: &[KittyIndex]) -> (Option<KittyIndex>, Vec<(Option<Kitty>, Option<AccountId>, Option<Balance>)>) {
    (
        p.kitties_count(),
        ids.iter().map(|id| (p.kitties(*id), p.owner(*id), p.kitty_price(*id))).collect(),
    )
}

#[test]
fn create_works() {
    let mut rt = MockRuntime::new();
    let mut p = Pallet::new();
    assert!(p.create(&mut rt, Origin::signed(1)).is_ok());
    let kitty_id: KittyIndex = 0;
    assert_eq!(p.owner(kitty_id), Some(1u64));
    assert_eq!(p.kitties_count(), Some(1u32));
}

#[test]
fn create_failed_by_not_enough_token() {
    let mut rt = MockRuntime::new();
    let mut p = Pallet::new();
    let before = snapshot(&p, &[0]);
    let balances_before = (rt.free.clone(), rt.reserved.clone());
    assert_eq!(
        p.create(&mut rt, Origin::signed(7)),
        Err(DispatchError::Module(Error::NotEnoughToken))
    );
    assert_eq!(snapshot(&p, &[0]), before);
    assert_eq!((rt.free.clone(), rt.reserved.clone()), balances_before);
}

#[test]
fn transfer_works() {
    let mut rt = MockRuntime::new();
    let mut p = Pallet::new();
    assert!(p.create(&mut rt, Origin::signed(1)).is_ok());
    let kitty_id: KittyIndex = 0;
    assert!(p.transfer(&mut rt, Origin::signed(1), 2, kitty_id.clone()).is_ok());
    assert_eq!(p.owner(kitty_id), Some(2u64));
    assert_eq!(p.kitties_count(), Some(1u32));
}

#[test]
fn transfer_failed_by_not_owner() {
    let mut rt = MockRuntime::new();
    let mut p = Pallet::new();
    assert!(p.create(&mut rt, Origin::signed(1)).is_ok());
    let before = snapshot(&p, &[0]);
    let rt_before = rt.clone();
    assert_eq!(
        p.transfer(&mut rt, Origin::signed(2), 3, 0u32.into()),
        Err(DispatchError::Module(Error::NotOwner))
    );
    assert_eq!(snapshot(&p, &[0]), before);
    assert_eq!(rt, rt_before);
}

#[test]
fn bread_works() {
    let mut rt = MockRuntime::new();
    let mut p = Pallet::new();
    assert!(p.create(&mut rt, Origin::signed(1)).is_ok());
    assert!(p.create(&mut rt, Origin::signed(2)).is_ok());
    let kitty_id_1: KittyIndex = 0;
    let kitty_id_2: KittyIndex = 1u32.into();
    assert!(p.bread(&mut rt, Origin::signed(1), kitty_id_1.clone(), kitty_id_2.clone()).is_ok());
    let new_kitty_id: KittyIndex = 2u32.into();
    assert_eq!(p.owner(new_kitty_id), Some(1u64));
    assert_eq!(p.kitties_count(), Some(3u32));
}

#[test]
fn bread_failed_by_same_parent() {
    let mut rt = MockRuntime::new();
    let mut p = Pallet::new();
    assert!(p.create(&mut rt, Origin::signed(1)).is_ok());
    assert!(p.create(&mut rt, Origin::signed(2)).is_ok());
    let before = snapshot(&p, &[0, 1, 2]);
    let rt_before = rt.clone();
    assert_eq!(
        p.bread(&mut rt, Origin::signed(1), 0u32.into(), 0u32.into()),
        Err(DispatchError::Module(Error::SameParentIndex))
    );
    assert_eq!(snapshot(&p, &[0, 1, 2]), before);
    assert_eq!(rt, rt_before);
}

#[test]
fn set_price_works() {
    let mut rt = MockRuntime::new();
    let mut p = Pallet::new();
    assert!(p.create(&mut rt, Origin::signed(1)).is_ok());
    let price: u64 = 20;
    let kitty_id: KittyIndex = 0;
    assert!(p.set_price(Origin::signed(1), price, kitty_id).is_ok());
    assert_eq!(p.kitty_price(kitty_id), Some(20u64));
}

#[test]
fn set_price_failed_by_not_owner() {
    let mut rt = MockRuntime::new();
    let mut p = Pallet::new();
    assert!(p.create(&mut rt, Origin::signed(1)).is_ok());
    let before = snapshot(&p, &[0]);
    assert_eq!(
        p.set_price(Origin::signed(2), 20u64, 0u32),
        Err(DispatchError::Module(Error::NotOwner))
    );
    assert_eq!(snapshot(&p, &[0]), before);
}

#[test]
fn buy_kitty_works() {
    let mut rt = MockRuntime::new();
    let mut p = Pallet::new();
    assert!(p.create(&mut rt, Origin::signed(1)).is_ok());
    let price: u64 = 20;
    let kitty_id: KittyIndex = 0;
    assert!(p.set_price(Origin::signed(1), price, kitty_id).is_ok());
    assert!(p.buy_kitty(&mut rt, Origin::signed(2), price, kitty_id).is_ok());
    assert_eq!(p.owner(kitty_id), Some(2u64));
}

#[test]
fn buy_kitty_failed_by_not_sale() {
    let mut rt = MockRuntime::new();
    let mut p = Pallet::new();
    assert!(p.create(&mut rt, Origin::signed(1)).is_ok());
    assert!(p.set_price(Origin::signed(1), 20u64, 0u32).is_ok());
    assert!(p.buy_kitty(&mut rt, Origin::signed(2), 20u64, 0u32).is_ok());
    let before = snapshot(&p, &[0]);
    let rt_before = rt.clone();
    assert_eq!(
        p.buy_kitty(&mut rt, Origin::signed(3), 20u64, 0u32),
        Err(DispatchError::Module(Error::KittyNotSale))
    );
    assert_eq!(snapshot(&p, &[0]), before);
    assert_eq!(rt, rt_before);
}

// ---- further cases ----

#[test]
fn create_events_and_deposit() {
    let mut rt = MockRuntime::new();
    let mut p = Pallet::new();
    assert_eq!(p.create(&mut rt, Origin::signed(1)), Ok(Event::KittyCreate(1, 0)));
    assert_eq!(p.create(&mut rt, Origin::signed(2)), Ok(Event::KittyCreate(2, 1)));
    assert_eq!(rt.reserved_balance(1), 1_000);
    assert_eq!(rt.free_balance(1), 9_000);
    assert_eq!(p.kitty_price(0), None);
    assert!(p.kitties(0).is_some());
    assert!(p.kitties(1).is_some());
    assert_eq!(p.kitties(2), None);
}

#[test]
fn create_dna_comes_from_entropy() {
    let mut rt = MockRuntime::new();
    let mut p = Pallet::new();
    assert!(p.create(&mut rt, Origin::signed(1)).is_ok());
    let expected = kitties_erc20::entropy::dna_from_entropy([1u8; 32], 1, 1, Some(0));
    assert_eq!(p.kitties(0), Some(Kitty(expected)));
}

#[test]
fn unsigned_calls_are_bad_origin() {
    let mut rt = MockRuntime::new();
    let mut p = Pallet::new();
    let rt_before = rt.clone();
    assert_eq!(p.create(&mut rt, Origin::Root), Err(DispatchError::BadOrigin));
    assert_eq!(p.create(&mut rt, Origin::Unsigned), Err(DispatchError::BadOrigin));
    assert_eq!(p.set_price(Origin::Unsigned, 1, 0), Err(DispatchError::BadOrigin));
    assert_eq!(p.transfer(&mut rt, Origin::Root, 2, 0), Err(DispatchError::BadOrigin));
    assert_eq!(p.bread(&mut rt, Origin::Root, 0, 1), Err(DispatchError::BadOrigin));
    assert_eq!(p.buy_kitty(&mut rt, Origin::Unsigned, 1, 0), Err(DispatchError::BadOrigin));
    assert_eq!(p.kitties_count(), None);
    assert_eq!(rt, rt_before);
}

#[test]
fn transfer_moves_deposit_and_emits() {
    let mut rt = MockRuntime::new();
    let mut p = Pallet::new();
    assert!(p.create(&mut rt, Origin::signed(1)).is_ok());
    assert_eq!(p.transfer(&mut rt, Origin::signed(1), 2, 0), Ok(Event::KittyTransfer(1, 2, 0)));
    assert_eq!(rt.reserved_balance(1), 0);
    assert_eq!(rt.reserved_balance(2), 1_000);
    // the former owner no longer controls the kitty
    assert_eq!(p.transfer(&mut rt, Origin::signed(1), 3, 0), Err(DispatchError::Module(Error::NotOwner)));
}

#[test]
fn transfer_to_poor_account_passes_currency_error() {
    let mut rt = MockRuntime::new();
    let mut p = Pallet::new();
    assert!(p.create(&mut rt, Origin::signed(1)).is_ok());
    assert_eq!(
        p.transfer(&mut rt, Origin::signed(1), 7, 0),
        Err(DispatchError::Currency(INSUFFICIENT))
    );
    assert_eq!(p.owner(0), Some(1));
}

#[test]
fn bread_invalid_index() {
    let mut rt = MockRuntime::new();
    let mut p = Pallet::new();
    assert!(p.create(&mut rt, Origin::signed(1)).is_ok());
    let rt_before = rt.clone();
    assert_eq!(p.bread(&mut rt, Origin::signed(1), 0, 5), Err(DispatchError::Module(Error::InvalidKittyIndex)));
    assert_eq!(p.bread(&mut rt, Origin::signed(1), 5, 0), Err(DispatchError::Module(Error::InvalidKittyIndex)));
    assert_eq!(p.kitties_count(), Some(1));
    assert_eq!(rt, rt_before);
}

#[test]
fn bread_mixes_parent_dna() {
    let mut rt = MockRuntime::new();
    let mut p = Pallet::new();
    assert!(p.create(&mut rt, Origin::signed(1)).is_ok());
    assert!(p.create(&mut rt, Origin::signed(2)).is_ok());
    let a = p.kitties(0).unwrap().0;
    let b = p.kitties(1).unwrap().0;
    assert_eq!(p.bread(&mut rt, Origin::signed(3), 0, 1), Ok(Event::KittyCreate(3, 2)));
    let selector = kitties_erc20::entropy::dna_from_entropy([3u8; 32], 1, 3, Some(0));
    let child = p.kitties(2).unwrap().0;
    for i in 0..16 {
        assert_eq!(child[i], (selector[i] & a[i]) | (!selector[i] & b[i]));
    }
    assert_eq!(p.owner(2), Some(3));
}

#[test]
fn bread_by_poor_account_not_enough_token() {
    let mut rt = MockRuntime::new();
    let mut p = Pallet::new();
    assert!(p.create(&mut rt, Origin::signed(1)).is_ok());
    assert!(p.create(&mut rt, Origin::signed(2)).is_ok());
    assert_eq!(p.bread(&mut rt, Origin::signed(7), 0, 1), Err(DispatchError::Module(Error::NotEnoughToken)));
    assert_eq!(p.kitties_count(), Some(2));
}

#[test]
fn set_price_max_is_overflow() {
    let mut rt = MockRuntime::new();
    let mut p = Pallet::new();
    assert!(p.create(&mut rt, Origin::signed(1)).is_ok());
    assert_eq!(
        p.set_price(Origin::signed(1), u64::MAX, 0),
        Err(DispatchError::Module(Error::KittyPriceOverflow))
    );
    assert_eq!(p.set_price(Origin::signed(1), 5, 0), Ok(Event::KittySetPrice(1, 5, 0)));
    assert_eq!(p.kitty_price(0), Some(5));
}

#[test]
fn buy_refusals() {
    let mut rt = MockRuntime::new();
    let mut p = Pallet::new();
    // no kitty at all: nothing is on sale
    assert_eq!(p.buy_kitty(&mut rt, Origin::signed(2), 5, 0), Err(DispatchError::Module(Error::KittyNotSale)));
    assert!(p.create(&mut rt, Origin::signed(1)).is_ok());
    assert!(p.set_price(Origin::signed(1), 20, 0).is_ok());
    let rt_before = rt.clone();
    assert_eq!(
        p.buy_kitty(&mut rt, Origin::signed(2), u64::MAX, 0),
        Err(DispatchError::Module(Error::KittyPriceOverflow))
    );
    assert_eq!(p.buy_kitty(&mut rt, Origin::signed(2), 19, 0), Err(DispatchError::Module(Error::NotEnoughToken)));
    assert_eq!(rt, rt_before);
    // the buyer cannot pay
    assert_eq!(p.buy_kitty(&mut rt, Origin::signed(7), 20, 0), Err(DispatchError::Currency(INSUFFICIENT)));
    assert_eq!(p.owner(0), Some(1));
    assert_eq!(p.kitty_price(0), Some(20));
}

#[test]
fn buy_pays_seller_and_clears_price() {
    let mut rt = MockRuntime::new();
    let mut p = Pallet::new();
    assert!(p.create(&mut rt, Origin::signed(1)).is_ok());
    assert!(p.set_price(Origin::signed(1), 20, 0).is_ok());
    assert_eq!(p.buy_kitty(&mut rt, Origin::signed(2), 25, 0), Ok(Event::KittyBuy(2, 25, 0)));
    assert_eq!(p.kitty_price(0), Some(0));
    assert_eq!(rt.free_balance(1), 10_000 - 1_000 + 25 + 1_000);
    assert_eq!(rt.free_balance(2), 10_000 - 25 - 1_000);
    assert_eq!(rt.reserved_balance(2), 1_000);
}

#[test]
fn unpriced_kitty_is_not_for_sale() {
    let mut rt = MockRuntime::new();
    let mut p = Pallet::new();
    assert!(p.create(&mut rt, Origin::signed(1)).is_ok());
    let rt_before = rt.clone();
    assert_eq!(p.buy_kitty(&mut rt, Origin::signed(2), 3, 0), Err(DispatchError::Module(Error::KittyNotSale)));
    assert_eq!(p.owner(0), Some(1));
    assert_eq!(rt, rt_before);
    // priced at zero is not on sale either
    assert!(p.set_price(Origin::signed(1), 0, 0).is_ok());
    assert_eq!(p.buy_kitty(&mut rt, Origin::signed(2), 3, 0), Err(DispatchError::Module(Error::KittyNotSale)));
    // a bought kitty stays off sale until priced again
    assert!(p.set_price(Origin::signed(1), 3, 0).is_ok());
    assert!(p.buy_kitty(&mut rt, Origin::signed(2), 3, 0).is_ok());
    assert!(p.transfer(&mut rt, Origin::signed(2), 4, 0).is_ok());
    assert_eq!(p.buy_kitty(&mut rt, Origin::signed(5), 9, 0), Err(DispatchError::Module(Error::KittyNotSale)));
    assert!(p.set_price(Origin::signed(4), 9, 0).is_ok());
    assert!(p.buy_kitty(&mut rt, Origin::signed(5), 9, 0).is_ok());
    assert_eq!(p.owner(0), Some(5));
}

#[test]
fn finish_steps_follow_reserve_outcome() {
    let mut p = Pallet::new();
    let dna = Kitty([7u8; 16]);
    assert_eq!(
        p.finish_create(4, 0, dna, Err(DispatchError::Currency(9))),
        Err(DispatchError::Module(Error::NotEnoughToken))
    );
    assert_eq!(p.kitties_count(), None);
    assert_eq!(p.finish_create(4, 0, dna, Ok(())), Ok(Event::KittyCreate(4, 0)));
    assert_eq!(p.kitties(0), Some(dna));
    assert_eq!(p.kitties_count(), Some(1));
    assert_eq!(p.finish_transfer(4, 5, 0, Err(DispatchError::Currency(9))), Err(DispatchError::Currency(9)));
    assert_eq!(p.owner(0), Some(4));
    assert_eq!(p.finish_transfer(4, 5, 0, Ok(())), Ok(Event::KittyTransfer(4, 5, 0)));
    assert_eq!(p.owner(0), Some(5));
    assert_eq!(
        p.finish_buy(6, 10, 0, Err(DispatchError::Currency(9))),
        Err(DispatchError::Module(Error::NotEnoughToken))
    );
    assert_eq!(p.owner(0), Some(5));
    assert_eq!(p.finish_buy(6, 10, 0, Ok(())), Ok(Event::KittyBuy(6, 10, 0)));
    assert_eq!(p.owner(0), Some(6));
    assert_eq!(p.kitty_price(0), Some(0));
}

#[test]
fn deposits_follow_ownership() {
    let mut rt = MockRuntime::new();
    let mut p = Pallet::new();
    assert!(p.create(&mut rt, Origin::signed(1)).is_ok());
    assert!(p.create(&mut rt, Origin::signed(1)).is_ok());
    assert_eq!(rt.reserved_balance(1), 2_000);
    assert!(p.transfer(&mut rt, Origin::signed(1), 2, 0).is_ok());
    assert_eq!(rt.reserved_balance(1), 1_000);
    assert_eq!(rt.reserved_balance(2), 1_000);
    assert!(p.set_price(Origin::signed(1), 50, 1).is_ok());
    assert!(p.buy_kitty(&mut rt, Origin::signed(3), 50, 1).is_ok());
    assert_eq!(rt.reserved_balance(1), 0);
    assert_eq!(rt.reserved_balance(3), 1_000);
    assert!(p.bread(&mut rt, Origin::signed(2), 0, 1).is_ok());
    assert_eq!(rt.reserved_balance(2), 2_000);
}

#[test]
fn mix_dna_selects_bits() {
    let selector = [0xf0u8; 16];
    let a = [0xaau8; 16];
    let b = [0x55u8; 16];
    assert_eq!(kitties_erc20::kitties::mix_dna(&selector, &a, &b), [0xa5u8; 16]);
    assert_eq!(kitties_erc20::kitties::mix_dna(&[0xffu8; 16], &a, &b), a);
    assert_eq!(kitties_erc20::kitties::mix_dna(&[0u8; 16], &a, &b), b);
}

#[test]
fn ensure_signed_cases() {
    assert_eq!(ensure_signed(Origin::signed(9)), Ok(9));
    assert_eq!(ensure_signed(Origin::Root), Err(DispatchError::BadOrigin));
    assert_eq!(ensure_signed(Origin::Unsigned), Err(DispatchError::BadOrigin));
}
