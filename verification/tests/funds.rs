use microcosm::error::{Error, FromStdError, WrapErr, WrapRes};
use microcosm::funds::{BankMsg, Claim, ClaimMsg, Coin, Coins, MessageFunds, MessageInfo, Split,
    SplitMsg};
use microcosm::utility::{Addr, Authorize};

fn coin(amount: u128, denom: &str) -> Coin {
    Coin { denom: denom.to_string(), amount }
}

fn addr(text: &str) -> Addr {
    Addr::new(text.to_string())
}

#[test]
fn coins_collect_and_look_up() {
    let coins =
        Coins::try_from_vec(&vec![coin(100, "uatom"), coin(0, "uluna"), coin(7, "uosmo")]).unwrap();
    assert_eq!(coins.len(), 2);
    assert_eq!(coins.amount_of("uatom"), 100);
    assert_eq!(coins.amount_of("uosmo"), 7);
    assert_eq!(coins.amount_of("uluna"), 0);

    let dup = Coins::try_from_vec(&vec![coin(1, "uatom"), coin(2, "uatom")]);
    assert!(matches!(dup, Err(Error::Std { .. })));
}

#[test]
fn coins_add_and_sub() {
    let mut coins = Coins::new();
    coins.add(coin(10, "uatom")).unwrap();
    coins.add(coin(5, "uatom")).unwrap();
    coins.add(coin(3, "uosmo")).unwrap();
    assert_eq!(coins.amount_of("uatom"), 15);
    assert_eq!(coins.amount_of("uosmo"), 3);

    // overflow leaves the collection as it was
    assert!(matches!(coins.add(coin(u128::MAX, "uatom")), Err(Error::Std { .. })));
    assert_eq!(coins.amount_of("uatom"), 15);

    coins.sub(coin(15, "uatom")).unwrap();
    assert_eq!(coins.amount_of("uatom"), 0);
    // a drained denomination leaves the collection entirely
    assert_eq!(coins.len(), 1);

    assert!(matches!(coins.sub(coin(4, "uosmo")), Err(Error::Std { .. })));
    assert_eq!(coins.amount_of("uosmo"), 3);
}

#[test]
fn claim_takes_its_share() {
    let funds = Coins::try_from_vec(&vec![coin(100, "uatom"), coin(9, "uosmo")]).unwrap();
    let claim = Claim { owner: addr("alice"), bps: 2500 };
    let share = claim.split(&funds).unwrap();
    assert_eq!(share.amount_of("uatom"), 25);
    // a quarter of nine rounds down
    assert_eq!(share.amount_of("uosmo"), 2);
}

#[test]
fn split_pays_every_claim() {
    let funds = Coins::try_from_vec(&vec![coin(100, "uatom")]).unwrap();
    let split = Split {
        claims: vec![
            Claim { owner: addr("alice"), bps: 5000 },
            Claim { owner: addr("bob"), bps: 2500 },
        ],
    };
    let msgs = split.split(&funds).unwrap();
    assert_eq!(msgs.len(), 2);

    // the first claim also takes what rounding left behind
    let BankMsg::Send { to_address, amount } = &msgs[0];
    assert_eq!(to_address, "alice");
    assert_eq!(amount, &vec![coin(75, "uatom")]);

    let BankMsg::Send { to_address, amount } = &msgs[1];
    assert_eq!(to_address, "bob");
    assert_eq!(amount, &vec![coin(25, "uatom")]);
}

#[test]
fn split_rejects_overcommitted_claims() {
    let funds = Coins::try_from_vec(&vec![coin(100, "uatom")]).unwrap();
    let split = Split {
        claims: vec![
            Claim { owner: addr("alice"), bps: 7000 },
            Claim { owner: addr("bob"), bps: 7000 },
        ],
    };
    assert!(matches!(split.split(&funds), Err(Error::Std { .. })));
}

#[test]
fn split_of_nothing_pays_nothing() {
    let funds = Coins::new();
    let split = Split { claims: vec![Claim { owner: addr("alice"), bps: 5000 }] };
    let msgs = split.split(&funds).unwrap();
    assert_eq!(msgs.len(), 1);
    let BankMsg::Send { to_address, amount } = &msgs[0];
    assert_eq!(to_address, "alice");
    assert!(amount.is_empty());
}

#[test]
fn message_funds_checks() {
    let info = MessageInfo { sender: addr("alice"), funds: vec![coin(30, "uatom")] };
    assert_eq!(info.require_coin(&coin(30, "uatom")), Ok(()));
    assert_eq!(info.require_coin(&coin(31, "uatom")), Err(Error::InsufficientFunds {}));
    assert_eq!(info.require_coin(&coin(1, "uosmo")), Err(Error::InsufficientFunds {}));
    assert_eq!(info.defund(), Ok(()));

    let broke = MessageInfo { sender: addr("bob"), funds: vec![] };
    assert_eq!(broke.require_coin(&coin(1, "uatom")), Err(Error::InsufficientFunds {}));
    assert_eq!(broke.defund(), Err(Error::FundsNotRequired {}));

    let expected = Coins::try_from_vec(&vec![coin(10, "uatom")]).unwrap();
    assert_eq!(info.require_coins(&expected), Ok(()));
    let too_much = Coins::try_from_vec(&vec![coin(10, "uatom"), coin(1, "uosmo")]).unwrap();
    assert_eq!(info.require_coins(&too_much), Err(Error::InsufficientFunds {}));
}

#[test]
fn claim_messages_build_claims() {
    let msg = ClaimMsg { owner: "alice".to_string(), bps: 1200 };
    let claim = msg.into_claim(addr("alice"));
    assert_eq!(claim.owner, addr("alice"));
    assert_eq!(claim.bps, 1200);

    let split_msg = SplitMsg {
        claims: vec![
            ClaimMsg { owner: "alice".to_string(), bps: 1200 },
            ClaimMsg { owner: "bob".to_string(), bps: 8800 },
        ],
    };
    let split = split_msg.into_split(vec![addr("alice"), addr("bob")]);
    assert_eq!(split.claims.len(), 2);
    assert_eq!(split.claims[0].owner, addr("alice"));
    assert_eq!(split.claims[1].bps, 8800);
}

#[test]
fn authorize_gates_by_address() {
    assert_eq!(addr("alice").authorize(&addr("alice")), Ok(()));
    assert_eq!(addr("alice").authorize(&addr("mallory")), Err(Error::Unauthorized {}));
}

#[test]
fn error_wrapping() {
    assert_eq!(
        Error::wrap_err("boom".to_string()),
        Error::Generic { msg: "boom".to_string() }
    );
    assert_eq!(
        Error::from_std("missing key".to_string()),
        Error::Std { msg: "missing key".to_string() }
    );
    let wrapped: Result<u32, Error> = Err::<u32, String>("boom".to_string()).wrap();
    assert_eq!(wrapped, Err(Error::Generic { msg: "boom".to_string() }));
    let passed: Result<u32, Error> = Ok::<u32, String>(7).wrap();
    assert_eq!(passed, Ok(7));
}
