//! Funds: coin collections, claims on a pot of funds, and the splitting of
//! funds across claims.

use vstd::prelude::*;

verus! {

use crate::error::Error;
use crate::strutil::{lex_lt, str_eq, str_lt, lemma_lex_lt_asymmetric, lemma_lex_lt_connected,
    lemma_lex_lt_transitive};
use crate::utility::Addr;

/// The mathematical form of a coin.
pub ghost struct CoinV {
    pub denom: Seq<char>,
    pub amount: u128,
}

/// An amount of one denomination.
#[derive(Debug, Clone, PartialEq, Eq)]
pub struct Coin {
    pub denom: String,
    pub amount: u128,
}

impl DeepView for Coin {
    type V = CoinV;

    open spec fn deep_view(&self) -> CoinV {
        CoinV { denom: self.denom@, amount: self.amount }
    }
}

/// The total carried by a coin list under one denomination.
pub open spec fn coins_amt(s: Seq<CoinV>, d: Seq<char>) -> int
    decreases s.len(),
{
    if s.len() == 0 {
        0
    } else {
        (if s[0].denom == d {
            s[0].amount as int
        } else {
            0
        }) + coins_amt(s.drop_first(), d)
    }
}

/// Two nonzero coins of the same denomination.
pub open spec fn has_dup_nonzero(s: Seq<CoinV>) -> bool {
    exists|i: int, j: int|
        0 <= i < j < s.len() && s[i].amount > 0 && s[j].amount > 0 && s[i].denom == s[j].denom
}

/// No two coins share a denomination.
pub open spec fn unique_denoms(s: Seq<CoinV>) -> bool {
    forall|i: int, j: int| 0 <= i < j < s.len() ==> s[i].denom != s[j].denom
}

pub proof fn lemma_coins_amt_nonneg(s: Seq<CoinV>, d: Seq<char>)
    ensures
        coins_amt(s, d) >= 0,
    decreases s.len(),
{
    if s.len() > 0 {
        lemma_coins_amt_nonneg(s.drop_first(), d);
    }
}

pub proof fn lemma_coins_amt_append(a: Seq<CoinV>, b: Seq<CoinV>, d: Seq<char>)
    ensures
        coins_amt(a + b, d) == coins_amt(a, d) + coins_amt(b, d),
    decreases a.len(),
{
    if a.len() == 0 {
        assert(a + b =~= b);
    } else {
        assert((a + b).drop_first() =~= a.drop_first() + b);
        assert((a + b)[0] == a[0]);
        lemma_coins_amt_append(a.drop_first(), b, d);
    }
}

/// Where no coin carries the denomination, the total is zero.
pub proof fn lemma_coins_amt_absent(s: Seq<CoinV>, d: Seq<char>)
    requires
        forall|i: int| 0 <= i < s.len() ==> (#[trigger] s[i]).denom != d,
    ensures
        coins_amt(s, d) == 0,
    decreases s.len(),
{
    if s.len() > 0 {
        assert(forall|i: int|
            0 <= i < s.drop_first().len() ==> (#[trigger] s.drop_first()[i]).denom == s[i
                + 1].denom);
        lemma_coins_amt_absent(s.drop_first(), d);
    }
}

/// With unique denominations, the total under a denomination is the amount
/// of its single coin.
pub proof fn lemma_coins_amt_unique(s: Seq<CoinV>, d: Seq<char>, k: int)
    requires
        unique_denoms(s),
        0 <= k < s.len(),
        s[k].denom == d,
    ensures
        coins_amt(s, d) == s[k].amount,
{
    let pre = s.subrange(0, k);
    let post = s.subrange(k + 1, s.len() as int);
    assert(s =~= pre + (seq![s[k]] + post));
    lemma_coins_amt_append(pre, seq![s[k]] + post, d);
    lemma_coins_amt_append(seq![s[k]], post, d);
    assert(forall|i: int| 0 <= i < pre.len() ==> (#[trigger] pre[i]).denom != d) by {
        assert(forall|i: int| 0 <= i < pre.len() ==> pre[i] == s[i]);
    }
    lemma_coins_amt_absent(pre, d);
    assert(forall|i: int| 0 <= i < post.len() ==> (#[trigger] post[i]).denom != d) by {
        assert(forall|i: int| 0 <= i < post.len() ==> post[i] == s[k + 1 + i]);
    }
    lemma_coins_amt_absent(post, d);
    assert(coins_amt(seq![s[k]], d) == s[k].amount) by {
        assert(seq![s[k]].len() == 1);
        assert(seq![s[k]][0] == s[k]);
        assert(seq![s[k]].drop_first() =~= Seq::<CoinV>::empty());
        assert(coins_amt(Seq::<CoinV>::empty(), d) == 0);
        assert(coins_amt(seq![s[k]], d) == (if seq![s[k]][0].denom == d {
            seq![s[k]][0].amount as int
        } else {
            0
        }) + coins_amt(seq![s[k]].drop_first(), d));
    }
}

/// A collection of coins: sorted by denomination, one coin per
/// denomination, no zero amounts.
#[derive(Debug, Clone, PartialEq, Eq)]
pub struct Coins {
    pub coins: Vec<Coin>,
}

impl Coins {
    /// The collection's invariant: strictly ascending denominations and
    /// positive amounts.
    pub open spec fn wf(self) -> bool {
        &&& forall|i: int, j: int|
            0 <= i < j < self.coins@.len() ==> lex_lt(
                (#[trigger] self.coins.deep_view()[i]).denom,
                (#[trigger] self.coins.deep_view()[j]).denom,
            )
        &&& forall|i: int|
            0 <= i < self.coins@.len() ==> (#[trigger] self.coins.deep_view()[i]).amount > 0
    }

    /// The total held under one denomination.
    pub open spec fn amt(self, d: Seq<char>) -> int {
        coins_amt(self.coins.deep_view(), d)
    }

    proof fn lemma_wf_amt_bounded(self, d: Seq<char>)
        requires
            self.wf(),
        ensures
            0 <= self.amt(d) <= u128::MAX,
    {
        lemma_coins_amt_nonneg(self.coins.deep_view(), d);
        if self.amt(d) > 0 {
            lemma_coins_amt_pos_witness(self.coins.deep_view(), d);
            let j = choose|j: int|
                0 <= j < self.coins.deep_view().len() && (#[trigger] self.coins.deep_view()[
                j]).denom == d && self.coins.deep_view()[j].amount > 0;
            self.lemma_wf_unique();
            lemma_coins_amt_unique(self.coins.deep_view(), d, j);
        }
    }

    proof fn lemma_wf_unique(self)
        requires
            self.wf(),
        ensures
            unique_denoms(self.coins.deep_view()),
    {
        assert forall|i: int, j: int|
            0 <= i < j < self.coins.deep_view().len() implies (#[trigger] self.coins.deep_view()[
            i]).denom != (#[trigger] self.coins.deep_view()[j]).denom by {
            lemma_lex_lt_asymmetric(
                self.coins.deep_view()[i].denom,
                self.coins.deep_view()[j].denom,
            );
        }
    }

    /// The empty collection.
    pub fn new() -> (r: Coins)
        ensures
            r.wf(),
            forall|d: Seq<char>| #[trigger] r.amt(d) == 0,
            r.coins@.len() == 0,
    {
        let r = Coins { coins: Vec::new() };
        proof {
            assert(r.coins.deep_view() =~= Seq::<CoinV>::empty());
        }
        r
    }

    /// How many denominations are held.
    pub fn len(&self) -> (r: usize)
        ensures
            r == self.coins@.len(),
    {
        self.coins.len()
    }

    /// Whether nothing is held.
    pub fn is_empty(&self) -> (r: bool)
        ensures
            r == (self.coins@.len() == 0),
    {
        self.coins.len() == 0
    }

    /// The coins, sorted by denomination.
    pub fn to_vec(&self) -> (r: Vec<Coin>)
        ensures
            r.deep_view() == self.coins.deep_view(),
    {
        copy_coin_vec(&self.coins)
    }

    /// A copy of the collection.
    pub fn duplicate(&self) -> (r: Coins)
        ensures
            r.coins@ == self.coins@,
    {
        Coins { coins: copy_coin_vec(&self.coins) }
    }

    /// The amount held under the given denomination, or zero.
    pub fn amount_of(&self, denom: &str) -> (r: u128)
        requires
            self.wf(),
        ensures
            r == self.amt(denom@),
    {
        let ghost dv = self.coins.deep_view();
        let n = self.coins.len();
        let mut i: usize = 0;
        while i < n
            invariant
                0 <= i <= n,
                n == self.coins@.len(),
                self.wf(),
                dv == self.coins.deep_view(),
                forall|j: int| 0 <= j < i ==> (#[trigger] dv[j]).denom != denom@,
            decreases n - i,
        {
            if str_eq(self.coins[i].denom.as_str(), denom) {
                proof {
                    self.lemma_wf_unique();
                    lemma_coins_amt_unique(dv, denom@, i as int);
                }
                return self.coins[i].amount;
            }
            i += 1;
        }
        proof {
            lemma_coins_amt_absent(dv, denom@);
        }
        0
    }
}

proof fn lemma_coins_amt_decompose(s: Seq<CoinV>, k: int, d: Seq<char>)
    requires
        0 <= k < s.len(),
    ensures
        coins_amt(s, d) == coins_amt(s.subrange(0, k), d) + (if s[k].denom == d {
            s[k].amount as int
        } else {
            0
        }) + coins_amt(s.subrange(k + 1, s.len() as int), d),
{
    let pre = s.subrange(0, k);
    let post = s.subrange(k + 1, s.len() as int);
    assert(s =~= pre + (seq![s[k]] + post));
    lemma_coins_amt_append(pre, seq![s[k]] + post, d);
    lemma_coins_amt_append(seq![s[k]], post, d);
    assert(seq![s[k]].len() == 1);
    assert(seq![s[k]][0] == s[k]);
    assert(seq![s[k]].drop_first() =~= Seq::<CoinV>::empty());
    assert(coins_amt(Seq::<CoinV>::empty(), d) == 0);
    assert(coins_amt(seq![s[k]], d) == (if s[k].denom == d {
        s[k].amount as int
    } else {
        0
    }));
}

proof fn lemma_coins_amt_insert(s: Seq<CoinV>, k: int, c: CoinV, d: Seq<char>)
    requires
        0 <= k <= s.len(),
    ensures
        coins_amt(s.insert(k, c), d) == coins_amt(s, d) + (if c.denom == d {
            c.amount as int
        } else {
            0
        }),
{
    let t = s.insert(k, c);
    s.insert_ensures(k, c);
    lemma_coins_amt_decompose(t, k, d);
    assert(t.subrange(0, k) =~= s.subrange(0, k));
    assert(t.subrange(k + 1, t.len() as int) =~= s.subrange(k, s.len() as int));
    assert(s =~= s.subrange(0, k) + s.subrange(k, s.len() as int));
    lemma_coins_amt_append(s.subrange(0, k), s.subrange(k, s.len() as int), d);
}

proof fn lemma_coins_amt_update(s: Seq<CoinV>, k: int, c: CoinV, d: Seq<char>)
    requires
        0 <= k < s.len(),
    ensures
        coins_amt(s.update(k, c), d) == coins_amt(s, d) - (if s[k].denom == d {
            s[k].amount as int
        } else {
            0
        }) + (if c.denom == d {
            c.amount as int
        } else {
            0
        }),
{
    let t = s.update(k, c);
    lemma_coins_amt_decompose(t, k, d);
    lemma_coins_amt_decompose(s, k, d);
    assert(t.subrange(0, k) =~= s.subrange(0, k));
    assert(t.subrange(k + 1, t.len() as int) =~= s.subrange(k + 1, s.len() as int));
}

/// Finds the coin of a denomination.
fn find_denom(cs: &Vec<Coin>, denom: &str) -> (r: Option<usize>)
    ensures
        match r {
            Option::Some(k) => k < cs@.len() && (cs.deep_view()[k as int]).denom == denom@,
            Option::None => forall|i: int|
                0 <= i < cs@.len() ==> (#[trigger] cs.deep_view()[i]).denom != denom@,
        },
{
    let n = cs.len();
    let mut i: usize = 0;
    while i < n
        invariant
            0 <= i <= n,
            n == cs@.len(),
            forall|j: int| 0 <= j < i ==> (#[trigger] cs.deep_view()[j]).denom != denom@,
        decreases n - i,
    {
        if str_eq(cs[i].denom.as_str(), denom) {
            proof {
                assert(cs.deep_view()[i as int].denom == denom@);
            }
            return Some(i);
        }
        i += 1;
    }
    None
}

impl Coins {
    /// Inserts a coin of a denomination not yet held, keeping the order.
    fn insert_fresh(&mut self, c: Coin)
        requires
            old(self).wf(),
            c.amount > 0,
            forall|i: int|
                0 <= i < old(self).coins@.len() ==> (#[trigger] old(self).coins.deep_view()[
                i]).denom != c.denom@,
        ensures
            final(self).wf(),
            final(self).coins@.len() == old(self).coins@.len() + 1,
            forall|d: Seq<char>| #[trigger] final(self).amt(d) == old(self).amt(d) + (if d
                == c.denom@ {
                c.amount as int
            } else {
                0
            }),
    {
        let ghost oldv = self.coins.deep_view();
        let ghost cv = c.deep_view();
        let n = self.coins.len();
        let mut pos: usize = 0;
        loop
            invariant
                0 <= pos <= n,
                n == self.coins@.len(),
                *self == *old(self),
                cv == c.deep_view(),
                forall|j: int| 0 <= j < pos ==> lex_lt(
                    (#[trigger] self.coins.deep_view()[j]).denom,
                    cv.denom,
                ),
            ensures
                0 <= pos <= n,
                *self == *old(self),
                forall|j: int| 0 <= j < pos ==> lex_lt(
                    (#[trigger] self.coins.deep_view()[j]).denom,
                    cv.denom,
                ),
                pos < n ==> !lex_lt(self.coins.deep_view()[pos as int].denom, cv.denom),
            decreases n - pos,
        {
            if pos == n {
                break;
            }
            proof {
                assert(self.coins.deep_view()[pos as int] == self.coins@[pos as int].deep_view());
            }
            if !str_lt(self.coins[pos].denom.as_str(), c.denom.as_str()) {
                break;
            }
            pos += 1;
        }
        proof {
            assert forall|j: int| pos <= j < n implies lex_lt(
                cv.denom,
                (#[trigger] oldv[j]).denom,
            ) by {
                assert(oldv[pos as int].denom != cv.denom);
                lemma_lex_lt_connected(oldv[pos as int].denom, cv.denom);
                if j > pos {
                    assert(lex_lt(oldv[pos as int].denom, oldv[j].denom));
                    if lex_lt(oldv[j].denom, cv.denom) {
                        lemma_lex_lt_transitive(oldv[pos as int].denom, oldv[j].denom, cv.denom);
                        lemma_lex_lt_asymmetric(oldv[pos as int].denom, cv.denom);
                    }
                    assert(oldv[j].denom != cv.denom);
                    lemma_lex_lt_connected(oldv[j].denom, cv.denom);
                }
            }
        }
        let ghost prevv = self.coins@;
        self.coins.insert(pos, c);
        proof {
            oldv.insert_ensures(pos as int, cv);
            prevv.insert_ensures(pos as int, c);
            assert forall|j: int| 0 <= j < self.coins@.len() implies self.coins.deep_view()[j]
                == oldv.insert(pos as int, cv)[j] by {
                if j < pos {
                    assert(self.coins@[j] == prevv[j]);
                } else if j == pos {
                    assert(self.coins@[j] == c);
                } else {
                    assert(self.coins@[j] == prevv[j - 1]);
                    assert(oldv.insert(pos as int, cv)[j] == oldv[j - 1]);
                }
            }
            assert(self.coins.deep_view() =~= oldv.insert(pos as int, cv));
            let newv = self.coins.deep_view();
            assert forall|x: int, y: int| 0 <= x < y < newv.len() implies lex_lt(
                newv[x].denom,
                newv[y].denom,
            ) by {
                if y < pos {
                    assert(newv[x] == oldv[x] && newv[y] == oldv[y]);
                } else if x < pos && y == pos {
                    assert(newv[x] == oldv[x]);
                } else if x < pos && y > pos {
                    assert(newv[x] == oldv[x] && newv[y] == oldv[y - 1]);
                    if pos <= y - 1 < n {
                        lemma_lex_lt_transitive(oldv[x].denom, cv.denom, oldv[y - 1].denom);
                    }
                } else if x == pos {
                    assert(newv[y] == oldv[y - 1]);
                } else {
                    assert(newv[x] == oldv[x - 1] && newv[y] == oldv[y - 1]);
                }
            }
            assert forall|d: Seq<char>| #[trigger] coins_amt(newv, d) == coins_amt(oldv, d) + (if d
                == cv.denom {
                cv.amount as int
            } else {
                0
            }) by {
                lemma_coins_amt_insert(oldv, pos as int, cv, d);
            }
        }
    }

    /// Adds the given coin. A zero amount changes nothing; adding past the
    /// word's width is an error, and leaves the collection as it was.
    pub fn add(&mut self, coin: Coin) -> (r: Result<(), Error>)
        requires
            old(self).wf(),
        ensures
            final(self).wf(),
            r is Ok <==> old(self).amt(coin.denom@) + coin.amount <= u128::MAX,
            r is Ok ==> forall|d: Seq<char>| #[trigger] final(self).amt(d) == old(self).amt(d) + (
            if d == coin.denom@ {
                coin.amount as int
            } else {
                0
            }),
            r is Err ==> *final(self) == *old(self) && (r matches Err(e) && e is Std),
    {
        let ghost oldv = self.coins.deep_view();
        if coin.amount == 0 {
            proof {
                self.lemma_wf_amt_bounded(coin.denom@);
                assert(forall|d: Seq<char>| #[trigger] self.amt(d) == self.amt(d) + 0);
            }
            return Ok(());
        }
        match find_denom(&self.coins, coin.denom.as_str()) {
            Some(k) => {
                proof {
                    self.lemma_wf_unique();
                    lemma_coins_amt_unique(oldv, coin.denom@, k as int);
                }
                match self.coins[k].amount.checked_add(coin.amount) {
                    Some(sum) => {
                        let updated = Coin { denom: coin.denom, amount: sum };
                        let ghost uv = updated.deep_view();
                        let ghost prevv = self.coins@;
                        self.coins[k] = updated;
                        proof {
                            assert(uv.denom == oldv[k as int].denom);
                            assert(self.coins@ =~= prevv.update(k as int, updated));
                            assert forall|j: int|
                                0 <= j < self.coins@.len() implies self.coins.deep_view()[j]
                                == oldv.update(k as int, uv)[j] by {
                                if j != k {
                                    assert(self.coins@[j] == prevv[j]);
                                }
                            }
                            assert(self.coins.deep_view() =~= oldv.update(k as int, uv));
                            assert forall|d: Seq<char>| #[trigger] coins_amt(
                                self.coins.deep_view(),
                                d,
                            ) == coins_amt(oldv, d) + (if d == coin.denom@ {
                                coin.amount as int
                            } else {
                                0
                            }) by {
                                lemma_coins_amt_update(oldv, k as int, uv, d);
                            }
                            assert forall|x: int, y: int|
                                0 <= x < y < self.coins@.len() implies lex_lt(
                                (#[trigger] self.coins.deep_view()[x]).denom,
                                (#[trigger] self.coins.deep_view()[y]).denom,
                            ) by {
                                assert(oldv.update(k as int, uv)[x] == (if x == k {
                                    uv
                                } else {
                                    oldv[x]
                                }));
                                assert(oldv.update(k as int, uv)[y] == (if y == k {
                                    uv
                                } else {
                                    oldv[y]
                                }));
                            }
                        }
                        Ok(())
                    },
                    None => Err(Error::Std { msg: String::from_str("overflow") }),
                }
            },
            None => {
                proof {
                    lemma_coins_amt_absent(oldv, coin.denom@);
                }
                self.insert_fresh(coin);
                Ok(())
            },
        }
    }

    /// Subtracts the given coin. Subtracting more than is held is an error,
    /// and leaves the collection as it was; a denomination drained to zero
    /// leaves the collection.
    pub fn sub(&mut self, coin: Coin) -> (r: Result<(), Error>)
        requires
            old(self).wf(),
        ensures
            final(self).wf(),
            r is Ok <==> coin.amount <= old(self).amt(coin.denom@),
            r is Ok ==> forall|d: Seq<char>| #[trigger] final(self).amt(d) == old(self).amt(d) - (
            if d == coin.denom@ {
                coin.amount as int
            } else {
                0
            }),
            r is Err ==> *final(self) == *old(self) && (r matches Err(e) && e is Std),
    {
        let ghost oldv = self.coins.deep_view();
        match find_denom(&self.coins, coin.denom.as_str()) {
            Some(k) => {
                proof {
                    self.lemma_wf_unique();
                    lemma_coins_amt_unique(oldv, coin.denom@, k as int);
                }
                match self.coins[k].amount.checked_sub(coin.amount) {
                    Some(rest) => {
                        if rest == 0 {
                            let ghost prevv = self.coins@;
                            self.coins.remove(k);
                            proof {
                                assert(self.coins@ =~= prevv.remove(k as int));
                                prevv.remove_ensures(k as int);
                                oldv.remove_ensures(k as int);
                                assert forall|j: int|
                                    0 <= j < self.coins@.len() implies self.coins.deep_view()[j]
                                    == oldv.remove(k as int)[j] by {
                                    if j < k {
                                        assert(self.coins@[j] == prevv[j]);
                                        assert(oldv.remove(k as int)[j] == oldv[j]);
                                    } else {
                                        assert(self.coins@[j] == prevv[j + 1]);
                                        assert(oldv.remove(k as int)[j] == oldv[j + 1]);
                                    }
                                }
                                assert(self.coins.deep_view() =~= oldv.remove(k as int));
                                let newv = self.coins.deep_view();
                                assert(newv =~= oldv.subrange(0, k as int) + oldv.subrange(
                                    k as int + 1,
                                    oldv.len() as int,
                                ));
                                assert forall|d: Seq<char>| #[trigger] coins_amt(newv, d)
                                    == coins_amt(oldv, d) - (if d == coin.denom@ {
                                    coin.amount as int
                                } else {
                                    0
                                }) by {
                                    lemma_coins_amt_decompose(oldv, k as int, d);
                                    lemma_coins_amt_append(
                                        oldv.subrange(0, k as int),
                                        oldv.subrange(k as int + 1, oldv.len() as int),
                                        d,
                                    );
                                }
                                assert forall|x: int, y: int|
                                    0 <= x < y < newv.len() implies lex_lt(
                                    (#[trigger] newv[x]).denom,
                                    (#[trigger] newv[y]).denom,
                                ) by {
                                    if x < k && y >= k {
                                        assert(newv[x] == oldv[x] && newv[y] == oldv[y + 1]);
                                    } else if x >= k {
                                        assert(newv[x] == oldv[x + 1] && newv[y] == oldv[y + 1]);
                                    } else {
                                        assert(newv[x] == oldv[x] && newv[y] == oldv[y]);
                                    }
                                }
                            }
                            Ok(())
                        } else {
                            let updated = Coin { denom: coin.denom, amount: rest };
                            let ghost uv = updated.deep_view();
                            let ghost prevv = self.coins@;
                            self.coins[k] = updated;
                            proof {
                                assert(uv.denom == oldv[k as int].denom);
                                assert(self.coins@ =~= prevv.update(k as int, updated));
                                assert forall|j: int|
                                    0 <= j < self.coins@.len() implies self.coins.deep_view()[j]
                                    == oldv.update(k as int, uv)[j] by {
                                    if j != k {
                                        assert(self.coins@[j] == prevv[j]);
                                    }
                                }
                                assert(self.coins.deep_view() =~= oldv.update(k as int, uv));
                                assert forall|d: Seq<char>| #[trigger] coins_amt(
                                    self.coins.deep_view(),
                                    d,
                                ) == coins_amt(oldv, d) - (if d == coin.denom@ {
                                    coin.amount as int
                                } else {
                                    0
                                }) by {
                                    lemma_coins_amt_update(oldv, k as int, uv, d);
                                }
                                assert forall|x: int, y: int|
                                    0 <= x < y < self.coins@.len() implies lex_lt(
                                    (#[trigger] self.coins.deep_view()[x]).denom,
                                    (#[trigger] self.coins.deep_view()[y]).denom,
                                ) by {
                                    assert(oldv.update(k as int, uv)[x] == (if x == k {
                                        uv
                                    } else {
                                        oldv[x]
                                    }));
                                    assert(oldv.update(k as int, uv)[y] == (if y == k {
                                        uv
                                    } else {
                                        oldv[y]
                                    }));
                                }
                            }
                            Ok(())
                        }
                    },
                    None => Err(Error::Std { msg: String::from_str("underflow") }),
                }
            },
            None => {
                proof {
                    lemma_coins_amt_absent(oldv, coin.denom@);
                }
                if coin.amount == 0 {
                    proof {
                        assert(forall|d: Seq<char>| #[trigger] self.amt(d) == self.amt(d) - 0);
                    }
                    Ok(())
                } else {
                    Err(Error::Std { msg: String::from_str("underflow") })
                }
            },
        }
    }

    /// Builds a collection out of a plain coin list. Zero amounts are
    /// passed over; two nonzero coins of one denomination are an error.
    pub fn try_from_vec(v: &Vec<Coin>) -> (r: Result<Coins, Error>)
        ensures
            r is Err <==> has_dup_nonzero(v.deep_view()),
            r matches Ok(c) ==> c.wf() && forall|d: Seq<char>| #[trigger] c.amt(d) == coins_amt(
                v.deep_view(),
                d,
            ),
            r matches Err(e) ==> e is Std,
    {
        let ghost vv = v.deep_view();
        let mut out = Coins::new();
        let n = v.len();
        let mut i: usize = 0;
        while i < n
            invariant
                0 <= i <= n,
                n == v@.len(),
                vv == v.deep_view(),
                out.wf(),
                forall|d: Seq<char>| #[trigger] out.amt(d) == coins_amt(vv.take(i as int), d),
                !has_dup_nonzero(vv.take(i as int)),
            decreases n - i,
        {
            let c = &v[i];
            let ghost cv = vv[i as int];
            proof {
                assert(cv == v@[i as int].deep_view());
                assert(vv.take(i as int + 1).drop_last() =~= vv.take(i as int));
                assert(vv.take(i as int + 1) =~= vv.take(i as int) + seq![cv]);
                lemma_coins_amt_append_single(vv.take(i as int), cv);
            }
            if c.amount > 0 {
                if out.amount_of(c.denom.as_str()) > 0 {
                    proof {
                        lemma_coins_amt_pos_witness(vv.take(i as int), c.denom@);
                        let j = choose|j: int|
                            0 <= j < i && (#[trigger] vv.take(i as int)[j]).denom == c.denom@
                                && vv.take(i as int)[j].amount > 0;
                        assert(vv[j].denom == cv.denom && vv[j].amount > 0 && cv.amount > 0);
                        assert(has_dup_nonzero(vv));
                    }
                    return Err(Error::Std { msg: String::from_str("duplicate denom") });
                }
                proof {
                    assert forall|j: int|
                        0 <= j < out.coins@.len() implies (#[trigger] out.coins.deep_view()[
                    j]).denom != c.denom@ by {
                        if out.coins.deep_view()[j].denom == c.denom@ {
                            out.lemma_wf_unique();
                            lemma_coins_amt_unique(out.coins.deep_view(), c.denom@, j);
                            assert(false);
                        }
                    }
                }
                let cc = Coin { denom: c.denom.clone(), amount: c.amount };
                proof {
                    assert(cc.deep_view() == cv);
                }
                out.insert_fresh(cc);
                proof {
                    // a new nonzero pair would need an earlier nonzero coin
                    // of this denomination, which the probe ruled out
                    if has_dup_nonzero(vv.take(i as int + 1)) {
                        let (x, y) = choose|x: int, y: int|
                            0 <= x < y < i + 1 && (#[trigger] vv.take(i as int + 1)[x]).amount > 0
                                && (#[trigger] vv.take(i as int + 1)[y]).amount > 0 && vv.take(
                                i as int + 1,
                            )[x].denom == vv.take(i as int + 1)[y].denom;
                        if y < i {
                            assert(vv.take(i as int)[x].amount > 0 && vv.take(i as int)[y].amount
                                > 0 && vv.take(i as int)[x].denom == vv.take(i as int)[y].denom);
                        } else {
                            lemma_coins_amt_lower(vv.take(i as int), x);
                            lemma_coins_amt_nonneg(vv.take(i as int), vv[x].denom);
                        }
                        assert(false);
                    }
                }
            } else {
                proof {
                    if has_dup_nonzero(vv.take(i as int + 1)) {
                        let (x, y) = choose|x: int, y: int|
                            0 <= x < y < i + 1 && (#[trigger] vv.take(i as int + 1)[x]).amount > 0
                                && (#[trigger] vv.take(i as int + 1)[y]).amount > 0 && vv.take(
                                i as int + 1,
                            )[x].denom == vv.take(i as int + 1)[y].denom;
                        assert(y < i);
                        assert(vv.take(i as int)[x].amount > 0 && vv.take(i as int)[y].amount > 0
                            && vv.take(i as int)[x].denom == vv.take(i as int)[y].denom);
                        assert(false);
                    }
                }
            }
            i += 1;
        }
        proof {
            assert(vv.take(n as int) =~= vv);
        }
        Ok(out)
    }
}

/// Appending one coin raises the total under its denomination by its
/// amount and changes no other.
proof fn lemma_coins_amt_append_single(s: Seq<CoinV>, c: CoinV)
    ensures
        forall|d: Seq<char>| #[trigger] coins_amt(s + seq![c], d) == coins_amt(s, d) + (if c.denom
            == d {
            c.amount as int
        } else {
            0
        }),
{
    assert forall|d: Seq<char>| #[trigger] coins_amt(s + seq![c], d) == coins_amt(s, d) + (
    if c.denom == d {
        c.amount as int
    } else {
        0
    }) by {
        lemma_coins_amt_append(s, seq![c], d);
        assert(seq![c].len() == 1);
        assert(seq![c][0] == c);
        assert(seq![c].drop_first() =~= Seq::<CoinV>::empty());
        assert(coins_amt(Seq::<CoinV>::empty(), d) == 0);
        assert(coins_amt(seq![c], d) == (if c.denom == d {
            c.amount as int
        } else {
            0
        }));
    }
}

/// A positive total has a positive coin behind it.
proof fn lemma_coins_amt_pos_witness(s: Seq<CoinV>, d: Seq<char>)
    requires
        coins_amt(s, d) > 0,
    ensures
        exists|j: int| 0 <= j < s.len() && (#[trigger] s[j]).denom == d && s[j].amount > 0,
    decreases s.len(),
{
    if s.len() > 0 {
        if s[0].denom == d && s[0].amount > 0 {
        } else {
            lemma_coins_amt_pos_witness(s.drop_first(), d);
            let j = choose|j: int|
                0 <= j < s.drop_first().len() && (#[trigger] s.drop_first()[j]).denom == d
                    && s.drop_first()[j].amount > 0;
            assert(s[j + 1].denom == d && s[j + 1].amount > 0);
        }
    }
}

/// The total under a coin's denomination is at least that coin's amount.
proof fn lemma_coins_amt_lower(s: Seq<CoinV>, j: int)
    requires
        0 <= j < s.len(),
    ensures
        coins_amt(s, s[j].denom) >= s[j].amount,
{
    lemma_coins_amt_decompose(s, j, s[j].denom);
    lemma_coins_amt_nonneg(s.subrange(0, j), s[j].denom);
    lemma_coins_amt_nonneg(s.subrange(j + 1, s.len() as int), s[j].denom);
}

/// The mathematical form of a claim.
pub ghost struct ClaimV {
    pub owner: Seq<char>,
    pub bps: u32,
}

/// A claim on a pot of funds: the owner receives `bps` basis points of
/// every denomination.
#[derive(Debug, Clone, PartialEq, Eq)]
pub struct Claim {
    pub owner: Addr,
    pub bps: u32,
}

impl DeepView for Claim {
    type V = ClaimV;

    open spec fn deep_view(&self) -> ClaimV {
        ClaimV { owner: self.owner.text@, bps: self.bps }
    }
}

/// The share a claim takes of one denomination's total.
pub open spec fn share_of(famt: int, bps: u32) -> int {
    famt * bps / 10000
}

/// The combined share all claims take of one denomination's total.
pub open spec fn total_shares(cs: Seq<ClaimV>, famt: int) -> int
    decreases cs.len(),
{
    if cs.len() == 0 {
        0
    } else {
        share_of(famt, cs[0].bps) + total_shares(cs.drop_first(), famt)
    }
}

proof fn lemma_share_nonneg(famt: int, bps: u32)
    requires
        famt >= 0,
    ensures
        share_of(famt, bps) >= 0,
{
    assert(famt * bps >= 0) by (nonlinear_arith)
        requires
            famt >= 0,
            bps >= 0,
    ;
}

proof fn lemma_total_shares_nonneg(cs: Seq<ClaimV>, famt: int)
    requires
        famt >= 0,
    ensures
        total_shares(cs, famt) >= 0,
    decreases cs.len(),
{
    if cs.len() > 0 {
        lemma_share_nonneg(famt, cs[0].bps);
        lemma_total_shares_nonneg(cs.drop_first(), famt);
    }
}

proof fn lemma_total_shares_push(cs: Seq<ClaimV>, c: ClaimV, famt: int)
    ensures
        total_shares(cs.push(c), famt) == total_shares(cs, famt) + share_of(famt, c.bps),
    decreases cs.len(),
{
    if cs.len() == 0 {
        assert(cs.push(c).len() == 1);
        assert(cs.push(c)[0] == c);
        assert(cs.push(c).drop_first() =~= Seq::<ClaimV>::empty());
        assert(total_shares(Seq::<ClaimV>::empty(), famt) == 0);
        assert(total_shares(cs.push(c), famt) == share_of(famt, c.bps) + total_shares(
            Seq::<ClaimV>::empty(),
            famt,
        ));
    } else {
        assert(cs.push(c)[0] == cs[0]);
        assert(cs.push(c).drop_first() =~= cs.drop_first().push(c));
        lemma_total_shares_push(cs.drop_first(), c, famt);
        assert(total_shares(cs.push(c), famt) == share_of(famt, cs[0].bps) + total_shares(
            cs.drop_first().push(c),
            famt,
        ));
    }
}

/// The whole is the split at any point.
proof fn lemma_total_shares_split(cs: Seq<ClaimV>, i: int, famt: int)
    requires
        0 <= i <= cs.len(),
    ensures
        total_shares(cs, famt) == total_shares(cs.take(i), famt) + total_shares(
            cs.skip(i),
            famt,
        ),
    decreases i,
{
    if i == 0 {
        assert(cs.take(0) =~= Seq::<ClaimV>::empty());
        assert(cs.skip(0) =~= cs);
    } else {
        lemma_total_shares_split(cs, i - 1, famt);
        assert(cs.take(i) =~= cs.take(i - 1).push(cs[i - 1]));
        lemma_total_shares_push(cs.take(i - 1), cs[i - 1], famt);
        assert(cs.skip(i - 1)[0] == cs[i - 1]);
        assert(cs.skip(i - 1).drop_first() =~= cs.skip(i));
        assert(total_shares(cs.skip(i - 1), famt) == share_of(famt, cs[i - 1].bps) + total_shares(
            cs.skip(i),
            famt,
        ));
    }
}

impl Claim {
    /// This claim's share of every denomination: amounts scaled down to the
    /// claim's basis points, rounded down.
    pub fn split(&self, funds: &Coins) -> (r: Result<Coins, Error>)
        requires
            funds.wf(),
            forall|j: int|
                0 <= j < funds.coins@.len() ==> (#[trigger] funds.coins.deep_view()[j]).amount
                    * self.bps <= u128::MAX,
        ensures
            r is Ok,
            r matches Ok(c) ==> c.wf() && forall|d: Seq<char>| #[trigger] c.amt(d) == share_of(
                funds.amt(d),
                self.bps,
            ),
    {
        let ghost fdv = funds.coins.deep_view();
        let mut scaled: Vec<Coin> = Vec::new();
        let n = funds.coins.len();
        let mut i: usize = 0;
        while i < n
            invariant
                0 <= i <= n,
                n == funds.coins@.len(),
                fdv == funds.coins.deep_view(),
                funds.wf(),
                forall|j: int|
                    0 <= j < n ==> (#[trigger] fdv[j]).amount * self.bps <= u128::MAX,
                scaled@.len() == i,
                forall|j: int| 0 <= j < i ==> (#[trigger] scaled.deep_view()[j]).denom
                    == fdv[j].denom,
                forall|j: int| 0 <= j < i ==> (#[trigger] scaled.deep_view()[j]).amount
                    == share_of(fdv[j].amount as int, self.bps),
            decreases n - i,
        {
            let ghost prev = scaled;
            let c = &funds.coins[i];
            proof {
                assert(fdv[i as int] == funds.coins@[i as int].deep_view());
            }
            let amount = c.amount * (self.bps as u128) / 10000;
            scaled.push(Coin { denom: c.denom.clone(), amount });
            i += 1;
            proof {
                assert forall|j: int| 0 <= j < i implies (#[trigger] scaled.deep_view()[j]).denom
                    == fdv[j].denom && scaled.deep_view()[j].amount == share_of(
                    fdv[j].amount as int,
                    self.bps,
                ) by {
                    if j < i - 1 {
                        assert(scaled@[j] == prev@[j]);
                        assert(prev.deep_view()[j].denom == fdv[j].denom);
                        assert(prev.deep_view()[j].amount == share_of(
                            fdv[j].amount as int,
                            self.bps,
                        ));
                    }
                }
            }
        }
        let ghost sdv = scaled.deep_view();
        proof {
            // the scaled list inherits the distinct denominations
            funds.lemma_wf_unique();
            if has_dup_nonzero(sdv) {
                let (x, y) = choose|x: int, y: int|
                    0 <= x < y < sdv.len() && (#[trigger] sdv[x]).amount > 0 && (#[trigger] sdv[
                    y]).amount > 0 && sdv[x].denom == sdv[y].denom;
                assert(fdv[x].denom == fdv[y].denom);
                assert(false);
            }
        }
        match Coins::try_from_vec(&scaled) {
            Ok(c) => {
                proof {
                    assert forall|d: Seq<char>| #[trigger] c.amt(d) == share_of(
                        funds.amt(d),
                        self.bps,
                    ) by {
                        lemma_coins_amt_nonneg(fdv, d);
                        if coins_amt(fdv, d) > 0 {
                            lemma_coins_amt_pos_witness(fdv, d);
                            let k = choose|k: int|
                                0 <= k < fdv.len() && (#[trigger] fdv[k]).denom == d && fdv[
                                k].amount > 0;
                            funds.lemma_wf_unique();
                            lemma_coins_amt_unique(fdv, d, k);
                            assert(unique_denoms(sdv));
                            lemma_coins_amt_unique(sdv, d, k);
                        } else {
                            assert(forall|k: int|
                                0 <= k < fdv.len() ==> (#[trigger] fdv[k]).denom != d) by {
                                if exists|k: int| 0 <= k < fdv.len() && (#[trigger] fdv[k]).denom
                                    == d {
                                    let k = choose|k: int|
                                        0 <= k < fdv.len() && (#[trigger] fdv[k]).denom == d;
                                    lemma_coins_amt_lower(fdv, k);
                                }
                            }
                            assert(forall|k: int|
                                0 <= k < sdv.len() ==> (#[trigger] sdv[k]).denom != d);
                            lemma_coins_amt_absent(sdv, d);
                            assert(share_of(0, self.bps) == 0);
                        }
                    }
                }
                Ok(c)
            },
            Err(e) => Err(e),
        }
    }
}

/// A transfer order: pay the listed coins to the address.
#[derive(Debug, Clone, PartialEq, Eq)]
pub enum BankMsg {
    Send { to_address: String, amount: Vec<Coin> },
}

/// The address a transfer order pays.
pub open spec fn send_to(m: BankMsg) -> Seq<char> {
    match m {
        BankMsg::Send { to_address, amount } => to_address@,
    }
}

/// What a transfer order pays under one denomination.
pub open spec fn send_amt(m: BankMsg, d: Seq<char>) -> int {
    match m {
        BankMsg::Send { to_address, amount } => coins_amt(amount.deep_view(), d),
    }
}

/// A division of funds among claims.
#[derive(Debug, Clone, PartialEq, Eq)]
pub struct Split {
    pub claims: Vec<Claim>,
}

impl Split {
    /// Splits the funds across the claims: every claim takes its share of
    /// each denomination, rounded down, and the first claim also takes
    /// whatever rounding left over. One transfer order per claim comes
    /// back. Claims totalling more than the funds are an error.
    pub fn split(&self, funds: &Coins) -> (r: Result<Vec<BankMsg>, Error>)
        requires
            funds.wf(),
            self.claims@.len() == 0 ==> funds.coins@.len() == 0,
            forall|i: int, j: int|
                0 <= i < self.claims@.len() && 0 <= j < funds.coins@.len() ==> (
                #[trigger] funds.coins.deep_view()[j]).amount
                    * (#[trigger] self.claims.deep_view()[i]).bps <= u128::MAX,
        ensures
            r is Err <==> exists|d: Seq<char>| #[trigger] total_shares(
                self.claims.deep_view(),
                funds.amt(d),
            ) > funds.amt(d),
            r matches Err(e) ==> e is Std,
            r matches Ok(msgs) ==> {
                &&& msgs@.len() == self.claims@.len()
                &&& forall|i: int| 0 <= i < msgs@.len() ==> send_to(#[trigger] msgs@[i])
                    == self.claims.deep_view()[i].owner
                &&& forall|i: int, d: Seq<char>|
                    1 <= i < msgs@.len() ==> #[trigger] send_amt(msgs@[i], d) == share_of(
                        funds.amt(d),
                        self.claims.deep_view()[i].bps,
                    )
                &&& msgs@.len() > 0 ==> forall|d: Seq<char>| #[trigger] send_amt(msgs@[0], d)
                    == share_of(funds.amt(d), self.claims.deep_view()[0].bps) + (funds.amt(d)
                    - total_shares(self.claims.deep_view(), funds.amt(d)))
            },
    {
        let ghost cdv = self.claims.deep_view();
        let ghost fdv = funds.coins.deep_view();
        let nclaims = self.claims.len();
        if nclaims == 0 {
            proof {
                assert(fdv =~= Seq::<CoinV>::empty());
                assert forall|d: Seq<char>| !(#[trigger] total_shares(cdv, funds.amt(d))
                    > funds.amt(d)) by {
                    assert(coins_amt(fdv, d) == 0);
                }
            }
            return Ok(Vec::new());
        }
        // each claim's floor share of every denomination
        let mut shares: Vec<Coins> = Vec::new();
        let mut i: usize = 0;
        while i < nclaims
            invariant
                0 <= i <= nclaims,
                nclaims == self.claims@.len(),
                cdv == self.claims.deep_view(),
                fdv == funds.coins.deep_view(),
                funds.wf(),
                forall|x: int, j: int|
                    0 <= x < nclaims && 0 <= j < fdv.len() ==> (#[trigger] fdv[j]).amount
                        * (#[trigger] cdv[x]).bps <= u128::MAX,
                shares@.len() == i,
                forall|j: int| 0 <= j < i ==> (#[trigger] shares@[j]).wf(),
                forall|j: int, d: Seq<char>|
                    0 <= j < i ==> #[trigger] shares@[j].amt(d) == share_of(
                        funds.amt(d),
                        cdv[j].bps,
                    ),
            decreases nclaims - i,
        {
            let ghost prev = shares@;
            proof {
                assert(cdv[i as int] == self.claims@[i as int].deep_view());
                assert forall|j: int|
                    0 <= j < funds.coins@.len() implies (#[trigger] funds.coins.deep_view()[
                j]).amount * self.claims@[i as int].bps <= u128::MAX by {
                    assert(fdv[j].amount * cdv[i as int].bps <= u128::MAX);
                }
            }
            match self.claims[i].split(funds) {
                Ok(c) => {
                    shares.push(c);
                },
                Err(e) => {
                    proof {
                        assert(false);
                    }
                    return Err(e);
                },
            }
            i += 1;
            proof {
                assert forall|j: int, d: Seq<char>|
                    0 <= j < i implies #[trigger] shares@[j].amt(d) == share_of(
                    funds.amt(d),
                    cdv[j].bps,
                ) by {
                    if j < i - 1 {
                        assert(shares@[j] == prev[j]);
                    }
                }
            }
        }
        // the combined take per denomination
        let mut totals = Coins::new();
        let mut i2: usize = 0;
        while i2 < nclaims
            invariant
                0 <= i2 <= nclaims,
                nclaims == self.claims@.len(),
                cdv == self.claims.deep_view(),
                fdv == funds.coins.deep_view(),
                funds.wf(),
                shares@.len() == nclaims,
                forall|j: int| 0 <= j < nclaims ==> (#[trigger] shares@[j]).wf(),
                forall|j: int, d: Seq<char>|
                    0 <= j < nclaims ==> #[trigger] shares@[j].amt(d) == share_of(
                        funds.amt(d),
                        cdv[j].bps,
                    ),
                totals.wf(),
                forall|d: Seq<char>| #[trigger] totals.amt(d) == total_shares(
                    cdv.take(i2 as int),
                    funds.amt(d),
                ),
            decreases nclaims - i2,
        {
            let coins_i = shares[i2].to_vec();
            let ghost sv = coins_i.deep_view();
            let ncoins = coins_i.len();
            let mut k: usize = 0;
            while k < ncoins
                invariant
                    0 <= k <= ncoins,
                    ncoins == coins_i@.len(),
                    sv == coins_i.deep_view(),
                    0 <= i2 < nclaims,
                    nclaims == self.claims@.len(),
                    cdv == self.claims.deep_view(),
                    fdv == funds.coins.deep_view(),
                    funds.wf(),
                    shares@.len() == nclaims,
                    sv == shares@[i2 as int].coins.deep_view(),
                    shares@[i2 as int].wf(),
                    forall|d: Seq<char>| #[trigger] shares@[i2 as int].amt(d) == share_of(
                        funds.amt(d),
                        cdv[i2 as int].bps,
                    ),
                    totals.wf(),
                    forall|d: Seq<char>| #[trigger] totals.amt(d) == total_shares(
                        cdv.take(i2 as int),
                        funds.amt(d),
                    ) + coins_amt(sv.take(k as int), d),
                decreases ncoins - k,
            {
                let c = Coin { denom: coins_i[k].denom.clone(), amount: coins_i[k].amount };
                let ghost cv = sv[k as int];
                proof {
                    assert(c.deep_view() == cv);
                    assert(sv.take(k as int + 1) =~= sv.take(k as int) + seq![cv]);
                    lemma_coins_amt_append_single(sv.take(k as int), cv);
                }
                let ghost dd = cv.denom;
                match totals.add(c) {
                    Ok(_) => {},
                    Err(e) => {
                        proof {
                            // the running total of this denomination cannot
                            // fit the word, so the full take cannot fit the
                            // funds either
                            shares@[i2 as int].lemma_wf_unique();
                            lemma_coins_amt_unique(sv, dd, k as int);
                            assert(forall|j: int|
                                0 <= j < k ==> (#[trigger] sv.take(k as int)[j]).denom != dd);
                            lemma_coins_amt_absent(sv.take(k as int), dd);
                            assert(totals.amt(dd) == total_shares(
                                cdv.take(i2 as int),
                                funds.amt(dd),
                            ));
                            assert(cv.amount == shares@[i2 as int].amt(dd));
                            lemma_total_shares_split(cdv, i2 as int, funds.amt(dd));
                            assert(cdv.skip(i2 as int)[0] == cdv[i2 as int]);
                            assert(cdv.skip(i2 as int).drop_first() =~= cdv.skip(i2 as int + 1));
                            funds.lemma_wf_amt_bounded(dd);
                            lemma_coins_amt_nonneg(fdv, dd);
                            lemma_total_shares_nonneg(cdv.skip(i2 as int + 1), funds.amt(dd));
                            assert(total_shares(cdv, funds.amt(dd)) > u128::MAX >= funds.amt(dd));
                        }
                        return Err(e);
                    },
                }
                k += 1;
            }
            i2 += 1;
            proof {
                assert(sv.take(ncoins as int) =~= sv);
                assert(cdv.take(i2 as int) =~= cdv.take(i2 as int - 1).push(cdv[i2 as int - 1]));
                assert forall|d: Seq<char>| #[trigger] totals.amt(d) == total_shares(
                    cdv.take(i2 as int),
                    funds.amt(d),
                ) by {
                    lemma_total_shares_push(
                        cdv.take(i2 as int - 1),
                        cdv[i2 as int - 1],
                        funds.amt(d),
                    );
                    assert(coins_amt(sv, d) == shares@[i2 as int - 1].amt(d));
                }
            }
        }
        proof {
            assert(cdv.take(nclaims as int) =~= cdv);
        }
        // what the floor shares leave behind
        let mut remainders = funds.duplicate();
        let tv = totals.to_vec();
        let ghost tvv = tv.deep_view();
        let ntv = tv.len();
        let mut k2: usize = 0;
        while k2 < ntv
            invariant
                0 <= k2 <= ntv,
                ntv == tv@.len(),
                tvv == tv.deep_view(),
                tvv == totals.coins.deep_view(),
                cdv == self.claims.deep_view(),
                fdv == funds.coins.deep_view(),
                funds.wf(),
                totals.wf(),
                forall|d: Seq<char>| #[trigger] totals.amt(d) == total_shares(cdv, funds.amt(d)),
                remainders.wf(),
                forall|d: Seq<char>| #[trigger] remainders.amt(d) == funds.amt(d) - coins_amt(
                    tvv.take(k2 as int),
                    d,
                ),
                forall|j: int| 0 <= j < k2 ==> total_shares(
                    cdv,
                    funds.amt((#[trigger] tvv[j]).denom),
                ) <= funds.amt(tvv[j].denom),
            decreases ntv - k2,
        {
            let c = Coin { denom: tv[k2].denom.clone(), amount: tv[k2].amount };
            let ghost cv = tvv[k2 as int];
            let ghost dd = cv.denom;
            proof {
                assert(c.deep_view() == cv);
                assert(tvv.take(k2 as int + 1) =~= tvv.take(k2 as int) + seq![cv]);
                lemma_coins_amt_append_single(tvv.take(k2 as int), cv);
                totals.lemma_wf_unique();
                lemma_coins_amt_unique(tvv, dd, k2 as int);
                assert(forall|j: int|
                    0 <= j < k2 ==> (#[trigger] tvv.take(k2 as int)[j]).denom != dd);
                lemma_coins_amt_absent(tvv.take(k2 as int), dd);
                assert(remainders.amt(dd) == funds.amt(dd));
                assert(cv.amount == totals.amt(dd));
            }
            match remainders.sub(c) {
                Ok(_) => {},
                Err(e) => {
                    proof {
                        assert(total_shares(cdv, funds.amt(dd)) > funds.amt(dd));
                    }
                    return Err(e);
                },
            }
            k2 += 1;
        }
        proof {
            assert(tvv.take(ntv as int) =~= tvv);
            assert forall|d: Seq<char>| #[trigger] remainders.amt(d) == funds.amt(d)
                - total_shares(cdv, funds.amt(d)) by {
                assert(coins_amt(tvv.take(ntv as int), d) == coins_amt(tvv, d));
                assert(totals.amt(d) == coins_amt(tvv, d));
                assert(totals.amt(d) == total_shares(cdv, funds.amt(d)));
            }
            // every denomination's take fits the funds
            assert forall|d: Seq<char>| !(#[trigger] total_shares(cdv, funds.amt(d)) > funds.amt(
                d,
            )) by {
                lemma_coins_amt_nonneg(fdv, d);
                lemma_coins_amt_nonneg(tvv, d);
                if coins_amt(tvv, d) > 0 {
                    lemma_coins_amt_pos_witness(tvv, d);
                    let j = choose|j: int|
                        0 <= j < tvv.len() && (#[trigger] tvv[j]).denom == d && tvv[j].amount > 0;
                } else {
                    assert(totals.amt(d) == coins_amt(tvv, d));
                }
            }
        }
        // the first claim also takes what rounding left behind
        let ghost sharesfull = shares@;
        let mut first = shares.remove(0);
        proof {
            assert(first == sharesfull[0]);
            assert(shares@ =~= sharesfull.remove(0));
            sharesfull.remove_ensures(0);
            assert forall|j: int, d: Seq<char>|
                0 <= j < nclaims - 1 implies #[trigger] shares@[j].amt(d) == share_of(
                funds.amt(d),
                cdv[j + 1].bps,
            ) by {
                assert(shares@[j] == sharesfull[j + 1]);
            }
        }
        let rv = remainders.to_vec();
        let ghost rvv = rv.deep_view();
        let nrv = rv.len();
        proof {
            assert(rvv.take(0) =~= Seq::<CoinV>::empty());
            assert forall|d: Seq<char>| #[trigger] first.amt(d) == share_of(
                funds.amt(d),
                cdv[0].bps,
            ) + coins_amt(rvv.take(0), d) by {
                assert(coins_amt(rvv.take(0), d) == 0);
            }
        }
        let mut k3: usize = 0;
        while k3 < nrv
            invariant
                0 <= k3 <= nrv,
                nrv == rv@.len(),
                rvv == rv.deep_view(),
                rvv == remainders.coins.deep_view(),
                cdv == self.claims.deep_view(),
                fdv == funds.coins.deep_view(),
                funds.wf(),
                nclaims == self.claims@.len(),
                nclaims > 0,
                remainders.wf(),
                forall|d: Seq<char>| #[trigger] remainders.amt(d) == funds.amt(d) - total_shares(
                    cdv,
                    funds.amt(d),
                ),
                forall|d: Seq<char>| !(#[trigger] total_shares(cdv, funds.amt(d)) > funds.amt(d)),
                first.wf(),
                forall|d: Seq<char>| #[trigger] first.amt(d) == share_of(
                    funds.amt(d),
                    cdv[0].bps,
                ) + coins_amt(rvv.take(k3 as int), d),
            decreases nrv - k3,
        {
            let c = Coin { denom: rv[k3].denom.clone(), amount: rv[k3].amount };
            let ghost cv = rvv[k3 as int];
            let ghost dd = cv.denom;
            proof {
                assert(c.deep_view() == cv);
                assert(rvv.take(k3 as int + 1) =~= rvv.take(k3 as int) + seq![cv]);
                lemma_coins_amt_append_single(rvv.take(k3 as int), cv);
                remainders.lemma_wf_unique();
                lemma_coins_amt_unique(rvv, dd, k3 as int);
                assert(forall|j: int|
                    0 <= j < k3 ==> (#[trigger] rvv.take(k3 as int)[j]).denom != dd);
                lemma_coins_amt_absent(rvv.take(k3 as int), dd);
                assert(first.amt(dd) == share_of(funds.amt(dd), cdv[0].bps));
                assert(cv.amount == remainders.amt(dd));
                // the first share plus the leftover never exceeds the funds
                lemma_total_shares_split(cdv, 1, funds.amt(dd));
                assert(cdv.take(1) =~= Seq::<ClaimV>::empty().push(cdv[0]));
                lemma_total_shares_push(Seq::<ClaimV>::empty(), cdv[0], funds.amt(dd));
                lemma_coins_amt_nonneg(fdv, dd);
                lemma_total_shares_nonneg(cdv.skip(1), funds.amt(dd));
                funds.lemma_wf_amt_bounded(dd);
            }
            match first.add(c) {
                Ok(_) => {},
                Err(e) => {
                    proof {
                        assert(false);
                    }
                    return Err(e);
                },
            }
            k3 += 1;
        }
        proof {
            assert(rvv.take(nrv as int) =~= rvv);
        }
        // one transfer order per claim, the first one carrying the leftover
        let mut msgs: Vec<BankMsg> = Vec::new();
        let first_msg = BankMsg::Send {
            to_address: self.claims[0].owner.text.clone(),
            amount: first.to_vec(),
        };
        proof {
            assert(send_to(first_msg) == cdv[0].owner);
            assert(forall|d: Seq<char>| #[trigger] send_amt(first_msg, d) == first.amt(d));
        }
        msgs.push(first_msg);
        proof {
            assert forall|d: Seq<char>| #[trigger] send_amt(msgs@[0], d) == share_of(
                funds.amt(d),
                cdv[0].bps,
            ) + (funds.amt(d) - total_shares(cdv, funds.amt(d))) by {
                assert(msgs@[0] == first_msg);
                assert(send_amt(first_msg, d) == first.amt(d));
                assert(coins_amt(rvv.take(nrv as int), d) == coins_amt(rvv, d));
                assert(coins_amt(rvv, d) == remainders.amt(d));
            }
        }
        let mut i3: usize = 1;
        while i3 < nclaims
            invariant
                1 <= i3 <= nclaims,
                nclaims == self.claims@.len(),
                cdv == self.claims.deep_view(),
                fdv == funds.coins.deep_view(),
                funds.wf(),
                shares@.len() == nclaims - 1,
                forall|j: int, d: Seq<char>|
                    0 <= j < nclaims - 1 ==> #[trigger] shares@[j].amt(d) == share_of(
                        funds.amt(d),
                        cdv[j + 1].bps,
                    ),
                msgs@.len() == i3,
                forall|j: int| 0 <= j < i3 ==> send_to(#[trigger] msgs@[j]) == cdv[j].owner,
                forall|j: int, d: Seq<char>|
                    1 <= j < i3 ==> #[trigger] send_amt(msgs@[j], d) == share_of(
                        funds.amt(d),
                        cdv[j].bps,
                    ),
                forall|d: Seq<char>| #[trigger] send_amt(msgs@[0], d) == share_of(
                    funds.amt(d),
                    cdv[0].bps,
                ) + (funds.amt(d) - total_shares(cdv, funds.amt(d))),
            decreases nclaims - i3,
        {
            let ghost prevm = msgs@;
            let m = BankMsg::Send {
                to_address: self.claims[i3].owner.text.clone(),
                amount: shares[i3 - 1].to_vec(),
            };
            proof {
                assert(send_to(m) == cdv[i3 as int].owner);
                assert(forall|d: Seq<char>| #[trigger] send_amt(m, d) == shares@[i3 as int
                    - 1].amt(d));
            }
            msgs.push(m);
            i3 += 1;
            proof {
                assert(forall|j: int| 0 <= j < i3 - 1 ==> msgs@[j] == prevm[j]);
            }
        }
        Ok(msgs)
    }
}

/// An incoming message: its sender and the funds attached to it.
#[derive(Debug, Clone, PartialEq, Eq)]
pub struct MessageInfo {
    pub sender: Addr,
    pub funds: Vec<Coin>,
}

/// Checks on the funds attached to a message.
pub trait MessageFunds {
    fn require_coin(&self, coin: &Coin) -> Result<(), Error>;

    fn require_coins(&self, funds: &Coins) -> Result<(), Error>
        requires
            funds.wf(),
    ;

    fn defund(&self) -> Result<(), Error>;
}

impl MessageFunds for MessageInfo {
    /// Demands that the message carries at least the expected coin: an
    /// empty or short pot is `InsufficientFunds`, a duplicated
    /// denomination in the pot is the collection's own error.
    fn require_coin(&self, expected: &Coin) -> (r: Result<(), Error>)
        ensures
            self.funds@.len() == 0 ==> r == Err::<(), Error>(Error::InsufficientFunds {  }),
            self.funds@.len() > 0 && has_dup_nonzero(self.funds.deep_view()) ==> (r matches Err(e)
                && e is Std),
            self.funds@.len() > 0 && !has_dup_nonzero(self.funds.deep_view()) ==> (r == (
            if coins_amt(self.funds.deep_view(), expected.denom@) < expected.amount {
                Err::<(), Error>(Error::InsufficientFunds {  })
            } else {
                Ok::<(), Error>(())
            })),
    {
        if self.funds.len() == 0 {
            return Err(Error::InsufficientFunds {  });
        }
        let funds = match Coins::try_from_vec(&self.funds) {
            Ok(c) => c,
            Err(e) => {
                return Err(e);
            },
        };
        if funds.amount_of(expected.denom.as_str()) < expected.amount {
            return Err(Error::InsufficientFunds {  });
        }
        Ok(())
    }

    /// Demands that the message carries at least each expected coin.
    fn require_coins(&self, expected: &Coins) -> (r: Result<(), Error>)
        ensures
            self.funds@.len() < expected.coins@.len() ==> r == Err::<(), Error>(
                Error::InsufficientFunds {  },
            ),
            self.funds@.len() >= expected.coins@.len() && has_dup_nonzero(self.funds.deep_view())
                ==> (r matches Err(e) && e is Std),
            self.funds@.len() >= expected.coins@.len() && !has_dup_nonzero(self.funds.deep_view())
                ==> (r == (if exists|j: int|
                0 <= j < expected.coins@.len() && coins_amt(
                    self.funds.deep_view(),
                    (#[trigger] expected.coins.deep_view()[j]).denom,
                ) < expected.coins.deep_view()[j].amount {
                Err::<(), Error>(Error::InsufficientFunds {  })
            } else {
                Ok::<(), Error>(())
            })),
    {
        if self.funds.len() < expected.coins.len() {
            return Err(Error::InsufficientFunds {  });
        }
        let funds = match Coins::try_from_vec(&self.funds) {
            Ok(c) => c,
            Err(e) => {
                return Err(e);
            },
        };
        let ghost edv = expected.coins.deep_view();
        let n = expected.coins.len();
        let mut k: usize = 0;
        while k < n
            invariant
                0 <= k <= n,
                n == expected.coins@.len(),
                edv == expected.coins.deep_view(),
                self.funds@.len() >= n,
                !has_dup_nonzero(self.funds.deep_view()),
                funds.wf(),
                forall|d: Seq<char>| #[trigger] funds.amt(d) == coins_amt(
                    self.funds.deep_view(),
                    d,
                ),
                forall|j: int| 0 <= j < k ==> coins_amt(
                    self.funds.deep_view(),
                    (#[trigger] edv[j]).denom,
                ) >= edv[j].amount,
            decreases n - k,
        {
            let c = &expected.coins[k];
            proof {
                assert(edv[k as int] == expected.coins@[k as int].deep_view());
            }
            if funds.amount_of(c.denom.as_str()) < c.amount {
                proof {
                    assert(coins_amt(self.funds.deep_view(), edv[k as int].denom) < edv[
                    k as int].amount);
                }
                return Err(Error::InsufficientFunds {  });
            }
            k += 1;
        }
        Ok(())
    }

    /// Demands that the message carries funds at all.
    fn defund(&self) -> (r: Result<(), Error>)
        ensures
            self.funds@.len() == 0 ==> r == Err::<(), Error>(Error::FundsNotRequired {  }),
            self.funds@.len() > 0 ==> r == Ok::<(), Error>(()),
    {
        if self.funds.len() == 0 {
            return Err(Error::FundsNotRequired {  });
        }
        Ok(())
    }
}

/// The message form of a claim: the owner as plain text, to be validated by
/// the front end's address backend before use.
#[derive(Debug, Clone, PartialEq, Eq)]
pub struct ClaimMsg {
    pub owner: String,
    pub bps: u32,
}

impl ClaimMsg {
    /// The claim this message describes, given its validated owner address.
    pub fn into_claim(&self, owner: Addr) -> (c: Claim)
        ensures
            c.owner == owner,
            c.bps == self.bps,
    {
        Claim { owner, bps: self.bps }
    }
}

/// The message form of a division of funds.
#[derive(Debug, Clone, PartialEq, Eq)]
pub struct SplitMsg {
    pub claims: Vec<ClaimMsg>,
}

impl SplitMsg {
    /// The division this message describes, given the validated owner
    /// address of each claim, in order.
    pub fn into_split(&self, owners: Vec<Addr>) -> (s: Split)
        requires
            owners@.len() == self.claims@.len(),
        ensures
            s.claims@.len() == self.claims@.len(),
            forall|i: int|
                0 <= i < s.claims@.len() ==> (#[trigger] s.claims.deep_view()[i]) == (ClaimV {
                    owner: owners@[i].text@,
                    bps: self.claims@[i].bps,
                }),
    {
        let mut claims: Vec<Claim> = Vec::new();
        let n = self.claims.len();
        let mut i: usize = 0;
        let mut owners = owners;
        proof {
            assert(owners@.skip(0) =~= owners@);
        }
        let ghost owners0 = owners@;
        while i < n
            invariant
                0 <= i <= n,
                n == self.claims@.len(),
                owners0.len() == n,
                owners@ =~= owners0.skip(i as int),
                claims@.len() == i,
                forall|j: int|
                    0 <= j < i ==> (#[trigger] claims.deep_view()[j]) == (ClaimV {
                        owner: owners0[j].text@,
                        bps: self.claims@[j].bps,
                    }),
            decreases n - i,
        {
            let ghost prev = claims;
            let owner = owners.remove(0);
            proof {
                assert(owner == owners0[i as int]);
            }
            let c = self.claims[i].into_claim(owner);
            claims.push(c);
            i += 1;
            proof {
                assert forall|j: int| 0 <= j < i implies (#[trigger] claims.deep_view()[j]) == (
                ClaimV { owner: owners0[j].text@, bps: self.claims@[j].bps }) by {
                    if j < i - 1 {
                        assert(claims@[j] == prev@[j]);
                        assert(prev.deep_view()[j] == claims.deep_view()[j]);
                    } else {
                        assert(claims@[j] == c);
                    }
                }
                assert(owners@ =~= owners0.skip(i as int));
            }
        }
        Split { claims }
    }
}

/// Copies a coin list.
fn copy_coin_vec(cs: &Vec<Coin>) -> (r: Vec<Coin>)
    ensures
        r@ =~= cs@,
{
    let mut r: Vec<Coin> = Vec::new();
    let n = cs.len();
    let mut i: usize = 0;
    while i < n
        invariant
            0 <= i <= n,
            n == cs@.len(),
            r@ =~= cs@.take(i as int),
        decreases n - i,
    {
        let c = Coin { denom: cs[i].denom.clone(), amount: cs[i].amount };
        proof {
            assert(c == cs@[i as int]);
        }
        r.push(c);
        i += 1;
    }
    proof {
        assert(r@ =~= cs@);
    }
    r
}

} // verus!
