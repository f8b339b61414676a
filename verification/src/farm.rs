//! Message types of the amplified LP farm, and the order of the funds that
//! go along a bond.
use vstd::prelude::*;
use vstd::string::StrSliceExecFns;
use crate::hub::Coin;

verus! {

/// How the farm's share token is instantiated.
#[derive(Debug, PartialEq, Eq)]
pub struct TokenInit {
    /// Code id of the token.
    pub cw20_code_id: u64,
    pub name: String,
    pub symbol: String,
    pub decimals: u8,
}

/// The hooks of the LP token.
#[derive(Debug, PartialEq, Eq)]
pub enum Cw20HookMsg {
    /// Bond LP tokens.
    Bond { staker_addr: Option<String> },
    /// Unbond LP tokens.
    Unbond { receiver: Option<String> },
}

/// Whether `a` comes before `b` as strings are ordered: by their
/// characters' codes, a proper prefix first (the order of UTF-8 bytes).
pub open spec fn str_lt(a: Seq<char>, b: Seq<char>) -> bool
    decreases a.len(),
{
    if a.len() == 0 {
        b.len() > 0
    } else if b.len() == 0 {
        false
    } else if a[0] != b[0] {
        (a[0] as u32) < (b[0] as u32)
    } else {
        str_lt(a.drop_first(), b.drop_first())
    }
}

/// No string comes before itself, and of two strings at most one comes
/// first.
pub proof fn lemma_str_lt_asym(a: Seq<char>, b: Seq<char>)
    ensures
        !(str_lt(a, b) && str_lt(b, a)),
        !str_lt(a, a),
    decreases a.len(),
{
    if a.len() > 0 && b.len() > 0 {
        lemma_str_lt_asym(a.drop_first(), b.drop_first());
    }
    if a.len() > 0 {
        lemma_str_lt_asym(a.drop_first(), a.drop_first());
    }
}

/// The string order is transitive.
pub proof fn lemma_str_lt_trans(a: Seq<char>, b: Seq<char>, c: Seq<char>)
    requires
        str_lt(a, b),
        str_lt(b, c),
    ensures
        str_lt(a, c),
    decreases a.len(),
{
    if a.len() > 0 && a[0] == b[0] && b[0] == c[0] {
        lemma_str_lt_trans(a.drop_first(), b.drop_first(), c.drop_first());
    }
}

/// Whether `a` comes before `b` as strings are ordered.
pub fn str_less(a: &str, b: &str) -> (r: bool)
    ensures
        r == str_lt(a@, b@),
{
    let n = a.unicode_len();
    let m = b.unicode_len();
    let mut i: usize = 0;
    proof {
        assert(a@.skip(0) =~= a@);
        assert(b@.skip(0) =~= b@);
    }
    while i < n && i < m
        invariant
            n == a@.len(),
            m == b@.len(),
            i <= n,
            i <= m,
            str_lt(a@, b@) == str_lt(a@.skip(i as int), b@.skip(i as int)),
        decreases n - i,
    {
        let x = a.get_char(i);
        let y = b.get_char(i);
        proof {
            let sa = a@.skip(i as int);
            let sb = b@.skip(i as int);
            assert(sa[0] == x && sb[0] == y);
            assert(sa.drop_first() =~= a@.skip(i as int + 1));
            assert(sb.drop_first() =~= b@.skip(i as int + 1));
        }
        if x != y {
            return (x as u32) < (y as u32);
        }
        i = i + 1;
    }
    i == n && i < m
}

/// Funds as denominations and amounts.
pub open spec fn funds_view(s: Seq<Coin>) -> Seq<(Seq<char>, u128)> {
    s.map_values(|c: Coin| (c.denom@, c.amount))
}

/// Where `x` goes into funds ordered by denomination: after every coin
/// whose denomination does not come after that of `x`.
pub open spec fn denom_insert_pos(s: Seq<(Seq<char>, u128)>, x: (Seq<char>, u128)) -> int
    decreases s.len(),
{
    if s.len() == 0 {
        0
    } else if str_lt(x.0, s[0].0) {
        0
    } else {
        1 + denom_insert_pos(s.drop_first(), x)
    }
}

/// The funds sorted by denomination, coins of one denomination in the order
/// they came: a stable sort.
pub open spec fn sort_by_denom(s: Seq<(Seq<char>, u128)>) -> Seq<(Seq<char>, u128)>
    decreases s.len(),
{
    if s.len() == 0 {
        s
    } else {
        let p = sort_by_denom(s.drop_last());
        p.insert(denom_insert_pos(p, s.last()), s.last())
    }
}

proof fn lemma_denom_insert_pos(s: Seq<(Seq<char>, u128)>, x: (Seq<char>, u128))
    ensures
        0 <= denom_insert_pos(s, x) <= s.len(),
        forall|j: int| 0 <= j < denom_insert_pos(s, x) ==> !str_lt(x.0, (#[trigger] s[j]).0),
        denom_insert_pos(s, x) < s.len() ==> str_lt(x.0, s[denom_insert_pos(s, x)].0),
    decreases s.len(),
{
    if s.len() > 0 && !str_lt(x.0, s[0].0) {
        let d = s.drop_first();
        lemma_denom_insert_pos(d, x);
        assert forall|j: int| 0 <= j < denom_insert_pos(s, x) implies !str_lt(x.0, (#[trigger] s[j]).0) by {
            if j > 0 {
                assert(d[j - 1] == s[j]);
            }
        }
        if denom_insert_pos(s, x) < s.len() {
            assert(d[denom_insert_pos(d, x)] == s[denom_insert_pos(s, x)]);
        }
    }
}

/// The sorted funds are ordered by denomination and are a permutation of
/// the funds.
pub proof fn law_sort_by_denom(s: Seq<(Seq<char>, u128)>)
    ensures
        sort_by_denom(s).len() == s.len(),
        forall|i: int, j: int| 0 <= i < j < sort_by_denom(s).len() ==> !str_lt(sort_by_denom(s)[j].0, sort_by_denom(s)[i].0),
        sort_by_denom(s).to_multiset() == s.to_multiset(),
    decreases s.len(),
{
    if s.len() > 0 {
        let d = s.drop_last();
        law_sort_by_denom(d);
        let p = sort_by_denom(d);
        let x = s.last();
        lemma_denom_insert_pos(p, x);
        let q = denom_insert_pos(p, x);
        let t = p.insert(q, x);
        vstd::seq_lib::to_multiset_insert(p, q, x);
        d.to_multiset_ensures();
        assert(d.push(x) =~= s);
        assert forall|i: int, j: int| 0 <= i < j < t.len() implies !str_lt(t[j].0, t[i].0) by {
            if j < q {
                assert(t[i] == p[i] && t[j] == p[j]);
            } else if j == q {
                assert(t[i] == p[i] && t[j] == x);
            } else if i < q {
                assert(t[i] == p[i] && t[j] == p[j - 1]);
            } else if i == q {
                assert(t[i] == x && t[j] == p[j - 1]);
                assert(str_lt(x.0, p[q].0));
                if str_lt(p[j - 1].0, x.0) {
                    lemma_str_lt_trans(p[j - 1].0, x.0, p[q].0);
                    if j - 1 == q {
                        lemma_str_lt_asym(p[q].0, p[q].0);
                    }
                }
            } else {
                assert(t[i] == p[i - 1] && t[j] == p[j - 1]);
            }
        }
    }
}

/// Sorts the funds of a bond by denomination, as the chain expects coins,
/// keeping the order of coins of one denomination.
pub fn sort_funds(funds: Vec<Coin>) -> (r: Vec<Coin>)
    ensures
        funds_view(r@) == sort_by_denom(funds_view(funds@)),
        funds_view(r@).to_multiset() == funds_view(funds@).to_multiset(),
        forall|i: int, j: int| 0 <= i < j < r@.len() ==> !str_lt(r@[j].denom@, r@[i].denom@),
{
    let ghost all = funds_view(funds@);
    let n = funds.len();
    let mut rest = funds;
    let mut sorted: Vec<Coin> = Vec::new();
    let mut i: usize = 0;
    while i < n
        invariant
            n == all.len(),
            i <= n,
            rest@.len() == n - i,
            funds_view(rest@) == all.skip(i as int),
            funds_view(sorted@) == sort_by_denom(all.take(i as int)),
        decreases n - i,
    {
        let ghost r0 = rest@;
        let x = rest.remove(0);
        let mut p: usize = 0;
        let ghost sv = funds_view(sorted@);
        proof {
            assert(rest@ =~= r0.subrange(1, r0.len() as int));
            assert(funds_view(r0)[0] == all.skip(i as int)[0]);
            assert forall|k: int| 0 <= k < rest@.len() implies #[trigger] funds_view(rest@)[k] == all.skip(i as int + 1)[k] by {
                assert(rest@[k] == r0[k + 1]);
                assert(funds_view(r0)[k + 1] == all.skip(i as int)[k + 1]);
            }
            assert(funds_view(rest@) =~= all.skip(i as int + 1));
            assert((x.denom@, x.amount) == all[i as int]);
        }
        while p < sorted.len() && !str_less(x.denom.as_str(), sorted[p].denom.as_str())
            invariant
                p <= sorted@.len(),
                sv == funds_view(sorted@),
                forall|j: int| 0 <= j < p ==> !str_lt(x.denom@, (#[trigger] sv[j]).0),
            decreases sorted@.len() - p,
        {
            p = p + 1;
        }
        proof {
            lemma_denom_insert_pos_is(sv, (x.denom@, x.amount), p as int);
            let t = all.take(i as int + 1);
            assert(t.drop_last() =~= all.take(i as int));
            assert(t.last() == (x.denom@, x.amount));
        }
        sorted.insert(p, x);
        proof {
            assert(funds_view(sorted@) =~= sv.insert(p as int, all[i as int]));
        }
        i = i + 1;
    }
    proof {
        assert(all.take(i as int) =~= all);
        law_sort_by_denom(all);
        let sd = sort_by_denom(all);
        assert(funds_view(sorted@) == sd);
        assert forall|a: int, b: int| 0 <= a < b < sorted@.len() implies !str_lt(sorted@[b].denom@, sorted@[a].denom@) by {
            assert(funds_view(sorted@)[a] == (sorted@[a].denom@, sorted@[a].amount));
            assert(funds_view(sorted@)[b] == (sorted@[b].denom@, sorted@[b].amount));
            assert(sd[a] == funds_view(sorted@)[a] && sd[b] == funds_view(sorted@)[b]);
            assert(!str_lt(sd[b].0, sd[a].0));
        }
    }
    sorted
}

proof fn lemma_denom_insert_pos_is(s: Seq<(Seq<char>, u128)>, x: (Seq<char>, u128), p: int)
    requires
        0 <= p <= s.len(),
        forall|j: int| 0 <= j < p ==> !str_lt(x.0, (#[trigger] s[j]).0),
        p < s.len() ==> str_lt(x.0, s[p].0),
    ensures
        denom_insert_pos(s, x) == p,
    decreases s.len(),
{
    if s.len() > 0 && p > 0 {
        assert forall|j: int| 0 <= j < p - 1 implies !str_lt(x.0, (#[trigger] s.drop_first()[j]).0) by {
            assert(s.drop_first()[j] == s[j + 1]);
        }
        assert(!str_lt(x.0, s[0].0));
        lemma_denom_insert_pos_is(s.drop_first(), x, p - 1);
    }
}

} // verus!
