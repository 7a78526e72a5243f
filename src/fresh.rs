//! Fresh variable names `fvar{k}__` and their decimal rendering.
use vstd::prelude::*;

verus! {

pub open spec fn digit_char(d: nat) -> char {
    if d == 0 {
        '0'
    } else if d == 1 {
        '1'
    } else if d == 2 {
        '2'
    } else if d == 3 {
        '3'
    } else if d == 4 {
        '4'
    } else if d == 5 {
        '5'
    } else if d == 6 {
        '6'
    } else if d == 7 {
        '7'
    } else if d == 8 {
        '8'
    } else {
        '9'
    }
}

/// Decimal digits of `n`, most significant first.
pub open spec fn decimal(n: nat) -> Seq<char>
    decreases n,
{
    if n < 10 {
        seq![digit_char(n)]
    } else {
        decimal(n / 10).push(digit_char(n % 10))
    }
}

/// The `k`-th fresh variable name of a rule.
pub open spec fn fresh_name(k: nat) -> Seq<char> {
    "fvar"@ + decimal(k) + "__"@
}

fn digit_str(d: u64) -> (r: &'static str)
    requires
        d < 10,
    ensures
        r@ == seq![digit_char(d as nat)],
{
    proof {
        reveal_strlit("0");
        reveal_strlit("1");
        reveal_strlit("2");
        reveal_strlit("3");
        reveal_strlit("4");
        reveal_strlit("5");
        reveal_strlit("6");
        reveal_strlit("7");
        reveal_strlit("8");
        reveal_strlit("9");
    }
    if d == 0 {
        "0"
    } else if d == 1 {
        "1"
    } else if d == 2 {
        "2"
    } else if d == 3 {
        "3"
    } else if d == 4 {
        "4"
    } else if d == 5 {
        "5"
    } else if d == 6 {
        "6"
    } else if d == 7 {
        "7"
    } else if d == 8 {
        "8"
    } else {
        "9"
    }
}

/// Renders `n` in decimal.
pub fn decimal_string(n: u64) -> (r: String)
    ensures
        r@ == decimal(n as nat),
    decreases n,
{
    if n < 10 {
        String::from_str(digit_str(n))
    } else {
        let mut s = decimal_string(n / 10);
        s.append(digit_str(n % 10));
        s
    }
}

proof fn lemma_decimal_len(n: nat)
    ensures
        n < 10 ==> decimal(n).len() == 1,
        n >= 10 ==> decimal(n).len() >= 2,
    decreases n,
{
    if n >= 10 {
        lemma_decimal_len(n / 10);
    }
}

proof fn lemma_decimal_injective(a: nat, b: nat)
    requires
        decimal(a) == decimal(b),
    ensures
        a == b,
    decreases a,
{
    lemma_decimal_len(a);
    lemma_decimal_len(b);
    if a < 10 && b < 10 {
        assert(decimal(a)[0] == digit_char(a));
        assert(decimal(b)[0] == digit_char(b));
    } else if a >= 10 && b >= 10 {
        let da = decimal(a);
        assert(da.last() == digit_char(a % 10));
        assert(decimal(b).last() == digit_char(b % 10));
        assert(da.drop_last() =~= decimal(a / 10));
        assert(decimal(b).drop_last() =~= decimal(b / 10));
        lemma_decimal_injective(a / 10, b / 10);
    }
}

/// Distinct counters give distinct fresh names.
pub proof fn lemma_fresh_name_injective(a: nat, b: nat)
    ensures
        fresh_name(a) == fresh_name(b) ==> a == b,
{
    reveal_strlit("fvar");
    reveal_strlit("__");
    if fresh_name(a) == fresh_name(b) {
        let da = decimal(a);
        let db = decimal(b);
        assert(fresh_name(a).len() == 4 + da.len() + 2);
        assert(fresh_name(a).subrange(4, 4 + da.len() as int) =~= da);
        assert(fresh_name(b).subrange(4, 4 + db.len() as int) =~= db);
        lemma_decimal_injective(a, b);
    }
}

/// A per-rule generator of fresh names.
pub struct FreshGen {
    pub count: u64,
}

impl FreshGen {
    pub fn new() -> (r: FreshGen)
        ensures
            r.count == 0,
    {
        FreshGen { count: 0 }
    }

    /// Returns `fvar{k}__` for the next counter value `k`.
    pub fn next(&mut self) -> (r: String)
        requires
            old(self).count < u64::MAX,
        ensures
            final(self).count == old(self).count + 1,
            r@ == fresh_name(final(self).count as nat),
    {
        self.count = self.count + 1;
        let mut s = String::from_str("fvar");
        let d = decimal_string(self.count);
        s.append(d.as_str());
        s.append("__");
        s
    }
}

} // verus!
