//! The naming service: deterministic, distinct identifiers for dynamic
//! nodes, minted as a fixed prefix followed by a growing decimal counter.

use vstd::prelude::*;

verus! {

/// The decimal digit character for a value below ten.
pub open spec fn dec_digit(d: int) -> char {
    if d == 0 {
        '0'
    } else if d == 1 {
        '1'
    } else if d == 2 {
        '2'
    } else if d == 3 {
        '3'
    } else if d == 4 {
        '4'
    } else if d == 5 {
        '5'
    } else if d == 6 {
        '6'
    } else if d == 7 {
        '7'
    } else if d == 8 {
        '8'
    } else {
        '9'
    }
}

/// The decimal spelling of a natural number, most significant digit first.
pub open spec fn dec_str(n: nat) -> Seq<char>
    decreases n,
{
    if n < 10 {
        seq![dec_digit(n as int)]
    } else {
        dec_str(n / 10) + seq![dec_digit((n % 10) as int)]
    }
}

proof fn lemma_dec_digit_injective(x: int, y: int)
    requires
        0 <= x < 10,
        0 <= y < 10,
        x != y,
    ensures
        dec_digit(x) != dec_digit(y),
{
}

proof fn lemma_dec_str_len(n: nat)
    ensures
        dec_str(n).len() >= 1,
        n < 10 <==> dec_str(n).len() == 1,
    decreases n,
{
    if n >= 10 {
        lemma_dec_str_len(n / 10);
    }
}

/// Different numbers have different decimal spellings.
pub proof fn lemma_dec_str_injective(a: nat, b: nat)
    requires
        a != b,
    ensures
        dec_str(a) != dec_str(b),
    decreases a + b,
{
    lemma_dec_str_len(a);
    lemma_dec_str_len(b);
    if dec_str(a) == dec_str(b) {
        if a < 10 && b < 10 {
            lemma_dec_digit_injective(a as int, b as int);
            assert(dec_str(a)[0] == dec_digit(a as int));
            assert(false);
        } else if a < 10 || b < 10 {
            assert(dec_str(a).len() != dec_str(b).len());
            assert(false);
        } else {
            assert(dec_str(a).last() == dec_digit((a % 10) as int));
            assert(dec_str(b).last() == dec_digit((b % 10) as int));
            if a % 10 != b % 10 {
                lemma_dec_digit_injective((a % 10) as int, (b % 10) as int);
                assert(false);
            }
            assert(a / 10 != b / 10);
            lemma_dec_str_injective(a / 10, b / 10);
            assert(dec_str(a).drop_last() =~= dec_str(a / 10));
            assert(dec_str(b).drop_last() =~= dec_str(b / 10));
            assert(false);
        }
    }
}

/// The name minted for the `n`-th dynamic node under the given prefix.
pub open spec fn spec_node_name(prefix: Seq<char>, n: nat) -> Seq<char> {
    prefix + dec_str(n)
}

/// Law: names minted under one prefix for different counter values are
/// distinct, so any run of sequential calls yields pairwise distinct names.
pub proof fn lemma_node_names_distinct(prefix: Seq<char>, i: nat, j: nat)
    requires
        i != j,
    ensures
        spec_node_name(prefix, i) != spec_node_name(prefix, j),
{
    lemma_dec_str_injective(i, j);
    if spec_node_name(prefix, i) == spec_node_name(prefix, j) {
        assert((prefix + dec_str(i)).skip(prefix.len() as int) =~= dec_str(i));
        assert((prefix + dec_str(j)).skip(prefix.len() as int) =~= dec_str(j));
        assert(false);
    }
}

fn digit_str(d: u64) -> (r: &'static str)
    requires
        d < 10,
    ensures
        r@ =~= seq![dec_digit(d as int)],
{
    proof {
        reveal_strlit("0");
        reveal_strlit("1");
        reveal_strlit("2");
        reveal_strlit("3");
        reveal_strlit("4");
        reveal_strlit("5");
        reveal_strlit("6");
        reveal_strlit("7");
        reveal_strlit("8");
        reveal_strlit("9");
    }
    if d == 0 {
        "0"
    } else if d == 1 {
        "1"
    } else if d == 2 {
        "2"
    } else if d == 3 {
        "3"
    } else if d == 4 {
        "4"
    } else if d == 5 {
        "5"
    } else if d == 6 {
        "6"
    } else if d == 7 {
        "7"
    } else if d == 8 {
        "8"
    } else {
        "9"
    }
}

fn dec_string(n: u64) -> (r: String)
    ensures
        r@ == dec_str(n as nat),
    decreases n,
{
    if n < 10 {
        digit_str(n).to_owned()
    } else {
        let mut s = dec_string(n / 10);
        s.append(digit_str(n % 10));
        s
    }
}

/// The per-compile-unit naming state: a prefix and a monotonic counter.
pub struct NodeNamer {
    pub prefix: String,
    pub count: u64,
}

impl NodeNamer {
    /// Mints the next identifier: the prefix followed by the counter's
    /// decimal value, and advances the counter by exactly one.
    pub fn next(&mut self) -> (r: String)
        requires
            old(self).count < u64::MAX,
        ensures
            final(self).prefix == old(self).prefix,
            final(self).count == old(self).count + 1,
            r@ == spec_node_name(old(self).prefix@, old(self).count as nat),
    {
        let mut name = self.prefix.clone();
        let digits = dec_string(self.count);
        name.append(digits.as_str());
        self.count = self.count + 1;
        name
    }
}

/// A fresh namer over the given prefix, so that the first minted name is the
/// prefix followed by `0`.
pub fn named_iter(str: String) -> (r: NodeNamer)
    ensures
        r.prefix == str,
        r.count == 0,
{
    NodeNamer { prefix: str, count: 0 }
}

} // verus!
