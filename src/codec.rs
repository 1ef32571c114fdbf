use vstd::prelude::*;

use crate::error::StoreError;

verus! {

#[verifier::external_type_specification]
#[verifier::external_body]
pub struct ExJsonError(serde_json::Error);

/// Every byte is an ASCII digit.
pub open spec fn all_digits(s: Seq<u8>) -> bool {
    forall|i: int| 0 <= i < s.len() ==> 48 <= #[trigger] s[i] <= 57
}

/// The ASCII decimal digits of `n`, most significant first, without leading zeros.
pub open spec fn decimal(n: nat) -> Seq<u8>
    decreases n,
{
    if n < 10 {
        seq![(48 + n) as u8]
    } else {
        decimal(n / 10).push((48 + n % 10) as u8)
    }
}

/// The decimals of the bytes, separated by commas.
pub open spec fn decimal_list(s: Seq<u8>) -> Seq<u8>
    decreases s.len(),
{
    if s.len() == 0 {
        Seq::empty()
    } else if s.len() == 1 {
        decimal(s[0] as nat)
    } else {
        decimal_list(s.drop_last()) + seq![44u8] + decimal(s.last() as nat)
    }
}

/// The compact JSON text of the pair (height, node key bytes): `[h,[b0,b1,...]]`.
pub open spec fn branch_key_text(height: u8, node_key: Seq<u8>) -> Seq<u8> {
    seq![91u8] + decimal(height as nat) + seq![44u8, 91u8] + decimal_list(node_key) + seq![
        93u8,
        93u8,
    ]
}

/// Relies on `serde_json::to_vec`: a `u8` and a byte array serialise without fail, the
/// pair as a compact JSON array of the height and of the array's bytes, each integer in
/// decimal.
#[verifier::external_body]
fn json_of_branch_key(height: u8, node_key: &[u8; 32]) -> (r: Result<Vec<u8>, serde_json::Error>)
    ensures
        r is Ok,
        r matches Ok(v) ==> v@ == branch_key_text(height, node_key@),
{
    serde_json::to_vec(&(height, node_key))
}

/// Relies on the `Display` impl of `serde_json::Error` for a readable message; nothing is
/// assumed of its text.
#[verifier::external_body]
fn json_error_message(e: &serde_json::Error) -> (r: String) {
    e.to_string()
}

/// The storage key of a branch node: the JSON text of (height, node key).
pub fn encode_branch_key(height: u8, node_key: &[u8; 32]) -> (r: Result<Vec<u8>, StoreError>)
    ensures
        r is Ok,
        r matches Ok(v) ==> v@ == branch_key_text(height, node_key@),
{
    match json_of_branch_key(height, node_key) {
        Ok(v) => Ok(v),
        Err(e) => Err(StoreError::Codec(json_error_message(&e))),
    }
}

/// The storage key of a leaf: its 32 hash bytes, used as they are.
pub fn encode_leaf_key(leaf_key: &[u8; 32]) -> (r: Vec<u8>)
    ensures
        r@ == leaf_key@,
{
    let mut r: Vec<u8> = Vec::with_capacity(32);
    let mut i: usize = 0;
    while i < 32
        invariant
            i <= 32,
            leaf_key@.len() == 32,
            r@ == leaf_key@.subrange(0, i as int),
        decreases 32 - i,
    {
        r.push(leaf_key[i]);
        i = i + 1;
        assert(r@ =~= leaf_key@.subrange(0, i as int));
    }
    assert(r@ =~= leaf_key@);
    r
}

pub proof fn lemma_decimal_digits(n: nat)
    ensures
        all_digits(decimal(n)),
        decimal(n).len() >= 1,
        decimal(n).len() == 1 <==> n < 10,
    decreases n,
{
    if n >= 10 {
        lemma_decimal_digits(n / 10);
    }
}

pub proof fn lemma_decimal_injective(a: nat, b: nat)
    requires
        decimal(a) == decimal(b),
    ensures
        a == b,
    decreases a,
{
    lemma_decimal_digits(a);
    lemma_decimal_digits(b);
    if a >= 10 && b >= 10 {
        assert(decimal(a / 10) == decimal(a).drop_last());
        assert(decimal(b / 10) == decimal(b).drop_last());
        lemma_decimal_injective(a / 10, b / 10);
        assert(decimal(a).last() == (48 + a % 10) as u8);
        assert(decimal(b).last() == (48 + b % 10) as u8);
        assert(decimal(a).last() == decimal(b).last());
        assert((48 + a % 10) as u8 == 48 + a % 10);
        assert((48 + b % 10) as u8 == 48 + b % 10);
        assert(a % 10 == b % 10);
        assert(a == 10 * (a / 10) + a % 10);
        assert(b == 10 * (b / 10) + b % 10);
    } else if a < 10 && b < 10 {
        assert(decimal(a)[0] == (48 + a) as u8);
        assert(decimal(b)[0] == (48 + b) as u8);
        assert((48 + a) as u8 == 48 + a);
        assert((48 + b) as u8 == 48 + b);
        assert(decimal(a)[0] == decimal(b)[0]);
    }
}

proof fn lemma_decimal_list_shape(s: Seq<u8>)
    requires
        s.len() >= 1,
    ensures
        decimal_list(s).len() >= 2 * s.len() - 1,
        decimal_list(s).len() >= 1,
        48 <= decimal_list(s)[0] <= 57,
    decreases s.len(),
{
    lemma_decimal_digits(s[0] as nat);
    if s.len() > 1 {
        lemma_decimal_list_shape(s.drop_last());
        lemma_decimal_digits(s.last() as nat);
        assert(s.drop_last()[0] == s[0]);
    }
}

/// A comma followed by a nonempty run of digits at the end of equal texts splits them
/// at the same place.
proof fn lemma_split_last(a: Seq<u8>, b: Seq<u8>, x: Seq<u8>, y: Seq<u8>)
    requires
        all_digits(x),
        all_digits(y),
        x.len() >= 1,
        y.len() >= 1,
        a + seq![44u8] + x == b + seq![44u8] + y,
    ensures
        a == b,
        x == y,
{
    let l = a + seq![44u8] + x;
    let r = b + seq![44u8] + y;
    assert(l.len() == a.len() + 1 + x.len());
    assert(r.len() == b.len() + 1 + y.len());
    assert(l.len() == r.len());
    if x.len() < y.len() {
        let i = a.len() as int;
        assert(l[i] == 44u8);
        assert(r[i] == y[i - b.len() - 1]);
    } else if y.len() < x.len() {
        let i = b.len() as int;
        assert(r[i] == 44u8);
        assert(l[i] == x[i - a.len() - 1]);
    }
    assert(a.len() == b.len());
    assert(a =~= l.subrange(0, a.len() as int));
    assert(b =~= r.subrange(0, b.len() as int));
    assert(x =~= l.subrange(a.len() as int + 1, l.len() as int));
    assert(y =~= r.subrange(b.len() as int + 1, r.len() as int));
}

/// A nonempty run of digits followed by a comma at the start of equal texts splits them
/// at the same place.
proof fn lemma_split_first(x: Seq<u8>, y: Seq<u8>, a: Seq<u8>, b: Seq<u8>)
    requires
        all_digits(x),
        all_digits(y),
        x + seq![44u8] + a == y + seq![44u8] + b,
    ensures
        x == y,
        a == b,
{
    let l = x + seq![44u8] + a;
    let r = y + seq![44u8] + b;
    assert(l.len() == x.len() + 1 + a.len());
    assert(r.len() == y.len() + 1 + b.len());
    assert(l.len() == r.len());
    if x.len() < y.len() {
        let i = x.len() as int;
        assert(l[i] == 44u8);
        assert(r[i] == y[i]);
    } else if y.len() < x.len() {
        let i = y.len() as int;
        assert(r[i] == 44u8);
        assert(l[i] == x[i]);
    }
    assert(x =~= l.subrange(0, x.len() as int));
    assert(y =~= r.subrange(0, y.len() as int));
    assert(a =~= l.subrange(x.len() as int + 1, l.len() as int));
    assert(b =~= r.subrange(y.len() as int + 1, r.len() as int));
}

proof fn lemma_decimal_list_injective(s: Seq<u8>, t: Seq<u8>)
    requires
        s.len() == t.len(),
        decimal_list(s) == decimal_list(t),
    ensures
        s == t,
    decreases s.len(),
{
    if s.len() == 1 {
        lemma_decimal_injective(s[0] as nat, t[0] as nat);
        assert(s =~= t);
    } else if s.len() > 1 {
        lemma_decimal_digits(s.last() as nat);
        lemma_decimal_digits(t.last() as nat);
        lemma_split_last(
            decimal_list(s.drop_last()),
            decimal_list(t.drop_last()),
            decimal(s.last() as nat),
            decimal(t.last() as nat),
        );
        lemma_decimal_list_injective(s.drop_last(), t.drop_last());
        lemma_decimal_injective(s.last() as nat, t.last() as nat);
        assert(s =~= t.drop_last().push(t.last()));
        assert(t =~= t.drop_last().push(t.last()));
    } else {
        assert(s =~= t);
    }
}

/// Distinct branch identifiers get distinct storage keys.
pub proof fn lemma_branch_key_injective(h1: u8, k1: Seq<u8>, h2: u8, k2: Seq<u8>)
    requires
        k1.len() == k2.len(),
        branch_key_text(h1, k1) == branch_key_text(h2, k2),
    ensures
        h1 == h2,
        k1 == k2,
{
    let t1 = branch_key_text(h1, k1);
    let t2 = branch_key_text(h2, k2);
    let m1 = decimal(h1 as nat) + seq![44u8] + (seq![91u8] + decimal_list(k1));
    let m2 = decimal(h2 as nat) + seq![44u8] + (seq![91u8] + decimal_list(k2));
    assert(m1 =~= t1.subrange(1, t1.len() - 2));
    assert(m2 =~= t2.subrange(1, t2.len() - 2));
    lemma_decimal_digits(h1 as nat);
    lemma_decimal_digits(h2 as nat);
    lemma_split_first(
        decimal(h1 as nat),
        decimal(h2 as nat),
        seq![91u8] + decimal_list(k1),
        seq![91u8] + decimal_list(k2),
    );
    lemma_decimal_injective(h1 as nat, h2 as nat);
    assert(decimal_list(k1) =~= (seq![91u8] + decimal_list(k1)).subrange(1, 1 + decimal_list(k1).len() as int));
    assert(decimal_list(k2) =~= (seq![91u8] + decimal_list(k2)).subrange(1, 1 + decimal_list(k2).len() as int));
    lemma_decimal_list_injective(k1, k2);
}

/// A branch key is longer than a leaf's 32 hash bytes, so the two never meet.
pub proof fn lemma_branch_key_len(height: u8, node_key: Seq<u8>)
    requires
        node_key.len() == 32,
    ensures
        branch_key_text(height, node_key).len() > 32,
{
    lemma_decimal_list_shape(node_key);
}

} // verus!
