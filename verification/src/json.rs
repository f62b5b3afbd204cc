//! JSON values as the validator reads them.
use vstd::prelude::*;
use vstd::arithmetic::power2::{
    lemma2_to64, lemma2_to64_rest, lemma_pow2_pos, lemma_pow2_strictly_increases, pow2,
};
use vstd::bits::{lemma_u64_pow2_no_overflow, lemma_u64_shl_is_mul};

verus! {

/// A JSON number: an integer, or a binary64 float given by its bit pattern.
#[derive(Clone, Copy, Debug, PartialEq, Eq)]
pub enum Number {
    /// A non-negative integer.
    PosInt(u64),
    /// An integer; negative where it came from a parser.
    NegInt(i64),
    /// An IEEE 754 binary64 value, as its 64 bits.
    Float(u64),
}

/// A JSON value. The members of an object keep their order; a lookup finds
/// the first member with the key.
#[derive(Debug, PartialEq)]
pub enum Json {
    Null,
    Bool(bool),
    Number(Number),
    String(String),
    Array(Vec<Json>),
    Object(Vec<(String, Json)>),
}

/// The value of a [`Json`].
pub enum JsonView {
    Null,
    Bool(bool),
    Number(Number),
    String(Seq<char>),
    Array(Seq<JsonView>),
    Object(Seq<(Seq<char>, JsonView)>),
}

/// The sign bit of a binary64 bit pattern.
pub open spec fn float_sign(bits: u64) -> int {
    bits as int / 0x8000_0000_0000_0000
}

/// The biased exponent of a binary64 bit pattern.
pub open spec fn float_exponent(bits: u64) -> int {
    (bits as int / 0x10_0000_0000_0000) % 0x800
}

/// The fraction field of a binary64 bit pattern.
pub open spec fn float_fraction(bits: u64) -> int {
    bits as int % 0x10_0000_0000_0000
}

/// The integer that a binary64 bit pattern stands for, if it stands for one.
/// Both zeros stand for 0. A normal number is its 53-bit significand times a
/// power of two, and is an integer where the power does not cut the
/// significand. Subnormal numbers, infinities and NaN stand for none.
pub open spec fn float_integer(bits: u64) -> Option<int> {
    let e = float_exponent(bits);
    let m = 0x10_0000_0000_0000 + float_fraction(bits);
    let sign: int = if float_sign(bits) == 1 {
        -1
    } else {
        1
    };
    if e == 0 {
        if float_fraction(bits) == 0 {
            Some(0)
        } else {
            None
        }
    } else if e == 0x7ff {
        None
    } else if e >= 1075 {
        Some(sign * (m * pow2((e - 1075) as nat)))
    } else if m % (pow2((1075 - e) as nat) as int) == 0 {
        Some(sign * (m / (pow2((1075 - e) as nat) as int)))
    } else {
        None
    }
}

impl Number {
    /// The integer that the number is, if it is one.
    pub open spec fn integer(self) -> Option<int> {
        match self {
            Number::PosInt(n) => Some(n as int),
            Number::NegInt(n) => Some(n as int),
            Number::Float(bits) => float_integer(bits),
        }
    }

    /// The number is an integer from `lo` to `hi`.
    pub open spec fn integer_in(self, lo: int, hi: int) -> bool {
        self.integer() matches Some(n) && lo <= n <= hi
    }
}

/// The integer, if it is one of fewer than 54 bits: such an integer is the
/// same in every kind of number.
pub open spec fn small(n: Option<int>) -> Option<i64> {
    match n {
        Some(n) => if -0x20_0000_0000_0000 < n < 0x20_0000_0000_0000 {
            Some(n as i64)
        } else {
            None
        },
        None => None,
    }
}

/// Decodes a binary64 bit pattern that stands for an integer of fewer than
/// 54 bits.
pub fn float_to_integer(bits: u64) -> (r: Option<i64>)
    ensures
        r == small(float_integer(bits)),
{
    let e = (bits >> 52) & 0x7ff;
    let f = bits & 0xf_ffff_ffff_ffff;
    let negative = (bits >> 63) == 1;
    assert((bits >> 52) & 0x7ff == (bits / 0x10_0000_0000_0000) % 0x800) by (bit_vector);
    assert(bits & 0xf_ffff_ffff_ffff == bits % 0x10_0000_0000_0000) by (bit_vector);
    assert(bits >> 63 == bits / 0x8000_0000_0000_0000) by (bit_vector);
    assert(e == float_exponent(bits) && f == float_fraction(bits));
    assert(negative == (float_sign(bits) == 1));
    let m: u64 = f + 0x10_0000_0000_0000;
    proof {
        lemma2_to64();
        lemma2_to64_rest();
    }
    if e == 0 {
        return if f == 0 {
            Some(0)
        } else {
            None
        };
    }
    if e == 0x7ff {
        return None;
    }
    if e > 1075 {
        proof {
            let k = (e - 1075) as nat;
            lemma_pow2_strictly_increases(0, k);
            let x = m * pow2(k);
            assert(x >= m * 2) by (nonlinear_arith)
                requires
                    x == m * pow2(k),
                    pow2(k) >= 2,
                    m >= 0,
            ;
            assert(float_integer(bits) == Some(x) || float_integer(bits) == Some(-1 * x));
        }
        return None;
    }
    if e < 1023 {
        proof {
            let k = (1075 - e) as nat;
            assert(pow2(53) <= pow2(k)) by {
                if k > 53 {
                    lemma_pow2_strictly_increases(53, k);
                }
            }
            assert(m as int % (pow2(k) as int) == m) by (nonlinear_arith)
                requires
                    0 <= m < pow2(k),
            ;
        }
        return None;
    }
    let shift: u64 = 1075 - e;
    proof {
        lemma_u64_pow2_no_overflow(shift as nat);
        lemma_u64_shl_is_mul(1, shift);
        lemma_pow2_pos(shift as nat);
    }
    let p: u64 = 1u64 << shift;
    assert(p == pow2(shift as nat));
    if m % p != 0 {
        return None;
    }
    let v: u64 = m / p;
    proof {
        assert(v <= m) by (nonlinear_arith)
            requires
                v == m / p,
                p >= 1,
                m >= 0,
        ;
        assert(float_exponent(bits) == e && (1075 - float_exponent(bits)) as nat == shift);
        assert(m as int % (pow2(shift as nat) as int) == 0);
        assert(m as int / (pow2(shift as nat) as int) == v);
        if e == 1075 {
            assert(m * pow2(0) == v) by (nonlinear_arith)
                requires
                    pow2(0) == 1,
                    v == m,
            ;
        }
        assert(float_integer(bits) == Some(v as int) || float_integer(bits) == Some(-1 * v));
    }
    if negative {
        Some(-(v as i64))
    } else {
        Some(v as i64)
    }
}

impl Number {
    /// The number as an integer of fewer than 54 bits, if it is one.
    pub fn to_integer(&self) -> (r: Option<i64>)
        ensures
            r == small(self.integer()),
    {
        match *self {
            Number::PosInt(n) => if n < 0x20_0000_0000_0000 {
                Some(n as i64)
            } else {
                None
            },
            Number::NegInt(n) => if -0x20_0000_0000_0000 < n && n < 0x20_0000_0000_0000 {
                Some(n)
            } else {
                None
            },
            Number::Float(bits) => float_to_integer(bits),
        }
    }
}

/// The value of the elements of an array.
pub open spec fn items_view(v: Seq<Json>) -> Seq<JsonView>
    decreases v,
{
    Seq::new(
        v.len(),
        |i: int|
            if 0 <= i < v.len() {
                v[i].view()
            } else {
                arbitrary()
            },
    )
}

/// The value of the members of an object.
pub open spec fn members_view(v: Seq<(String, Json)>) -> Seq<(Seq<char>, JsonView)>
    decreases v,
{
    Seq::new(
        v.len(),
        |i: int|
            if 0 <= i < v.len() {
                (v[i].0@, v[i].1.view())
            } else {
                arbitrary()
            },
    )
}

impl Json {
    pub open spec fn view(&self) -> JsonView
        decreases *self,
    {
        match *self {
            Json::Null => JsonView::Null,
            Json::Bool(b) => JsonView::Bool(b),
            Json::Number(n) => JsonView::Number(n),
            Json::String(s) => JsonView::String(s@),
            Json::Array(items) => JsonView::Array(items_view(items@)),
            Json::Object(members) => JsonView::Object(members_view(members@)),
        }
    }
}

/// A copy of the elements of an array.
fn clone_items(items: &Vec<Json>) -> (copy: Vec<Json>)
    ensures
        items_view(copy@) == items_view(items@),
    decreases items,
{
    let mut copy: Vec<Json> = Vec::new();
    let mut i: usize = 0;
    while i < items.len()
        invariant
            i <= items.len(),
            copy@.len() == i,
            forall|j: int| 0 <= j < i ==> (#[trigger] copy@[j])@ == items@[j]@,
        decreases items.len() - i,
    {
        copy.push(clone_json(&items[i]));
        i += 1;
    }
    assert(items_view(copy@) =~= items_view(items@));
    copy
}

/// A copy of the members of an object.
fn clone_members(members: &Vec<(String, Json)>) -> (copy: Vec<(String, Json)>)
    ensures
        members_view(copy@) == members_view(members@),
    decreases members,
{
    let mut copy: Vec<(String, Json)> = Vec::new();
    let mut i: usize = 0;
    while i < members.len()
        invariant
            i <= members.len(),
            copy@.len() == i,
            forall|j: int|
                0 <= j < i ==> (#[trigger] copy@[j]).0@ == members@[j].0@ && copy@[j].1@
                    == members@[j].1@,
        decreases members.len() - i,
    {
        copy.push((members[i].0.clone(), clone_json(&members[i].1)));
        i += 1;
    }
    assert(members_view(copy@) =~= members_view(members@));
    copy
}

/// A copy of a JSON value.
fn clone_json(value: &Json) -> (copy: Json)
    ensures
        copy@ == value@,
    decreases value,
{
    match value {
        Json::Null => Json::Null,
        Json::Bool(b) => Json::Bool(*b),
        Json::Number(n) => Json::Number(*n),
        Json::String(s) => Json::String(s.clone()),
        Json::Array(items) => Json::Array(clone_items(items)),
        Json::Object(members) => Json::Object(clone_members(members)),
    }
}

impl Clone for Json {
    fn clone(&self) -> (copy: Json)
        ensures
            copy@ == self@,
    {
        clone_json(self)
    }
}

} // verus!
