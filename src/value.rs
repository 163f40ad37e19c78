//! The closed set of values a flag can hold.

use vstd::prelude::*;
use crate::number::{decimal, render_i64, render_u64, signed_decimal};
use core::cmp::Ordering;

verus! {

/// The value of a flag: exactly one of the supported types.
///
/// A double is held as its decimal literal text, as written on the command
/// line or in the declaration; it is never rounded by the library.
#[derive(Clone, Debug)]
pub enum FlagValue {
    Bool(bool),
    Int32(i32),
    Int64(i64),
    Uint64(u64),
    Double(String),
    String(String),
}

/// The mathematical form of a [`FlagValue`].
pub enum ValueModel {
    Bool(bool),
    Int32(i32),
    Int64(i64),
    Uint64(u64),
    Double(Seq<char>),
    Text(Seq<char>),
}

impl View for FlagValue {
    type V = ValueModel;

    open spec fn view(&self) -> ValueModel {
        match self {
            FlagValue::Bool(b) => ValueModel::Bool(*b),
            FlagValue::Int32(i) => ValueModel::Int32(*i),
            FlagValue::Int64(i) => ValueModel::Int64(*i),
            FlagValue::Uint64(u) => ValueModel::Uint64(*u),
            FlagValue::Double(t) => ValueModel::Double(t@),
            FlagValue::String(s) => ValueModel::Text(s@),
        }
    }
}

/// Reading a value as a type other than the one it holds.
#[derive(Clone, Copy, Debug, PartialEq, Eq, Structural)]
pub struct VariantMismatch;

/// The text of a value as it appears in help messages: numbers and booleans
/// as they are, doubles as their literal, strings between double quotes.
pub open spec fn render(v: ValueModel) -> Seq<char> {
    match v {
        ValueModel::Bool(b) => if b { seq!['t', 'r', 'u', 'e'] } else { seq!['f', 'a', 'l', 's', 'e'] },
        ValueModel::Int32(i) => signed_decimal(i as int),
        ValueModel::Int64(i) => signed_decimal(i as int),
        ValueModel::Uint64(u) => decimal(u as nat),
        ValueModel::Double(t) => t,
        ValueModel::Text(s) => seq!['"'] + s + seq!['"'],
    }
}

impl PartialEq for FlagValue {
    fn eq(&self, other: &FlagValue) -> (r: bool) {
        match (self, other) {
            (FlagValue::Bool(a), FlagValue::Bool(b)) => *a == *b,
            (FlagValue::Int32(a), FlagValue::Int32(b)) => *a == *b,
            (FlagValue::Int64(a), FlagValue::Int64(b)) => *a == *b,
            (FlagValue::Uint64(a), FlagValue::Uint64(b)) => *a == *b,
            (FlagValue::Double(a), FlagValue::Double(b)) => *a == *b,
            (FlagValue::String(a), FlagValue::String(b)) => *a == *b,
            _ => false,
        }
    }
}

impl vstd::std_specs::cmp::PartialEqSpecImpl for FlagValue {
    open spec fn obeys_eq_spec() -> bool {
        true
    }

    open spec fn eq_spec(&self, other: &FlagValue) -> bool {
        self@ == other@
    }
}

/// The position of a value's type in the order of types: booleans, then
/// `i32`, `i64`, `u64`, doubles and strings.
pub open spec fn type_rank(v: ValueModel) -> int {
    match v {
        ValueModel::Bool(_) => 0,
        ValueModel::Int32(_) => 1,
        ValueModel::Int64(_) => 2,
        ValueModel::Uint64(_) => 3,
        ValueModel::Double(_) => 4,
        ValueModel::Text(_) => 5,
    }
}

/// The order of two integers.
pub open spec fn int_order(a: int, b: int) -> Ordering {
    if a < b {
        Ordering::Less
    } else if a > b {
        Ordering::Greater
    } else {
        Ordering::Equal
    }
}

/// The lexicographic order of two texts, character by character.
pub open spec fn text_order(a: Seq<char>, b: Seq<char>) -> Ordering
    decreases a.len(),
{
    if a.len() == 0 {
        if b.len() == 0 {
            Ordering::Equal
        } else {
            Ordering::Less
        }
    } else if b.len() == 0 {
        Ordering::Greater
    } else if a[0] != b[0] {
        int_order(a[0] as int, b[0] as int)
    } else {
        text_order(a.skip(1), b.skip(1))
    }
}

/// The structural order of values: by type first, then by what they hold.
/// Booleans order `false` first, integers by value, doubles and strings by
/// their text.
pub open spec fn value_order(a: ValueModel, b: ValueModel) -> Ordering {
    match (a, b) {
        (ValueModel::Bool(x), ValueModel::Bool(y)) => int_order(
            if x { 1 } else { 0 },
            if y { 1 } else { 0 },
        ),
        (ValueModel::Int32(x), ValueModel::Int32(y)) => int_order(x as int, y as int),
        (ValueModel::Int64(x), ValueModel::Int64(y)) => int_order(x as int, y as int),
        (ValueModel::Uint64(x), ValueModel::Uint64(y)) => int_order(x as int, y as int),
        (ValueModel::Double(x), ValueModel::Double(y)) => text_order(x, y),
        (ValueModel::Text(x), ValueModel::Text(y)) => text_order(x, y),
        _ => int_order(type_rank(a), type_rank(b)),
    }
}

fn order_of(a: i128, b: i128) -> (r: Ordering)
    ensures
        r == int_order(a as int, b as int),
{
    if a < b {
        Ordering::Less
    } else if a > b {
        Ordering::Greater
    } else {
        Ordering::Equal
    }
}

fn compare_text(a: &str, b: &str) -> (r: Ordering)
    ensures
        r == text_order(a@, b@),
{
    let n = a.unicode_len();
    let m = b.unicode_len();
    let mut i: usize = 0;
    assert(a@.skip(0) =~= a@);
    assert(b@.skip(0) =~= b@);
    while i < n && i < m
        invariant
            n == a@.len(),
            m == b@.len(),
            i <= n,
            i <= m,
            text_order(a@, b@) == text_order(a@.skip(i as int), b@.skip(i as int)),
        decreases n - i,
    {
        let x = a.get_char(i);
        let y = b.get_char(i);
        proof {
            assert(a@.skip(i as int)[0] == x);
            assert(b@.skip(i as int)[0] == y);
        }
        if x != y {
            return order_of(x as u32 as i128, y as u32 as i128);
        }
        proof {
            assert(a@.skip(i as int).skip(1) =~= a@.skip(i + 1));
            assert(b@.skip(i as int).skip(1) =~= b@.skip(i + 1));
        }
        i = i + 1;
    }
    order_of((n - i) as i128, (m - i) as i128)
}

fn rank_of(v: &FlagValue) -> (r: i128)
    ensures
        r == type_rank(v@),
{
    match v {
        FlagValue::Bool(_) => 0,
        FlagValue::Int32(_) => 1,
        FlagValue::Int64(_) => 2,
        FlagValue::Uint64(_) => 3,
        FlagValue::Double(_) => 4,
        FlagValue::String(_) => 5,
    }
}

impl PartialOrd for FlagValue {
    fn partial_cmp(&self, other: &FlagValue) -> (r: Option<Ordering>) {
        let o = match (self, other) {
            (FlagValue::Bool(a), FlagValue::Bool(b)) => order_of(
                if *a { 1 } else { 0 },
                if *b { 1 } else { 0 },
            ),
            (FlagValue::Int32(a), FlagValue::Int32(b)) => order_of(*a as i128, *b as i128),
            (FlagValue::Int64(a), FlagValue::Int64(b)) => order_of(*a as i128, *b as i128),
            (FlagValue::Uint64(a), FlagValue::Uint64(b)) => order_of(*a as i128, *b as i128),
            (FlagValue::Double(a), FlagValue::Double(b)) => compare_text(a.as_str(), b.as_str()),
            (FlagValue::String(a), FlagValue::String(b)) => compare_text(a.as_str(), b.as_str()),
            _ => order_of(rank_of(self), rank_of(other)),
        };
        Some(o)
    }
}

impl vstd::std_specs::cmp::PartialOrdSpecImpl for FlagValue {
    open spec fn obeys_partial_cmp_spec() -> bool {
        true
    }

    open spec fn partial_cmp_spec(&self, other: &FlagValue) -> Option<Ordering> {
        Some(value_order(self@, other@))
    }
}

impl FlagValue {
    /// A copy of the value.
    pub fn duplicate(&self) -> (r: FlagValue)
        ensures
            r == *self,
    {
        match self {
            FlagValue::Bool(b) => FlagValue::Bool(*b),
            FlagValue::Int32(i) => FlagValue::Int32(*i),
            FlagValue::Int64(i) => FlagValue::Int64(*i),
            FlagValue::Uint64(u) => FlagValue::Uint64(*u),
            FlagValue::Double(t) => FlagValue::Double(t.clone()),
            FlagValue::String(s) => FlagValue::String(s.clone()),
        }
    }

    /// Whether the value is a boolean.
    pub fn is_bool(&self) -> (r: bool)
        ensures
            r == (self@ is Bool),
    {
        match self {
            FlagValue::Bool(_) => true,
            _ => false,
        }
    }

    /// The text of the value as it appears in help messages.
    pub fn render(&self) -> (r: String)
        ensures
            r@ == render(self@),
    {
        match self {
            FlagValue::Bool(b) => {
                proof {
                    reveal_strlit("true");
                    reveal_strlit("false");
                }
                if *b {
                    String::from_str("true")
                } else {
                    String::from_str("false")
                }
            },
            FlagValue::Int32(i) => render_i64(*i as i64),
            FlagValue::Int64(i) => render_i64(*i),
            FlagValue::Uint64(u) => render_u64(*u),
            FlagValue::Double(t) => t.clone(),
            FlagValue::String(s) => {
                proof {
                    reveal_strlit("\"");
                }
                let mut r = String::from_str("\"");
                r.append(s.as_str());
                r.append("\"");
                r
            },
        }
    }

    /// The boolean held, if the value is one.
    pub fn as_bool(&self) -> (r: Result<bool, VariantMismatch>)
        ensures
            r == (match self@ {
                ValueModel::Bool(b) => Ok(b),
                _ => Err(VariantMismatch),
            }),
    {
        match self {
            FlagValue::Bool(b) => Ok(*b),
            _ => Err(VariantMismatch),
        }
    }

    /// The `i32` held, if the value is one.
    pub fn as_i32(&self) -> (r: Result<i32, VariantMismatch>)
        ensures
            r == (match self@ {
                ValueModel::Int32(i) => Ok(i),
                _ => Err(VariantMismatch),
            }),
    {
        match self {
            FlagValue::Int32(i) => Ok(*i),
            _ => Err(VariantMismatch),
        }
    }

    /// The `i64` held, if the value is one.
    pub fn as_i64(&self) -> (r: Result<i64, VariantMismatch>)
        ensures
            r == (match self@ {
                ValueModel::Int64(i) => Ok(i),
                _ => Err(VariantMismatch),
            }),
    {
        match self {
            FlagValue::Int64(i) => Ok(*i),
            _ => Err(VariantMismatch),
        }
    }

    /// The `u64` held, if the value is one.
    pub fn as_u64(&self) -> (r: Result<u64, VariantMismatch>)
        ensures
            r == (match self@ {
                ValueModel::Uint64(u) => Ok(u),
                _ => Err(VariantMismatch),
            }),
    {
        match self {
            FlagValue::Uint64(u) => Ok(*u),
            _ => Err(VariantMismatch),
        }
    }

    /// The literal text of the double held, if the value is one.
    pub fn as_double_text(&self) -> (r: Result<&str, VariantMismatch>)
        ensures
            match self@ {
                ValueModel::Double(t) => r is Ok && r->Ok_0@ == t,
                _ => r == Err::<&str, VariantMismatch>(VariantMismatch),
            },
    {
        match self {
            FlagValue::Double(t) => Ok(t.as_str()),
            _ => Err(VariantMismatch),
        }
    }

    /// The string held, if the value is one.
    pub fn as_str(&self) -> (r: Result<&str, VariantMismatch>)
        ensures
            match self@ {
                ValueModel::Text(s) => r is Ok && r->Ok_0@ == s,
                _ => r == Err::<&str, VariantMismatch>(VariantMismatch),
            },
    {
        match self {
            FlagValue::String(s) => Ok(s.as_str()),
            _ => Err(VariantMismatch),
        }
    }
}

}
