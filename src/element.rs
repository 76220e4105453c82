use vstd::prelude::*;

verus! {

/// The arithmetic a matrix cell needs: an additive identity, addition,
/// subtraction and multiplication. Each operation is total; the integer
/// instances wrap around on overflow (two's complement), so that no matrix
/// operation can fail on the values it holds.
pub trait Element: Copy + Sized + Send + Sync {
    /// The additive identity.
    spec fn spec_zero() -> Self;

    spec fn spec_plus(a: Self, b: Self) -> Self;

    spec fn spec_minus(a: Self, b: Self) -> Self;

    spec fn spec_times(a: Self, b: Self) -> Self;

    /// The decimal text of a value.
    spec fn spec_text(self) -> Seq<char>;

    fn text(self) -> (r: String)
        ensures
            r@ == Self::spec_text(self),
    ;

    fn zero() -> (r: Self)
        ensures
            r == Self::spec_zero(),
    ;

    fn plus(self, other: Self) -> (r: Self)
        ensures
            r == Self::spec_plus(self, other),
    ;

    fn minus(self, other: Self) -> (r: Self)
        ensures
            r == Self::spec_minus(self, other),
    ;

    fn times(self, other: Self) -> (r: Self)
        ensures
            r == Self::spec_times(self, other),
    ;
}

/// The decimal digits of `n`, most significant first, without leading
/// zeros (zero itself is "0").
pub open spec fn digits(n: nat) -> Seq<char>
    decreases n,
{
    let d = seq!['0', '1', '2', '3', '4', '5', '6', '7', '8', '9'][(n % 10) as int];
    if n < 10 {
        seq![d]
    } else {
        digits(n / 10).push(d)
    }
}

/// The decimal text of `x`: a minus sign for a negative value, then its
/// digits.
pub open spec fn decimal(x: int) -> Seq<char> {
    if x < 0 {
        seq!['-'] + digits((-x) as nat)
    } else {
        digits(x as nat)
    }
}

/// Relies on `ToString` for `i128` (through its `Display`): the value in
/// decimal, with a leading minus sign when negative and no padding.
#[verifier::external_body]
fn decimal_text(x: i128) -> (r: String)
    ensures
        r@ == decimal(x as int),
{
    x.to_string()
}

impl Element for i32 {
    open spec fn spec_text(self) -> Seq<char> {
        decimal(self as int)
    }

    fn text(self) -> (r: String) {
        decimal_text(self as i128)
    }

    open spec fn spec_zero() -> i32 {
        0
    }

    open spec fn spec_plus(a: i32, b: i32) -> i32 {
        a.wrapping_add(b)
    }

    open spec fn spec_minus(a: i32, b: i32) -> i32 {
        a.wrapping_sub(b)
    }

    open spec fn spec_times(a: i32, b: i32) -> i32 {
        a.wrapping_mul(b)
    }

    fn zero() -> (r: i32) {
        0
    }

    fn plus(self, other: i32) -> (r: i32) {
        self.wrapping_add(other)
    }

    fn minus(self, other: i32) -> (r: i32) {
        self.wrapping_sub(other)
    }

    fn times(self, other: i32) -> (r: i32) {
        self.wrapping_mul(other)
    }
}

impl Element for i64 {
    open spec fn spec_text(self) -> Seq<char> {
        decimal(self as int)
    }

    fn text(self) -> (r: String) {
        decimal_text(self as i128)
    }

    open spec fn spec_zero() -> i64 {
        0
    }

    open spec fn spec_plus(a: i64, b: i64) -> i64 {
        a.wrapping_add(b)
    }

    open spec fn spec_minus(a: i64, b: i64) -> i64 {
        a.wrapping_sub(b)
    }

    open spec fn spec_times(a: i64, b: i64) -> i64 {
        a.wrapping_mul(b)
    }

    fn zero() -> (r: i64) {
        0
    }

    fn plus(self, other: i64) -> (r: i64) {
        self.wrapping_add(other)
    }

    fn minus(self, other: i64) -> (r: i64) {
        self.wrapping_sub(other)
    }

    fn times(self, other: i64) -> (r: i64) {
        self.wrapping_mul(other)
    }
}

impl Element for u32 {
    open spec fn spec_text(self) -> Seq<char> {
        decimal(self as int)
    }

    fn text(self) -> (r: String) {
        decimal_text(self as i128)
    }

    open spec fn spec_zero() -> u32 {
        0
    }

    open spec fn spec_plus(a: u32, b: u32) -> u32 {
        a.wrapping_add(b)
    }

    open spec fn spec_minus(a: u32, b: u32) -> u32 {
        a.wrapping_sub(b)
    }

    open spec fn spec_times(a: u32, b: u32) -> u32 {
        a.wrapping_mul(b)
    }

    fn zero() -> (r: u32) {
        0
    }

    fn plus(self, other: u32) -> (r: u32) {
        self.wrapping_add(other)
    }

    fn minus(self, other: u32) -> (r: u32) {
        self.wrapping_sub(other)
    }

    fn times(self, other: u32) -> (r: u32) {
        self.wrapping_mul(other)
    }
}

impl Element for u64 {
    open spec fn spec_text(self) -> Seq<char> {
        decimal(self as int)
    }

    fn text(self) -> (r: String) {
        decimal_text(self as i128)
    }

    open spec fn spec_zero() -> u64 {
        0
    }

    open spec fn spec_plus(a: u64, b: u64) -> u64 {
        a.wrapping_add(b)
    }

    open spec fn spec_minus(a: u64, b: u64) -> u64 {
        a.wrapping_sub(b)
    }

    open spec fn spec_times(a: u64, b: u64) -> u64 {
        a.wrapping_mul(b)
    }

    fn zero() -> (r: u64) {
        0
    }

    fn plus(self, other: u64) -> (r: u64) {
        self.wrapping_add(other)
    }

    fn minus(self, other: u64) -> (r: u64) {
        self.wrapping_sub(other)
    }

    fn times(self, other: u64) -> (r: u64) {
        self.wrapping_mul(other)
    }
}

} // verus!
