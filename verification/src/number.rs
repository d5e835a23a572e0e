use vstd::prelude::*;
use vstd::arithmetic::power2::pow2;

verus! {

/// Number of trailing zero bits of `v` (zero for `v == 0`).
pub open spec fn spec_trailing_zeros(v: nat) -> nat
    decreases v,
{
    if v == 0 || v % 2 == 1 {
        0
    } else {
        1 + spec_trailing_zeros(v / 2)
    }
}

/// A tile of the board: empty, or holding the exponent `e` of the value `2^e`.
#[derive(Clone, Copy, Debug, PartialEq, Eq, Structural)]
pub struct Number {
    pub value: Option<usize>,
}

/// Points a tile is worth: `2^e` for exponent `e`, nothing for an empty tile.
pub open spec fn tile_points(n: Number) -> nat {
    match n.value {
        Some(e) => pow2(e as nat),
        None => 0,
    }
}

/// A tile whose points fit in a `usize`.
pub open spec fn tile_fits(n: Number) -> bool {
    match n.value {
        Some(e) => e < usize::BITS,
        None => true,
    }
}

/// The exponent stored by `Number::new(v)`: `2^(tz(v) - 1)`.
pub open spec fn new_exponent(v: nat) -> nat {
    pow2((spec_trailing_zeros(v) - 1) as nat)
}

/// The tile `Number::from_usize(n)` makes: empty for 0.
pub open spec fn spec_from_usize(n: usize) -> Number {
    if n == 0 { Number { value: None } } else { Number { value: Some(new_exponent(n as nat) as usize) } }
}

/// Colour class of a tile, by exponent (empty counts as 0).
pub open spec fn spec_color(e: usize) -> Seq<char> {
    if e == 0 { "bg-blue-50"@ }
    else if e == 1 { "bg-blue-100"@ }
    else if e == 2 { "bg-blue-400"@ }
    else if e == 3 { "bg-blue-700"@ }
    else if e == 4 { "bg-red-100"@ }
    else if e == 5 { "bg-red-400"@ }
    else if e == 6 { "bg-red-700"@ }
    else if e == 7 { "bg-green-100"@ }
    else if e == 8 { "bg-green-400"@ }
    else if e == 9 { "bg-green-700"@ }
    else if e == 10 { "bg-black-100"@ }
    else if e == 11 { "bg-black-400"@ }
    else if e == 12 { "bg-black-700"@ }
    else if e == 13 { "bg-yellow-100"@ }
    else if e == 14 { "bg-yellow-400"@ }
    else if e == 15 { "bg-yellow-700"@ }
    else { ""@ }
}

/// How a tile is shown on screen.
#[derive(Clone, Copy, Debug, PartialEq, Eq, Structural)]
pub enum Shown {
    /// An empty tile.
    Blank,
    /// `2e{exponent}`.
    Scientific(usize),
    /// The plain value `2^exponent`.
    Plain(usize),
}

/// Trailing zero bits of `v`.
pub fn trailing_zeros(v: usize) -> (r: u32)
    ensures
        r == spec_trailing_zeros(v as nat),
        r < usize::BITS,
{
    if v == 0 {
        return 0;
    }
    let mut x: usize = v;
    let mut n: u32 = 0;
    proof {
        vstd::arithmetic::power2::lemma2_to64();
    }
    while x % 2 == 0
        invariant
            x > 0,
            n + spec_trailing_zeros(x as nat) == spec_trailing_zeros(v as nat),
            x as nat * pow2(n as nat) == v as nat,
            n < usize::BITS,
        decreases x,
    {
        proof {
            vstd::arithmetic::power2::lemma_pow2_unfold((n + 1) as nat);
            vstd::arithmetic::mul::lemma_mul_is_associative((x / 2) as int, 2, pow2(n as nat) as int);
        }
        assert((x / 2) as nat * pow2((n + 1) as nat) == v as nat) by (nonlinear_arith)
            requires
                x % 2 == 0,
                x as nat * pow2(n as nat) == v as nat,
                pow2((n + 1) as nat) == 2 * pow2(n as nat),
        ;
        proof {
            if n + 1 >= usize::BITS {
                vstd::layout::unsigned_int_max_values();
                vstd::arithmetic::power2::lemma_pow2_unfold(usize::BITS as nat);
                assert(false) by (nonlinear_arith)
                    requires
                        x as nat * pow2(n as nat) == v as nat,
                        x >= 2,
                        n + 1 == usize::BITS,
                        pow2(usize::BITS as nat) == 2 * pow2(n as nat),
                        v <= pow2(usize::BITS as nat) - 1,
                ;
            }
        }
        x = x / 2;
        n = n + 1;
    }
    n
}

impl Number {
    /// Points the tile is worth.
    pub fn value(&self) -> (r: usize)
        requires
            tile_fits(*self),
        ensures
            r == tile_points(*self),
    {
        if let Some(value) = self.value {
            proof {
                vstd::bits::lemma_usize_pow2_no_overflow(value as nat);
                vstd::bits::lemma_usize_shl_is_mul(1, value);
            }
            1usize << value
        } else {
            0
        }
    }

    /// Replaces the stored exponent.
    pub fn set(&mut self, value: Option<usize>)
        ensures
            final(self).value == value,
    {
        self.value = value;
    }

    /// A tile holding exponent `value` as given.
    pub fn scientific(value: usize) -> (r: Self)
        ensures
            r.value == Some(value),
    {
        Number { value: Some(value) }
    }

    /// The tile made from `value`: its exponent is `2^(tz(value) - 1)`,
    /// where `tz` counts the trailing zero bits.
    pub fn new(value: usize) -> (r: Self)
        requires
            value >= 2,
            value % 2 == 0,
        ensures
            r.value == Some(new_exponent(value as nat) as usize),
            new_exponent(value as nat) < usize::MAX,
    {
        let tz = trailing_zeros(value);
        proof {
            assert(tz >= 1);
            vstd::bits::lemma_usize_pow2_no_overflow((tz - 1) as nat);
            vstd::bits::lemma_usize_shl_is_mul(1, (tz - 1) as usize);
        }
        Number { value: Some(1usize << ((tz - 1) as usize)) }
    }

    /// The empty tile.
    pub fn none() -> (r: Self)
        ensures
            r.value.is_none(),
    {
        Number { value: None }
    }

    /// Whether the tile is empty.
    pub fn is_none(&self) -> (r: bool)
        ensures
            r == self.value.is_none(),
    {
        self.value.is_none()
    }

    /// Whether the tile holds a value.
    pub fn is_some(&self) -> (r: bool)
        ensures
            r == self.value.is_some(),
    {
        self.value.is_some()
    }

    /// Colour class of the tile.
    pub fn color(&self) -> (r: &'static str)
        ensures
            r@ == spec_color(match self.value { Some(e) => e, None => 0 }),
    {
        let e = match self.value {
            Some(e) => e,
            None => 0,
        };
        proof {
            reveal_strlit("bg-blue-50");
        }
        if e == 0 { "bg-blue-50" }
        else if e == 1 { "bg-blue-100" }
        else if e == 2 { "bg-blue-400" }
        else if e == 3 { "bg-blue-700" }
        else if e == 4 { "bg-red-100" }
        else if e == 5 { "bg-red-400" }
        else if e == 6 { "bg-red-700" }
        else if e == 7 { "bg-green-100" }
        else if e == 8 { "bg-green-400" }
        else if e == 9 { "bg-green-700" }
        else if e == 10 { "bg-black-100" }
        else if e == 11 { "bg-black-400" }
        else if e == 12 { "bg-black-700" }
        else if e == 13 { "bg-yellow-100" }
        else if e == 14 { "bg-yellow-400" }
        else if e == 15 { "bg-yellow-700" }
        else { "" }
    }

    /// How the tile is shown: blank when empty, `2e{e}` when scientific
    /// notation is on and the value is at least 128, else the plain value.
    pub fn shown(&self, scientific: bool) -> (r: Shown)
        requires
            tile_fits(*self),
        ensures
            match self.value {
                None => r == Shown::Blank,
                Some(e) => if pow2(e as nat) >= 128 && scientific {
                    r == Shown::Scientific(e)
                } else {
                    r == Shown::Plain(pow2(e as nat) as usize)
                },
            },
    {
        match self.value {
            None => Shown::Blank,
            Some(e) => {
                let v = self.value();
                if v >= 128 && scientific {
                    Shown::Scientific(e)
                } else {
                    Shown::Plain(v)
                }
            },
        }
    }

    /// The tile for an amount: empty for 0, else `Number::new(n)`.
    pub fn from_usize(n: usize) -> (r: Self)
        requires
            n == 0 || (n >= 2 && n % 2 == 0),
        ensures
            r == spec_from_usize(n),
    {
        if n == 0 {
            Self::none()
        } else {
            Self::new(n)
        }
    }

    /// The tile holding the given exponent, if any.
    pub fn from_option(value: Option<usize>) -> (r: Self)
        ensures
            r.value == value,
    {
        Number { value }
    }
}

} // verus!
