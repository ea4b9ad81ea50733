//! Text built from integers: decimal and fixed-width hexadecimal digits,
//! and the names of variables.
use crate::expr::Var;
use vstd::prelude::*;

verus! {

/// Calls `String::push`, which appends `c` to the end of `s`; the contract
/// claims exactly that of the character sequence.
#[verifier::external_body]
pub(crate) fn push_char(s: &mut String, c: char)
    ensures
        final(s)@ == old(s)@.push(c),
{
    s.push(c);
}

/// The character of a digit below 16, lower case.
pub open spec fn digit_char(d: nat) -> char {
    if d < 10 {
        ((d + 48) as u8) as char
    } else {
        ((d - 10 + 97) as u8) as char
    }
}

fn digit(d: u64) -> (c: char)
    requires
        d < 16,
    ensures
        c == digit_char(d as nat),
{
    if d < 10 {
        ((d + 48) as u8) as char
    } else {
        ((d - 10 + 97) as u8) as char
    }
}

/// The decimal digits of `n`, without leading zeros.
pub open spec fn decimal(n: nat) -> Seq<char>
    decreases n,
{
    if n < 10 {
        seq![digit_char(n)]
    } else {
        decimal(n / 10).push(digit_char(n % 10))
    }
}

/// Append the decimal digits of `n`.
pub fn push_decimal(s: &mut String, n: u64)
    ensures
        final(s)@ == old(s)@ + decimal(n as nat),
    decreases n,
{
    if n >= 10 {
        push_decimal(s, n / 10);
    }
    push_char(s, digit(n % 10));
    proof {
        assert(final(s)@ =~= old(s)@ + decimal(n as nat));
    }
}

/// Hexadecimal digit `k` of `h`, counting from the most significant.
pub open spec fn nibble(h: u64, k: int) -> u64 {
    (h >> ((60 - 4 * k) as u64)) & 0xFu64
}

/// The 16 hexadecimal digits of `h`, most significant first, zero padded.
pub open spec fn hex16(h: u64) -> Seq<char> {
    Seq::new(16, |k: int| digit_char(nibble(h, k) as nat))
}

/// Append the 16 hexadecimal digits of `h`, as `{:016x}` writes them.
pub fn push_hex16(s: &mut String, h: u64)
    ensures
        final(s)@ == old(s)@ + hex16(h),
{
    let ghost s0 = s@;
    let mut k: u64 = 0;
    while k < 16
        invariant
            k <= 16,
            s@ == s0 + hex16(h).subrange(0, k as int),
        decreases 16 - k,
    {
        let shift: u64 = 60 - 4 * k;
        let d = (h >> shift) & 0xFu64;
        assert(d < 16) by (bit_vector)
            requires
                d == (h >> shift) & 0xFu64,
        ;
        push_char(s, digit(d));
        proof {
            assert(s@ =~= s0 + hex16(h).subrange(0, k + 1));
        }
        k = k + 1;
    }
    proof {
        assert(hex16(h).subrange(0, 16) =~= hex16(h));
    }
}

proof fn lemma_digit_char_injective(a: nat, b: nat)
    requires
        a < 16,
        b < 16,
        digit_char(a) == digit_char(b),
    ensures
        a == b,
{
}

/// Distinct values have distinct hexadecimal spellings.
pub proof fn lemma_hex16_injective(h1: u64, h2: u64)
    requires
        hex16(h1) == hex16(h2),
    ensures
        h1 == h2,
{
    assert forall|k: int| 0 <= k < 16 implies #[trigger] nibble(h1, k) == nibble(h2, k) by {
        let s = (60 - 4 * k) as u64;
        let d1 = (h1 >> s) & 0xFu64;
        let d2 = (h2 >> s) & 0xFu64;
        assert(d1 < 16 && d2 < 16) by (bit_vector)
            requires
                d1 == (h1 >> s) & 0xFu64,
                d2 == (h2 >> s) & 0xFu64,
        ;
        assert(d1 == nibble(h1, k) && d2 == nibble(h2, k));
        assert(hex16(h1)[k] == digit_char(d1 as nat));
        assert(hex16(h2)[k] == digit_char(d2 as nat));
        assert(hex16(h1)[k] == hex16(h2)[k]);
        lemma_digit_char_injective(d1 as nat, d2 as nat);
    }
    assert(nibble(h1, 0) == nibble(h2, 0));
    assert(nibble(h1, 1) == nibble(h2, 1));
    assert(nibble(h1, 2) == nibble(h2, 2));
    assert(nibble(h1, 3) == nibble(h2, 3));
    assert(nibble(h1, 4) == nibble(h2, 4));
    assert(nibble(h1, 5) == nibble(h2, 5));
    assert(nibble(h1, 6) == nibble(h2, 6));
    assert(nibble(h1, 7) == nibble(h2, 7));
    assert(nibble(h1, 8) == nibble(h2, 8));
    assert(nibble(h1, 9) == nibble(h2, 9));
    assert(nibble(h1, 10) == nibble(h2, 10));
    assert(nibble(h1, 11) == nibble(h2, 11));
    assert(nibble(h1, 12) == nibble(h2, 12));
    assert(nibble(h1, 13) == nibble(h2, 13));
    assert(nibble(h1, 14) == nibble(h2, 14));
    assert(nibble(h1, 15) == nibble(h2, 15));
    assert(h1 == h2) by (bit_vector)
        requires
            (h1 >> 60u64) & 0xFu64 == (h2 >> 60u64) & 0xFu64,
            (h1 >> 56u64) & 0xFu64 == (h2 >> 56u64) & 0xFu64,
            (h1 >> 52u64) & 0xFu64 == (h2 >> 52u64) & 0xFu64,
            (h1 >> 48u64) & 0xFu64 == (h2 >> 48u64) & 0xFu64,
            (h1 >> 44u64) & 0xFu64 == (h2 >> 44u64) & 0xFu64,
            (h1 >> 40u64) & 0xFu64 == (h2 >> 40u64) & 0xFu64,
            (h1 >> 36u64) & 0xFu64 == (h2 >> 36u64) & 0xFu64,
            (h1 >> 32u64) & 0xFu64 == (h2 >> 32u64) & 0xFu64,
            (h1 >> 28u64) & 0xFu64 == (h2 >> 28u64) & 0xFu64,
            (h1 >> 24u64) & 0xFu64 == (h2 >> 24u64) & 0xFu64,
            (h1 >> 20u64) & 0xFu64 == (h2 >> 20u64) & 0xFu64,
            (h1 >> 16u64) & 0xFu64 == (h2 >> 16u64) & 0xFu64,
            (h1 >> 12u64) & 0xFu64 == (h2 >> 12u64) & 0xFu64,
            (h1 >> 8u64) & 0xFu64 == (h2 >> 8u64) & 0xFu64,
            (h1 >> 4u64) & 0xFu64 == (h2 >> 4u64) & 0xFu64,
            (h1 >> 0u64) & 0xFu64 == (h2 >> 0u64) & 0xFu64,
    ;
}

/// The display name of a variable: `x{i}`, `t`, `theta{i}`, `dW{i}`, `pi`.
pub open spec fn var_name(v: Var) -> Seq<char> {
    match v {
        Var::State(i) => seq!['x'] + decimal(i as nat),
        Var::Time => seq!['t'],
        Var::Param(i) => seq!['t', 'h', 'e', 't', 'a'] + decimal(i as nat),
        Var::DW(i) => seq!['d', 'W'] + decimal(i as nat),
        Var::Weight => seq!['p', 'i'],
    }
}

/// Append the display name of a variable.
pub fn push_var_name(s: &mut String, v: &Var)
    ensures
        final(s)@ == old(s)@ + var_name(*v),
{
    let ghost s0 = s@;
    match v {
        Var::State(i) => {
            push_char(s, 'x');
            push_decimal(s, *i as u64);
        },
        Var::Time => push_char(s, 't'),
        Var::Param(i) => {
            push_char(s, 't');
            push_char(s, 'h');
            push_char(s, 'e');
            push_char(s, 't');
            push_char(s, 'a');
            push_decimal(s, *i as u64);
        },
        Var::DW(i) => {
            push_char(s, 'd');
            push_char(s, 'W');
            push_decimal(s, *i as u64);
        },
        Var::Weight => {
            push_char(s, 'p');
            push_char(s, 'i');
        },
    }
    proof {
        assert(s@ =~= s0 + var_name(*v));
    }
}

impl Var {
    /// The display name of the variable.
    pub fn name(&self) -> (r: String)
        ensures
            r@ == var_name(*self),
    {
        let mut s = String::new();
        push_var_name(&mut s, self);
        proof {
            assert(s@ =~= var_name(*self));
        }
        s
    }
}

} // verus!
