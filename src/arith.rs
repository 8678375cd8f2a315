use vstd::prelude::*;

verus! {

/// `|x|` over the integers.
pub open spec fn abs(x: int) -> int {
    if x < 0 {
        -x
    } else {
        x
    }
}

/// Division that rounds toward zero, as Rust's `/` on signed integers does.
pub open spec fn trunc_div(n: int, d: int) -> int {
    if n >= 0 {
        n / d
    } else {
        -((-n) / d)
    }
}

/// Division that rounds toward negative infinity.
pub fn floor_div(n: i64, d: i64) -> (r: i64)
    requires
        d > 0,
    ensures
        r == n as int / d as int,
{
    if n >= 0 {
        n / d
    } else {
        let q = (-1 - n) / d;
        proof {
            let ni = n as int;
            let di = d as int;
            assert(ni / di == -(q as int) - 1) by (nonlinear_arith)
                requires
                    (-1 - ni) / di == q,
                    di > 0,
                    ni < 0,
            ;
        }
        -q - 1
    }
}

/// Division that rounds toward zero.
pub fn trunc_div_exec(n: i64, d: i64) -> (r: i64)
    requires
        d > 0,
        n > i64::MIN,
    ensures
        r == trunc_div(n as int, d as int),
{
    if n >= 0 {
        n / d
    } else {
        -((-n) / d)
    }
}

/// Sign-extends a 24-bit two's-complement sample held in the low 24 bits of
/// `value`: bit 23 is copied into every higher bit.
pub open spec fn sign_extend_24_spec(value: int) -> int {
    if value >= 0x80_0000 {
        value - 0x100_0000
    } else {
        value
    }
}

/// Whether `r` is a value that a 24-bit two's-complement sample can take.
pub open spec fn raw_in_range(r: int) -> bool {
    -0x80_0000 <= r < 0x80_0000
}

/// Sign-extends the 24-bit sample in the low bits of `value` (higher bits are
/// ignored) to a native signed integer.
pub fn sign_extend_24(value: u32) -> (r: i32)
    ensures
        r == sign_extend_24_spec((value % 0x100_0000) as int),
        raw_in_range(r as int),
{
    let low = value & 0x00FF_FFFF;
    assert(low == value % 0x100_0000) by (bit_vector)
        requires
            low == value & 0x00FF_FFFF,
    ;
    if low & 0x80_0000 != 0 {
        assert(low & 0x80_0000 != 0 ==> low >= 0x80_0000) by (bit_vector)
            requires low == value % 0x100_0000;
        (low as i32) - 0x100_0000
    } else {
        assert(low & 0x80_0000 == 0 ==> low < 0x80_0000) by (bit_vector)
            requires low == value % 0x100_0000;
        low as i32
    }
}

} // verus!
