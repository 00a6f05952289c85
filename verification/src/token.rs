use vstd::prelude::*;

verus! {

/// Why the buffer for a token's user information cannot be sized.
#[derive(Debug, Clone, Copy, PartialEq, Eq)]
pub enum TokenBufferError {
    /// The size query reported that zero bytes are needed.
    EmptyUserBuffer,
}

/// `a / b` rounded up.
pub open spec fn div_ceil(a: nat, b: nat) -> nat
    recommends
        b > 0,
{
    if a % b == 0 {
        (a / b) as nat
    } else {
        (a / b + 1) as nat
    }
}

/// The number of machine words needed to hold `needed` bytes of token user
/// information, or an error when the size query reported zero bytes.
pub fn token_user_buffer_words(needed: u32) -> (words: Result<usize, TokenBufferError>)
    ensures
        needed == 0 <==> words == Err::<usize, TokenBufferError>(TokenBufferError::EmptyUserBuffer),
        words matches Ok(n) ==> n == div_ceil(
            needed as nat,
            vstd::layout::size_of::<usize>(),
        ),
        words matches Ok(n) ==> n * vstd::layout::size_of::<usize>() >= needed && (n - 1)
            * vstd::layout::size_of::<usize>() < needed,
{
    broadcast use vstd::layout::layout_of_primitives;

    if needed == 0 {
        return Err(TokenBufferError::EmptyUserBuffer);
    }
    let word = core::mem::size_of::<usize>();
    assert(word == 4 || word == 8) by {
        assert(usize::BITS == 32 || usize::BITS == 64);
    }
    let bytes = needed as usize;
    let n = if bytes % word == 0 {
        bytes / word
    } else {
        bytes / word + 1
    };
    proof {
        lemma_div_ceil_bounds(bytes as nat, word as nat);
    }
    Ok(n)
}

proof fn lemma_div_ceil_bounds(a: nat, b: nat)
    requires
        b > 0,
    ensures
        div_ceil(a, b) * b >= a,
        (div_ceil(a, b) - 1) * b < a || a == 0,
{
    assert(a == b * (a / b) + a % b) by (nonlinear_arith)
        requires
            b > 0,
    ;
    assert(0 <= a % b < b) by (nonlinear_arith)
        requires
            b > 0,
    ;
    if a % b == 0 {
        assert(div_ceil(a, b) * b == a) by (nonlinear_arith)
            requires
                a == b * (a / b) + a % b,
                a % b == 0,
                div_ceil(a, b) == a / b,
        ;
        assert((div_ceil(a, b) - 1) * b == a - b) by (nonlinear_arith)
            requires
                div_ceil(a, b) * b == a,
        ;
    } else {
        assert(div_ceil(a, b) * b == b * (a / b) + b) by (nonlinear_arith)
            requires
                div_ceil(a, b) == a / b + 1,
        ;
        assert((div_ceil(a, b) - 1) * b == b * (a / b)) by (nonlinear_arith)
            requires
                div_ceil(a, b) == a / b + 1,
        ;
    }
}

} // verus!
