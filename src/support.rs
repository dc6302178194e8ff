use vstd::prelude::*;

verus! {

/// The byte of `<`.
pub const LESS_THAN: u8 = 60;

/// The byte of `>`.
pub const GREATER_THAN: u8 = 62;

/// Why a text was refused.
#[derive(PartialEq, Eq, Structural, Clone, Copy, Debug)]
pub enum TextError {
    /// The text holds `<` or `>`, which markup shown off the ledger could abuse.
    AngleBracket,
}

/// Whether byte `c` is an angle bracket.
pub open spec fn is_angle_bracket(c: u8) -> bool {
    c == LESS_THAN || c == GREATER_THAN
}

/// Refuses a text that holds `<` or `>`: harmless on the ledger, but a text
/// shown elsewhere should not carry markup.
pub fn xss_check(input: &[u8]) -> (r: Result<(), TextError>)
    ensures
        r is Err <==> exists|i: int| 0 <= i < input@.len() && is_angle_bracket(#[trigger] input@[i]),
        r is Err ==> r == Err::<(), TextError>(TextError::AngleBracket),
{
    let mut i: usize = 0;
    while i < input.len()
        invariant
            i <= input@.len(),
            forall|j: int| 0 <= j < i ==> !is_angle_bracket(#[trigger] input@[j]),
        decreases input@.len() - i,
    {
        if input[i] == LESS_THAN || input[i] == GREATER_THAN {
            return Err(TextError::AngleBracket);
        }
        i = i + 1;
    }
    Ok(())
}

} // verus!
