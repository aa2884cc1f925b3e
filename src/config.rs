use vstd::prelude::*;

verus! {

/// Errors a detector reports instead of stopping the process.
#[derive(Clone, Copy, Debug, PartialEq, Eq, Structural)]
pub enum PitchError {
    /// The transform size is not a power of two.
    ConfigurationError,
    /// The audio buffer's length differs from the configured input size.
    InputSizeMismatch,
}

/// Whether `n` is a power of two.
pub open spec fn is_power_of_two(n: nat) -> bool
    decreases n,
{
    if n == 0 {
        false
    } else if n == 1 {
        true
    } else {
        n % 2 == 0 && is_power_of_two(n / 2)
    }
}

/// Accepts an input size only if it is a power of two.
pub fn check_input_size(size: usize) -> (r: Result<(), PitchError>)
    ensures
        r is Ok <==> is_power_of_two(size as nat),
        r is Err ==> r == Err::<(), PitchError>(PitchError::ConfigurationError),
{
    if size == 0 {
        return Err(PitchError::ConfigurationError);
    }
    let mut m: usize = size;
    while m > 1 && m % 2 == 0
        invariant
            m >= 1,
            is_power_of_two(size as nat) == is_power_of_two(m as nat),
        decreases m,
    {
        m = m / 2;
    }
    if m == 1 {
        Ok(())
    } else {
        Err(PitchError::ConfigurationError)
    }
}

/// Accepts an audio buffer only if its length is the configured input size.
pub fn check_buffer_len(input_size: usize, len: usize) -> (r: Result<(), PitchError>)
    ensures
        r is Ok <==> len == input_size,
        r is Err ==> r == Err::<(), PitchError>(PitchError::InputSizeMismatch),
{
    if len == input_size {
        Ok(())
    } else {
        Err(PitchError::InputSizeMismatch)
    }
}

} // verus!
