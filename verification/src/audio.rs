//! The audio path: every sample leaves as it came.
use vstd::prelude::*;

verus! {

/// What a channel of output holds after the input was copied over it: the
/// input, as far as both reach; beyond that, what it held before.
pub open spec fn copied_over<T>(input: Seq<T>, before: Seq<T>) -> Seq<T> {
    Seq::new(
        before.len(),
        |i: int|
            if i < input.len() {
                input[i]
            } else {
                before[i]
            },
    )
}

/// Copies one channel of input to one channel of output, sample for sample.
pub fn copy_samples<T: Copy>(input: &[T], output: &mut [T])
    ensures
        final(output)@ == copied_over(input@, old(output)@),
        input@.len() == old(output)@.len() ==> final(output)@ == input@,
{
    let n: usize = if input.len() < output.len() {
        input.len()
    } else {
        output.len()
    };
    let mut i: usize = 0;
    while i < n
        invariant
            i <= n,
            n <= input@.len(),
            n <= output@.len(),
            output@.len() == old(output)@.len(),
            forall|k: int| 0 <= k < i ==> output@[k] == input@[k],
            forall|k: int| i <= k < output@.len() ==> output@[k] == old(output)@[k],
        decreases n - i,
    {
        output[i] = input[i];
        i = i + 1;
    }
    assert(output@ =~= copied_over(input@, old(output)@));
}

/// What a block of output holds after the input was copied over it, channel
/// for channel.
pub open spec fn block_copied_over<T>(inputs: Seq<Vec<T>>, before: Seq<Vec<T>>) -> Seq<Seq<T>> {
    Seq::new(
        before.len(),
        |c: int|
            if c < inputs.len() {
                copied_over(inputs[c]@, before[c]@)
            } else {
                before[c]@
            },
    )
}

/// The samples of a block, channel by channel.
pub open spec fn samples_of<T>(block: Seq<Vec<T>>) -> Seq<Seq<T>> {
    Seq::new(block.len(), |c: int| block[c]@)
}

/// Two blocks have as many channels, and channel for channel as many samples.
pub open spec fn same_shape<T>(a: Seq<Vec<T>>, b: Seq<Vec<T>>) -> bool {
    &&& a.len() == b.len()
    &&& forall|c: int| 0 <= c < a.len() ==> (#[trigger] a[c])@.len() == b[c]@.len()
}

/// Copying over a block of the same shape leaves the input, whatever the
/// output held.
pub proof fn lemma_copy_is_identity<T>(inputs: Seq<Vec<T>>, before: Seq<Vec<T>>)
    requires
        same_shape(inputs, before),
    ensures
        block_copied_over(inputs, before) == samples_of(inputs),
{
    assert forall|c: int| 0 <= c < inputs.len() implies copied_over(inputs[c]@, before[c]@)
        == inputs[c]@ by {
        assert(inputs[c]@.len() == before[c]@.len());
        assert(copied_over(inputs[c]@, before[c]@) =~= inputs[c]@);
    }
    assert(block_copied_over(inputs, before) =~= samples_of(inputs));
}

/// Copies a block of audio from the input to the output, channel for channel
/// and sample for sample. Where both have the same shape, the output then is
/// the input.
pub fn pass_through<T: Copy>(inputs: &[Vec<T>], outputs: &mut [Vec<T>])
    ensures
        samples_of(final(outputs)@) == block_copied_over(inputs@, old(outputs)@),
        same_shape(inputs@, old(outputs)@) ==> samples_of(final(outputs)@) == samples_of(inputs@),
{
    proof {
        if same_shape(inputs@, old(outputs)@) {
            lemma_copy_is_identity(inputs@, old(outputs)@);
        }
    }
    let n: usize = if inputs.len() < outputs.len() {
        inputs.len()
    } else {
        outputs.len()
    };
    let mut c: usize = 0;
    while c < n
        invariant
            c <= n,
            n <= inputs@.len(),
            n <= outputs@.len(),
            outputs@.len() == old(outputs)@.len(),
            forall|k: int|
                0 <= k < c ==> (#[trigger] outputs@[k])@ == copied_over(
                    inputs@[k]@,
                    old(outputs)@[k]@,
                ),
            forall|k: int| c <= k < outputs@.len() ==> outputs@[k] == old(outputs)@[k],
        decreases n - c,
    {
        copy_samples(inputs[c].as_slice(), outputs[c].as_mut_slice());
        c = c + 1;
    }
    assert(samples_of(outputs@) =~= block_copied_over(inputs@, old(outputs)@));
}

} // verus!
