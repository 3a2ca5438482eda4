use vstd::prelude::*;

verus! {

/// How many times a byte occurs in a byte string.
pub open spec fn byte_count(b: Seq<u8>, x: u8) -> nat
    decreases b.len(),
{
    if b.len() == 0 {
        0
    } else {
        byte_count(b.drop_last(), x) + if b.last() == x {
            1nat
        } else {
            0nat
        }
    }
}

/// Whether a byte is an ASCII decimal digit.
pub open spec fn is_digit(c: u8) -> bool {
    48 <= c <= 57
}

/// Whether every byte is an ASCII decimal digit.
pub open spec fn all_digits(b: Seq<u8>) -> bool {
    forall|k: int| 0 <= k < b.len() ==> is_digit(#[trigger] b[k])
}

/// Whether some `n` consecutive bytes are all ASCII decimal digits.
pub open spec fn has_digit_run(b: Seq<u8>, n: nat) -> bool {
    exists|i: int| 0 <= i && i + n <= b.len() && all_digits(#[trigger] b.subrange(i, i + n))
}

/// Counts the occurrences of a byte.
pub fn count_byte(b: &[u8], x: u8) -> (r: usize)
    ensures
        r == byte_count(b@, x),
{
    let mut r: usize = 0;
    let mut i: usize = 0;
    while i < b.len()
        invariant
            i <= b@.len(),
            r <= i,
            r == byte_count(b@.take(i as int), x),
        decreases b@.len() - i,
    {
        assert(b@.take(i + 1).drop_last() =~= b@.take(i as int));
        if b[i] == x {
            r = r + 1;
        }
        i = i + 1;
    }
    assert(b@.take(i as int) =~= b@);
    r
}

/// Whether some `n` consecutive bytes are all ASCII decimal digits.
pub fn digit_run(b: &[u8], n: usize) -> (r: bool)
    requires
        n > 0,
    ensures
        r == has_digit_run(b@, n as nat),
{
    let mut run: usize = 0;
    let mut i: usize = 0;
    while i < b.len()
        invariant
            i <= b@.len(),
            run <= i,
            run < n,
            forall|k: int| i - run <= k < i ==> is_digit(#[trigger] b@[k]),
            run < i ==> !is_digit(b@[i - run - 1]),
            forall|j: int|
                0 <= j && j + n <= i ==> !all_digits(#[trigger] b@.subrange(j, j + n)),
        decreases b@.len() - i,
    {
        if 48 <= b[i] && b[i] <= 57 {
            if run + 1 == n {
                let ghost j = i + 1 - n;
                assert(all_digits(b@.subrange(j, j + n)));
                return true;
            }
            run = run + 1;
        } else {
            run = 0;
        }
        i = i + 1;
        assert forall|j: int| 0 <= j && j + n <= i implies !all_digits(
            #[trigger] b@.subrange(j, j + n),
        ) by {
            if j + n == i {
                let p = i - run - 1;
                assert(b@.subrange(j, j + n)[p - j] == b@[p]);
            }
        }
    }
    assert forall|j: int| 0 <= j && j + n <= b@.len() implies !all_digits(
        #[trigger] b@.subrange(j, j + n),
    ) by {}
    false
}

} // verus!
