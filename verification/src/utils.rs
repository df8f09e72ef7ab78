//! Small slice utilities shared by the parsers.

use vstd::prelude::*;

verus! {

/// Removes the last element from a slice.
pub fn remove_last(slice: &[u8]) -> (r: &[u8])
    requires
        slice@.len() > 0,
    ensures
        r@ == slice@.subrange(0, slice@.len() - 1),
{
    vstd::slice::slice_subrange(slice, 0, slice.len() - 1)
}

/// Drops a single trailing ASCII whitespace byte, if the slice ends in one.
pub fn trim_whitespace(x: &[u8]) -> (r: &[u8])
    ensures
        r@ == spec_trim_whitespace(x@),
{
    if x.len() > 0 && is_ascii_whitespace(x[x.len() - 1]) {
        vstd::slice::slice_subrange(x, 0, x.len() - 1)
    } else {
        x
    }
}

/// Index of the first occurrence of a byte, if any.
pub open spec fn first_index_of(s: Seq<u8>, b: u8) -> Option<int>
    decreases s.len(),
{
    if s.len() == 0 {
        None
    } else if s[0] == b {
        Some(0)
    } else {
        match first_index_of(s.drop_first(), b) {
            Some(i) => Some(i + 1),
            None => None,
        }
    }
}

/// What `first_index_of` means: the byte stands there and nowhere earlier.
pub proof fn lemma_first_index_of(s: Seq<u8>, b: u8)
    ensures
        match first_index_of(s, b) {
            Some(i) => 0 <= i < s.len() && s[i] == b && forall|j: int| 0 <= j < i ==> s[j] != b,
            None => forall|j: int| 0 <= j < s.len() ==> s[j] != b,
        },
    decreases s.len(),
{
    if s.len() > 0 && s[0] != b {
        let t = s.drop_first();
        lemma_first_index_of(t, b);
        assert(forall|j: int| 0 <= j < t.len() ==> t[j] == s[j + 1]);
        match first_index_of(t, b) {
            Some(i) => {
                assert(s[i + 1] == b);
                assert forall|j: int| 0 <= j < i + 1 implies s[j] != b by {
                    if j > 0 {
                        assert(t[j - 1] != b);
                    }
                }
            },
            None => {
                assert forall|j: int| 0 <= j < s.len() implies s[j] != b by {
                    if j > 0 {
                        assert(t[j - 1] != b);
                    }
                }
            },
        }
    }
}

/// A found position with nothing earlier is the first index.
pub proof fn lemma_first_index_of_is(s: Seq<u8>, b: u8, i: int)
    requires
        0 <= i < s.len(),
        s[i] == b,
        forall|j: int| 0 <= j < i ==> s[j] != b,
    ensures
        first_index_of(s, b) == Some(i),
{
    lemma_first_index_of(s, b);
    match first_index_of(s, b) {
        Some(k) => {
            if k < i {
                assert(s[k] != b);
            } else if k > i {
                assert(s[i] != b);
            }
        },
        None => {
            assert(s[i] != b);
        },
    }
}

/// No occurrence anywhere means no first index.
pub proof fn lemma_first_index_of_none(s: Seq<u8>, b: u8)
    requires
        forall|j: int| 0 <= j < s.len() ==> s[j] != b,
    ensures
        first_index_of(s, b) == None::<int>,
{
    lemma_first_index_of(s, b);
    match first_index_of(s, b) {
        Some(k) => {
            assert(s[k] != b);
        },
        None => {},
    }
}

/// Scan for the first occurrence of a byte.
pub(crate) fn find_byte(s: &[u8], b: u8) -> (r: Option<usize>)
    ensures
        match r {
            Some(i) => first_index_of(s@, b) == Some(i as int),
            None => first_index_of(s@, b) == None::<int>,
        },
{
    let mut i: usize = 0;
    while i < s.len()
        invariant
            0 <= i <= s@.len(),
            forall|j: int| 0 <= j < i ==> s@[j] != b,
        decreases s@.len() - i,
    {
        if s[i] == b {
            proof {
                lemma_first_index_of_is(s@, b, i as int);
            }
            return Some(i);
        }
        i += 1;
    }
    proof {
        lemma_first_index_of_none(s@, b);
    }
    None
}

/// A byte counts as whitespace for `trim_whitespace`: space, tab, newline,
/// form feed, or carriage return.
pub open spec fn spec_is_ascii_whitespace(b: u8) -> bool {
    b == 32 || b == 9 || b == 10 || b == 12 || b == 13
}

fn is_ascii_whitespace(b: u8) -> (r: bool)
    ensures
        r == spec_is_ascii_whitespace(b),
{
    b == 32 || b == 9 || b == 10 || b == 12 || b == 13
}

/// What `trim_whitespace` returns: the input without its final byte when that
/// byte is ASCII whitespace, the input unchanged otherwise.
pub open spec fn spec_trim_whitespace(x: Seq<u8>) -> Seq<u8> {
    if x.len() > 0 && spec_is_ascii_whitespace(x[x.len() - 1]) {
        x.subrange(0, x.len() - 1)
    } else {
        x
    }
}

} // verus!

verus! {

/// Compare two byte slices for equality.
pub fn bytes_eq(a: &[u8], b: &[u8]) -> (r: bool)
    ensures
        r == (a@ == b@),
{
    if a.len() != b.len() {
        proof {
            assert(a@ != b@);
        }
        return false;
    }
    let mut i: usize = 0;
    while i < a.len()
        invariant
            0 <= i <= a@.len(),
            a@.len() == b@.len(),
            forall|j: int| 0 <= j < i ==> a@[j] == b@[j],
        decreases a@.len() - i,
    {
        if a[i] != b[i] {
            return false;
        }
        i += 1;
    }
    proof {
        assert(a@ =~= b@);
    }
    true
}

/// The input without its leading ASCII whitespace.
pub open spec fn spec_trim_start(s: Seq<u8>) -> Seq<u8>
    decreases s.len(),
{
    if s.len() > 0 && spec_is_ascii_whitespace(s[0]) {
        spec_trim_start(s.drop_first())
    } else {
        s
    }
}

/// The input without its trailing ASCII whitespace.
pub open spec fn spec_trim_end(s: Seq<u8>) -> Seq<u8>
    decreases s.len(),
{
    if s.len() > 0 && spec_is_ascii_whitespace(s[s.len() - 1]) {
        spec_trim_end(s.drop_last())
    } else {
        s
    }
}

/// The input without leading and trailing ASCII whitespace.
pub open spec fn spec_trim(s: Seq<u8>) -> Seq<u8> {
    spec_trim_end(spec_trim_start(s))
}

/// Trim ASCII whitespace from both ends.
pub fn trim_ascii(s: &[u8]) -> (r: &[u8])
    ensures
        r@ == spec_trim(s@),
{
    let mut a: usize = 0;
    proof {
        assert(s@.skip(0) =~= s@);
    }
    while a < s.len() && is_ascii_whitespace(s[a])
        invariant
            0 <= a <= s@.len(),
            spec_trim_start(s@) == spec_trim_start(s@.skip(a as int)),
        decreases s@.len() - a,
    {
        proof {
            assert(s@.skip(a as int)[0] == s@[a as int]);
            assert(s@.skip(a as int).drop_first() =~= s@.skip(a as int + 1));
        }
        a += 1;
    }
    proof {
        if a < s@.len() {
            assert(s@.skip(a as int)[0] == s@[a as int]);
        }
        assert(spec_trim_start(s@) == s@.skip(a as int));
    }
    let head = vstd::slice::slice_subrange(s, a, s.len());
    assert(head@ =~= s@.skip(a as int));
    let mut b: usize = head.len();
    proof {
        assert(head@.take(b as int) =~= head@);
    }
    while b > 0 && is_ascii_whitespace(head[b - 1])
        invariant
            0 <= b <= head@.len(),
            spec_trim_end(head@) == spec_trim_end(head@.take(b as int)),
        decreases b,
    {
        proof {
            let t = head@.take(b as int);
            assert(t[t.len() - 1] == head@[b as int - 1]);
            assert(t.drop_last() =~= head@.take(b as int - 1));
        }
        b -= 1;
    }
    proof {
        let t = head@.take(b as int);
        if b > 0 {
            assert(t[t.len() - 1] == head@[b as int - 1]);
        }
        assert(spec_trim_end(head@) == head@.take(b as int));
    }
    let r = vstd::slice::slice_subrange(head, 0, b);
    assert(r@ =~= head@.take(b as int));
    r
}

} // verus!

verus! {

/// Removes the last element if it equals the given byte.
pub fn remove_last_if_match<'a>(slice: &'a [u8], val: &u8) -> (r: &'a [u8])
    ensures
        r@ == (if slice@.len() > 0 && slice@[slice@.len() - 1] == val {
            slice@.drop_last()
        } else {
            slice@
        }),
{
    if slice.len() > 0 && slice[slice.len() - 1] == *val {
        let r = vstd::slice::slice_subrange(slice, 0, slice.len() - 1);
        assert(r@ =~= slice@.drop_last());
        r
    } else {
        slice
    }
}

/// Removes a trailing newline, if there is one.
pub fn remove_last_if_endline(slice: &[u8]) -> (r: &[u8])
    ensures
        r@ == (if slice@.len() > 0 && slice@[slice@.len() - 1] == 10u8 {
            slice@.drop_last()
        } else {
            slice@
        }),
{
    remove_last_if_match(slice, &10)
}

} // verus!
