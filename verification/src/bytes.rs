//! Byte-string helpers shared by the path, glob and wire-format code.

use vstd::prelude::*;

verus! {

/// The contents of a list of byte strings.
pub open spec fn texts(list: Seq<Vec<u8>>) -> Seq<Seq<u8>> {
    Seq::new(list.len(), |i: int| list[i]@)
}

/// Whether two byte strings hold the same bytes.
pub fn bytes_equal(left: &[u8], right: &[u8]) -> (equal: bool)
    ensures
        equal == (left@ == right@),
{
    if left.len() != right.len() {
        return false;
    }
    let mut at: usize = 0;
    while at < left.len()
        invariant
            at <= left.len(),
            left.len() == right.len(),
            left@.take(at as int) == right@.take(at as int),
        decreases left.len() - at,
    {
        if left[at] != right[at] {
            assert(left@[at as int] != right@[at as int]);
            return false;
        }
        assert(left@.take(at + 1) == left@.take(at as int).push(left@[at as int]));
        assert(right@.take(at + 1) == right@.take(at as int).push(right@[at as int]));
        at += 1;
    }
    assert(left@ == left@.take(at as int));
    assert(right@ == right@.take(at as int));
    true
}

/// Appends `tail` to `bytes`.
pub fn append_bytes(bytes: &mut Vec<u8>, tail: &[u8])
    ensures
        final(bytes)@ == old(bytes)@ + tail@,
{
    let mut at: usize = 0;
    while at < tail.len()
        invariant
            at <= tail.len(),
            bytes@ == old(bytes)@ + tail@.take(at as int),
        decreases tail.len() - at,
    {
        bytes.push(tail[at]);
        assert(tail@.take(at + 1) == tail@.take(at as int).push(tail@[at as int]));
        at += 1;
    }
    assert(tail@.take(at as int) == tail@);
}

/// An owned copy of `bytes`.
pub fn copy_bytes(bytes: &[u8]) -> (copy: Vec<u8>)
    ensures
        copy@ == bytes@,
{
    vstd::slice::slice_to_vec(bytes)
}

/// Where `byte` first occurs at or after `from`, as an offset into `bytes`;
/// the length of `bytes` when it does not.
pub open spec fn index_from(bytes: Seq<u8>, byte: u8, from: int) -> int
    decreases bytes.len() - from,
{
    if from < 0 || from >= bytes.len() {
        bytes.len() as int
    } else if bytes[from] == byte {
        from
    } else {
        index_from(bytes, byte, from + 1)
    }
}

/// What [`index_from`] returns is the first occurrence.
pub proof fn lemma_index_from(bytes: Seq<u8>, byte: u8, from: int)
    requires
        0 <= from <= bytes.len(),
    ensures
        from <= index_from(bytes, byte, from) <= bytes.len(),
        index_from(bytes, byte, from) < bytes.len() ==> bytes[index_from(bytes, byte, from)]
            == byte,
        forall|i: int| from <= i < index_from(bytes, byte, from) ==> bytes[i] != byte,
    decreases bytes.len() - from,
{
    if from < bytes.len() && bytes[from] != byte {
        lemma_index_from(bytes, byte, from + 1);
    }
}

/// An offset that is the first occurrence is what [`index_from`] returns.
pub proof fn lemma_index_from_unique(bytes: Seq<u8>, byte: u8, from: int, at: int)
    requires
        0 <= from <= at <= bytes.len(),
        at < bytes.len() ==> bytes[at] == byte,
        forall|i: int| from <= i < at ==> bytes[i] != byte,
    ensures
        index_from(bytes, byte, from) == at,
    decreases at - from,
{
    if from < at {
        lemma_index_from_unique(bytes, byte, from + 1, at);
    }
}

/// The offset of the first `byte` at or after `from`, or the length.
pub fn find_byte(bytes: &[u8], byte: u8, from: usize) -> (at: usize)
    requires
        from <= bytes@.len(),
    ensures
        at == index_from(bytes@, byte, from as int),
        from <= at <= bytes@.len(),
        at < bytes@.len() ==> bytes@[at as int] == byte,
        forall|i: int| from <= i < at ==> bytes@[i] != byte,
{
    let mut at: usize = from;
    while at < bytes.len() && bytes[at] != byte
        invariant
            from <= at <= bytes@.len(),
            forall|i: int| from <= i < at ==> bytes@[i] != byte,
        decreases bytes.len() - at,
    {
        at += 1;
    }
    proof {
        lemma_index_from_unique(bytes@, byte, from as int, at as int);
    }
    at
}

/// Whether `bytes` begins with `prefix`.
pub fn starts_with(bytes: &[u8], prefix: &[u8]) -> (yes: bool)
    ensures
        yes == prefix@.is_prefix_of(bytes@),
{
    if bytes.len() < prefix.len() {
        return false;
    }
    let head = vstd::slice::slice_subrange(bytes, 0, prefix.len());
    bytes_equal(head, prefix)
}

} // verus!
