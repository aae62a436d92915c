//! Finding a byte.
use vstd::prelude::*;

verus! {

/// How many bytes `data` has up to and with the first `byte`, if there is one.
pub open spec fn through_first(data: Seq<u8>, byte: u8) -> Option<nat>
    decreases data.len(),
{
    if data.len() == 0 {
        None
    } else if data[0] == byte {
        Some(1)
    } else {
        match through_first(data.drop_first(), byte) {
            Some(len) => Some(len + 1),
            None => None,
        }
    }
}

/// How many bytes `data` has up to and with the last `byte`, none if it does not occur.
pub open spec fn through_last(data: Seq<u8>, byte: u8) -> nat
    decreases data.len(),
{
    if data.len() == 0 {
        0
    } else if data.last() == byte {
        data.len()
    } else {
        through_last(data.drop_last(), byte)
    }
}

/// [`through_first`] finds the first occurrence.
pub proof fn lemma_through_first(data: Seq<u8>, byte: u8)
    ensures
        match through_first(data, byte) {
            Some(len) => {
                &&& 0 < len <= data.len()
                &&& data[len - 1] == byte
                &&& forall|i: int| 0 <= i < len - 1 ==> data[i] != byte
            },
            None => forall|i: int| 0 <= i < data.len() ==> data[i] != byte,
        },
    decreases data.len(),
{
    if data.len() != 0 && data[0] != byte {
        let rest = data.drop_first();
        lemma_through_first(rest, byte);
        assert forall|i: int| 1 <= i < data.len() implies data[i] == rest[i - 1] by {}
    }
}

/// [`through_last`] finds the last occurrence.
pub proof fn lemma_through_last(data: Seq<u8>, byte: u8)
    ensures
        through_last(data, byte) <= data.len(),
        through_last(data, byte) > 0 ==> data[through_last(data, byte) - 1] == byte,
        forall|i: int| through_last(data, byte) <= i < data.len() ==> data[i] != byte,
    decreases data.len(),
{
    if data.len() != 0 && data.last() != byte {
        lemma_through_last(data.drop_last(), byte);
        assert forall|i: int| 0 <= i < data.len() - 1 implies data[i] == data.drop_last()[i] by {}
    }
}

/// Finds the first `byte`: the number of bytes up to and with it.
pub fn find_first(data: &[u8], byte: u8) -> (found: Option<usize>)
    ensures
        match found {
            Some(len) => through_first(data@, byte) == Some(len as nat),
            None => through_first(data@, byte) is None,
        },
{
    proof {
        lemma_through_first(data@, byte);
    }
    let mut at: usize = 0;
    while at < data.len()
        invariant
            at <= data@.len(),
            forall|i: int| 0 <= i < at ==> data@[i] != byte,
            match through_first(data@, byte) {
                Some(len) => {
                    &&& 0 < len <= data@.len()
                    &&& data@[len - 1] == byte
                    &&& forall|i: int| 0 <= i < len - 1 ==> data@[i] != byte
                },
                None => forall|i: int| 0 <= i < data@.len() ==> data@[i] != byte,
            },
        decreases data@.len() - at,
    {
        if data[at] == byte {
            return Some(at + 1);
        }
        at = at + 1;
    }
    None
}

/// Finds the last `byte`: the number of bytes up to and with it, none if it does not occur.
pub fn find_last(data: &[u8], byte: u8) -> (len: usize)
    ensures
        len == through_last(data@, byte),
{
    let mut len: usize = data.len();
    assert(data@.take(len as int) =~= data@);
    while len > 0
        invariant
            len <= data@.len(),
            through_last(data@.take(len as int), byte) == through_last(data@, byte),
        decreases len,
    {
        if data[len - 1] == byte {
            return len;
        }
        assert(data@.take(len as int).drop_last() =~= data@.take(len - 1));
        len = len - 1;
    }
    len
}

} // verus!
