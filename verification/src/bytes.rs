//! Byte buffers: filling them, spreading data over several of them, counting.
use vstd::prelude::*;
use vstd::seq_lib::lemma_flatten_concat;

use crate::error::Error;

verus! {

/// The byte that ends a line.
pub const NEWLINE: u8 = 10;

/// The byte that may stand before the one that ends a line.
pub const RETURN: u8 = 13;

/// `buffer` with `data` written over its start.
pub open spec fn overwrite(buffer: Seq<u8>, data: Seq<u8>) -> Seq<u8> {
    data + buffer.skip(data.len() as int)
}

/// The smaller of two numbers.
pub open spec fn least(a: nat, b: nat) -> nat {
    if a <= b {
        a
    } else {
        b
    }
}

/// The contents of several vectors.
pub open spec fn contents(buffers: Seq<Vec<u8>>) -> Seq<Seq<u8>> {
    buffers.map_values(|buffer: Vec<u8>| buffer@)
}

/// The contents of several slices.
pub open spec fn slices(buffers: Seq<&[u8]>) -> Seq<Seq<u8>> {
    buffers.map_values(|buffer: &[u8]| buffer@)
}

/// The lengths of several buffers.
pub open spec fn lengths(buffers: Seq<Seq<u8>>) -> Seq<nat> {
    buffers.map_values(|buffer: Seq<u8>| buffer.len())
}

/// A result that counts bytes, with the count as a number.
pub open spec fn counted(result: Result<usize, Error>) -> Result<nat, Error> {
    match result {
        Ok(count) => Ok(count as nat),
        Err(error) => Err(error),
    }
}

/// Copies `data` over the start of `buffer`.
pub fn copy_into(buffer: &mut [u8], data: &[u8])
    requires
        data@.len() <= old(buffer)@.len(),
    ensures
        final(buffer)@ == overwrite(old(buffer)@, data@),
{
    let mut at: usize = 0;
    while at < data.len()
        invariant
            at <= data@.len() <= buffer@.len(),
            buffer@.len() == old(buffer)@.len(),
            buffer@ =~= data@.take(at as int) + old(buffer)@.skip(at as int),
        decreases data@.len() - at,
    {
        buffer[at] = data[at];
        at = at + 1;
    }
}

/// One more buffer adds its bytes to the end.
pub proof fn lemma_flatten_take(buffers: Seq<Seq<u8>>, at: int)
    requires
        0 <= at < buffers.len(),
    ensures
        buffers.take(at + 1).flatten() == buffers.take(at).flatten() + buffers[at],
{
    assert(buffers.take(at + 1) =~= buffers.take(at).push(buffers[at]));
    buffers.take(at).lemma_flatten_push(buffers[at]);
}

/// The first buffers joined with the others give all of them.
pub proof fn lemma_flatten_prefix(buffers: Seq<Seq<u8>>, at: int)
    requires
        0 <= at <= buffers.len(),
    ensures
        buffers.take(at).flatten() + buffers.skip(at).flatten() == buffers.flatten(),
{
    lemma_flatten_concat(buffers.take(at), buffers.skip(at));
    assert(buffers.take(at) + buffers.skip(at) =~= buffers);
}

/// Spreads `data` over `buffers`, each in its turn, and returns how much found room.
pub fn scatter(buffers: &mut Vec<Vec<u8>>, data: &[u8]) -> (count: usize)
    ensures
        count == least(contents(old(buffers)@).flatten().len(), data@.len()),
        lengths(contents(final(buffers)@)) == lengths(contents(old(buffers)@)),
        contents(final(buffers)@).flatten() == overwrite(
            contents(old(buffers)@).flatten(),
            data@.take(count as int),
        ),
{
    let ghost before = contents(old(buffers)@);
    let mut used: usize = 0;
    let mut at: usize = 0;
    while at < buffers.len()
        invariant
            before == contents(old(buffers)@),
            at <= buffers@.len() == old(buffers)@.len(),
            used == least(before.take(at as int).flatten().len(), data@.len()),
            forall|i: int|
                0 <= i < buffers@.len() ==> buffers@[i]@.len() == #[trigger] before[i].len(),
            forall|i: int| at <= i < buffers@.len() ==> (#[trigger] buffers@[i])@ == before[i],
            contents(buffers@).take(at as int).flatten() == overwrite(
                before.take(at as int).flatten(),
                data@.take(used as int),
            ),
        decreases buffers@.len() - at,
    {
        let ghost now = contents(buffers@);
        let room: usize = buffers[at].len();
        let count: usize = if room <= data.len() - used {
            room
        } else {
            data.len() - used
        };
        let part = vstd::slice::slice_subrange(data, used, used + count);
        let mut filled: Vec<u8> = Vec::new();
        filled.extend_from_slice(part);
        filled.extend_from_slice(
            vstd::slice::slice_subrange(buffers[at].as_slice(), count, room),
        );
        proof {
            assert(buffers@[at as int]@ == before[at as int]);
            assert(part@ =~= data@.subrange(used as int, used + count));
            assert(filled@ =~= overwrite(before[at as int], part@));
            lemma_flatten_take(before, at as int);
        }
        buffers.set(at, filled);
        proof {
            let after = contents(buffers@);
            assert(after.take(at as int) =~= now.take(at as int));
            lemma_flatten_take(after, at as int);
            assert(after.take(at + 1).flatten() == now.take(at as int).flatten() + filled@);
            assert(now.take(at as int).flatten() + filled@ =~= overwrite(
                before.take(at + 1).flatten(),
                data@.take(used + count),
            ));
        }
        used = used + count;
        at = at + 1;
    }
    proof {
        assert(before.take(at as int) =~= before);
        assert(contents(buffers@).take(at as int) =~= contents(buffers@));
        assert(lengths(contents(buffers@)) =~= lengths(before));
    }
    used
}

/// The number of bytes in several buffers.
pub fn total(buffers: &[&[u8]]) -> (sum: usize)
    requires
        slices(buffers@).flatten().len() <= usize::MAX,
    ensures
        sum == slices(buffers@).flatten().len(),
{
    let ghost all = slices(buffers@);
    let mut sum: usize = 0;
    let mut at: usize = 0;
    while at < buffers.len()
        invariant
            all == slices(buffers@),
            all.flatten().len() <= usize::MAX,
            at <= buffers@.len(),
            sum == all.take(at as int).flatten().len(),
        decreases buffers@.len() - at,
    {
        proof {
            lemma_flatten_take(all, at as int);
            lemma_flatten_prefix(all, at + 1);
        }
        sum = sum + buffers[at].len();
        at = at + 1;
    }
    assert(all.take(at as int) =~= all);
    sum
}

/// The number of bytes in several vectors.
pub fn total_len(buffers: &Vec<Vec<u8>>) -> (sum: usize)
    requires
        contents(buffers@).flatten().len() <= usize::MAX,
    ensures
        sum == contents(buffers@).flatten().len(),
{
    let ghost all = contents(buffers@);
    let mut sum: usize = 0;
    let mut at: usize = 0;
    while at < buffers.len()
        invariant
            all == contents(buffers@),
            all.flatten().len() <= usize::MAX,
            at <= buffers@.len(),
            sum == all.take(at as int).flatten().len(),
        decreases buffers@.len() - at,
    {
        proof {
            lemma_flatten_take(all, at as int);
            lemma_flatten_prefix(all, at + 1);
        }
        sum = sum + buffers[at].len();
        at = at + 1;
    }
    assert(all.take(at as int) =~= all);
    sum
}

/// The number of bytes in several buffers, or `limit` where there are more.
pub fn total_within(buffers: &[&[u8]], limit: usize) -> (sum: usize)
    ensures
        sum == least(limit as nat, slices(buffers@).flatten().len()),
{
    let ghost all = slices(buffers@);
    let mut sum: usize = 0;
    let mut at: usize = 0;
    while at < buffers.len()
        invariant
            all == slices(buffers@),
            at <= buffers@.len(),
            sum == all.take(at as int).flatten().len() <= limit,
        decreases buffers@.len() - at,
    {
        proof {
            lemma_flatten_take(all, at as int);
            lemma_flatten_prefix(all, at + 1);
        }
        if buffers[at].len() >= limit - sum {
            return limit;
        }
        sum = sum + buffers[at].len();
        at = at + 1;
    }
    assert(all.take(at as int) =~= all);
    sum
}

/// Copies of several buffers.
pub fn copies(buffers: &[&[u8]]) -> (copied: Vec<Vec<u8>>)
    ensures
        contents(copied@) == slices(buffers@),
{
    let mut copied: Vec<Vec<u8>> = Vec::new();
    let mut at: usize = 0;
    while at < buffers.len()
        invariant
            at <= buffers@.len(),
            copied@.len() == at,
            forall|i: int| 0 <= i < at ==> (#[trigger] copied@[i])@ == buffers@[i]@,
        decreases buffers@.len() - at,
    {
        copied.push(vstd::slice::slice_to_vec(buffers[at]));
        at = at + 1;
    }
    assert(contents(copied@) =~= slices(buffers@));
    copied
}

/// What is left of several buffers when `count` bytes have been taken from their start: buffers
/// that were used up are dropped, and so are the empty ones before the first byte that is left.
pub open spec fn advance(buffers: Seq<Seq<u8>>, count: nat) -> Seq<Seq<u8>>
    decreases buffers.len(),
{
    if buffers.len() == 0 {
        buffers
    } else if buffers[0].len() <= count {
        advance(buffers.drop_first(), (count - buffers[0].len()) as nat)
    } else {
        seq![buffers[0].skip(count as int)] + buffers.drop_first()
    }
}

/// Taking `count` bytes from several buffers leaves their other bytes, in order.
pub proof fn lemma_advance(buffers: Seq<Seq<u8>>, count: nat)
    requires
        count <= buffers.flatten().len(),
    ensures
        advance(buffers, count).flatten() == buffers.flatten().skip(count as int),
        advance(buffers, count).len() > 0 <==> count < buffers.flatten().len(),
    decreases buffers.len(),
{
    if buffers.len() == 0 {
        assert(buffers.flatten().skip(0) =~= buffers.flatten());
    } else if buffers[0].len() <= count {
        let rest = (count - buffers[0].len()) as nat;
        lemma_advance(buffers.drop_first(), rest);
        assert(buffers.flatten().skip(count as int) =~= buffers.drop_first().flatten().skip(
            rest as int,
        ));
    } else {
        let tail = seq![buffers[0].skip(count as int)] + buffers.drop_first();
        assert(tail.drop_first() =~= buffers.drop_first());
        assert(tail.flatten() =~= buffers.flatten().skip(count as int));
    }
}

/// Takes `count` bytes from the start of several buffers.
pub fn advance_slices<'a>(buffers: &[&'a [u8]], count: usize) -> (left: Vec<&'a [u8]>)
    requires
        count <= slices(buffers@).flatten().len(),
    ensures
        slices(left@) == advance(slices(buffers@), count as nat),
{
    let ghost all = slices(buffers@);
    let mut more: usize = count;
    let mut at: usize = 0;
    assert(all.skip(0) =~= all);
    while at < buffers.len() && buffers[at].len() <= more
        invariant
            all == slices(buffers@),
            at <= buffers@.len(),
            advance(all.skip(at as int), more as nat) == advance(all, count as nat),
        decreases buffers@.len() - at,
    {
        assert(all.skip(at as int)[0] == buffers@[at as int]@);
        assert(all.skip(at as int).drop_first() =~= all.skip(at + 1));
        more = more - buffers[at].len();
        at = at + 1;
    }
    let mut left: Vec<&'a [u8]> = Vec::new();
    if at < buffers.len() {
        let head: &'a [u8] = buffers[at];
        left.push(vstd::slice::slice_subrange(head, more, head.len()));
        let ghost first = at;
        assert(left@[0]@ =~= all[first as int].skip(more as int));
        at = at + 1;
        while at < buffers.len()
            invariant
                all == slices(buffers@),
                first < at <= buffers@.len(),
                left@.len() == at - first,
                left@[0]@ == all[first as int].skip(more as int),
                forall|i: int| 1 <= i < left@.len() ==> (#[trigger] left@[i])@ == all[first + i],
            decreases buffers@.len() - at,
        {
            left.push(buffers[at]);
            at = at + 1;
        }
        assert(all.skip(first as int)[0] == all[first as int]);
        assert(slices(left@) =~= seq![all[first as int].skip(more as int)] + all.skip(
            first as int,
        ).drop_first());
    } else {
        assert(all.skip(at as int) =~= Seq::empty());
        assert(slices(left@) =~= Seq::empty());
    }
    left
}

} // verus!
