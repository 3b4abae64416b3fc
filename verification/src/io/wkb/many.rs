//! Geometries stored one after the other, as the parts of a multi geometry are.

use vstd::prelude::*;

verus! {

/// The first `k` children stored from `pos` on, each read by `child`, and the position after
/// them; `None` where one of them cannot be read.
pub open spec fn spec_parse_many<T>(
    b: Seq<u8>,
    pos: int,
    k: int,
    child: spec_fn(Seq<u8>, int) -> Option<(T, int)>,
) -> Option<(Seq<T>, int)>
    decreases k,
{
    if k <= 0 {
        Some((Seq::empty(), pos))
    } else {
        match spec_parse_many(b, pos, k - 1, child) {
            None => None,
            Some((items, at)) => match child(b, at) {
                None => None,
                Some((item, end)) => Some((items.push(item), end)),
            },
        }
    }
}

/// The bytes of the first `k` of `items`, each written by `write`.
pub open spec fn spec_write_many<T>(items: Seq<T>, k: int, write: spec_fn(T) -> Seq<u8>) -> Seq<
    u8,
>
    decreases k,
{
    if k <= 0 {
        Seq::empty()
    } else {
        spec_write_many(items, k - 1, write) + write(items[k - 1])
    }
}

/// Whether `child` reads back whatever `write` wrote of an item that satisfies `ok`,
/// wherever in the bytes it was written.
pub open spec fn reads_back<T>(
    child: spec_fn(Seq<u8>, int) -> Option<(T, int)>,
    write: spec_fn(T) -> Seq<u8>,
    ok: spec_fn(T) -> bool,
) -> bool {
    forall|b: Seq<u8>, pos: int, item: T|
        #![trigger child(b, pos), write(item)]
        ok(item) && 0 <= pos && pos + write(item).len() <= b.len() && b.subrange(
            pos,
            pos + write(item).len() as int,
        ) == write(item) ==> child(b, pos) == Some((item, pos + write(item).len()))
}

/// Items written at `pos` one after the other read back as themselves.
pub proof fn lemma_read_written_many<T>(
    b: Seq<u8>,
    pos: int,
    items: Seq<T>,
    k: int,
    child: spec_fn(Seq<u8>, int) -> Option<(T, int)>,
    write: spec_fn(T) -> Seq<u8>,
    ok: spec_fn(T) -> bool,
)
    requires
        reads_back(child, write, ok),
        0 <= pos,
        0 <= k <= items.len(),
        forall|i: int| 0 <= i < k ==> ok(#[trigger] items[i]),
        pos + spec_write_many(items, k, write).len() <= b.len(),
        b.subrange(pos, pos + spec_write_many(items, k, write).len() as int) == spec_write_many(
            items,
            k,
            write,
        ),
    ensures
        spec_parse_many(b, pos, k, child) == Some(
            (items.subrange(0, k), pos + spec_write_many(items, k, write).len()),
        ),
    decreases k,
{
    if k > 0 {
        let all = spec_write_many(items, k, write);
        let head = spec_write_many(items, k - 1, write);
        let item = items[k - 1];
        let h = head.len() as int;
        let w = write(item);
        assert(b.subrange(pos, pos + h) =~= all.subrange(0, h));
        assert(all.subrange(0, h) =~= head);
        lemma_read_written_many(b, pos, items, k - 1, child, write, ok);
        let at = pos + h;
        assert(b.subrange(at, at + w.len() as int) =~= all.subrange(h, h + w.len() as int));
        assert(all.subrange(h, h + w.len() as int) =~= w);
        assert(ok(item));
        assert(child(b, at) == Some((item, at + w.len())));
        assert(items.subrange(0, k - 1).push(item) =~= items.subrange(0, k));
    } else {
        assert(items.subrange(0, 0) =~= Seq::<T>::empty());
    }
}

/// Where the first `j` children cannot be read, neither can more.
pub proof fn lemma_parse_many_none<T>(
    b: Seq<u8>,
    pos: int,
    j: int,
    k: int,
    child: spec_fn(Seq<u8>, int) -> Option<(T, int)>,
)
    requires
        0 <= j <= k,
        spec_parse_many(b, pos, j, child) is None,
    ensures
        spec_parse_many(b, pos, k, child) is None,
    decreases k - j,
{
    if j < k {
        lemma_parse_many_none(b, pos, j, k - 1, child);
    }
}

/// What was read is as many children as were asked for, each of them one that `ok` accepts,
/// where `child` reads no others.
pub proof fn lemma_parse_many_ok<T>(
    b: Seq<u8>,
    pos: int,
    k: int,
    child: spec_fn(Seq<u8>, int) -> Option<(T, int)>,
    ok: spec_fn(T) -> bool,
)
    requires
        0 <= k,
        forall|bb: Seq<u8>, p: int|
            (#[trigger] child(bb, p)) is Some ==> ok(child(bb, p)->Some_0.0),
        spec_parse_many(b, pos, k, child) is Some,
    ensures
        spec_parse_many(b, pos, k, child)->Some_0.0.len() == k,
        forall|i: int| 0 <= i < k ==> ok(#[trigger] spec_parse_many(b, pos, k, child)->Some_0.0[i]),
    decreases k,
{
    if k > 0 {
        lemma_parse_many_ok(b, pos, k - 1, child, ok);
        let before = spec_parse_many(b, pos, k - 1, child)->Some_0;
        assert(child(b, before.1) is Some);
    }
}

} // verus!
