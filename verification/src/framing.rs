use vstd::prelude::*;
use crate::error::Fault;
use crate::file_manipulator::Cursor;

verus! {

/// `n` items read one behind the other by `one`, or the first failure.
pub open spec fn parse_many<T>(
    c: Cursor,
    n: nat,
    one: spec_fn(Cursor) -> Result<(T, Cursor), Fault>,
) -> Result<(Seq<T>, Cursor), Fault>
    decreases n,
{
    if n == 0 {
        Ok((Seq::<T>::empty(), c))
    } else {
        match parse_many(c, (n - 1) as nat, one) {
            Err(e) => Err(e),
            Ok((items, c1)) => match one(c1) {
                Err(e) => Err(e),
                Ok((item, c2)) => Ok((items.push(item), c2)),
            },
        }
    }
}

/// What `f` makes of the items, one result behind the other.
pub open spec fn concat_map<T, U>(items: Seq<T>, f: spec_fn(T) -> Seq<U>) -> Seq<U>
    decreases items.len(),
{
    if items.len() == 0 {
        Seq::<U>::empty()
    } else {
        concat_map(items.drop_last(), f) + f(items.last())
    }
}

/// A failure while reading the first `k` items is the failure of reading
/// any larger number of them.
pub proof fn lemma_parse_many_fails<T>(
    c: Cursor,
    k: nat,
    n: nat,
    one: spec_fn(Cursor) -> Result<(T, Cursor), Fault>,
)
    requires
        k <= n,
        parse_many(c, k, one) is Err,
    ensures
        parse_many(c, n, one) == parse_many(c, k, one),
    decreases n,
{
    if k < n {
        lemma_parse_many_fails(c, k, (n - 1) as nat, one);
    }
}

/// The items read so far are as many as were asked for.
pub proof fn lemma_parse_many_len<T>(
    c: Cursor,
    n: nat,
    one: spec_fn(Cursor) -> Result<(T, Cursor), Fault>,
)
    ensures
        parse_many(c, n, one) matches Ok((items, _)) ==> items.len() == n,
    decreases n,
{
    if n > 0 {
        lemma_parse_many_len(c, (n - 1) as nat, one);
    }
}

/// What `f` makes of a list with one more item is what it makes of the
/// list, and what it makes of the item behind that.
pub proof fn lemma_concat_map_push<T, U>(items: Seq<T>, item: T, f: spec_fn(T) -> Seq<U>)
    ensures
        concat_map(items.push(item), f) == concat_map(items, f) + f(item),
{
    assert(items.push(item).drop_last() =~= items);
}

/// A write at the end of the buffer appends, and leaves the cursor at the
/// new end.
pub broadcast proof fn lemma_write_at_end(c: Cursor, buf: Seq<u8>)
    requires
        c.pos == c.data.len(),
    ensures
        (#[trigger] c.write(buf)).data == c.data + buf,
        c.write(buf).pos == c.write(buf).data.len(),
{
    assert(c.write(buf).data =~= c.data + buf);
}

/// The bytes of the items, each turned into bytes by `f`, one behind the
/// other, or the first failure of `f`.
pub open spec fn try_concat_map<T>(items: Seq<T>, f: spec_fn(T) -> Result<Seq<u8>, Fault>) -> Result<
    Seq<u8>,
    Fault,
>
    decreases items.len(),
{
    if items.len() == 0 {
        Ok(Seq::<u8>::empty())
    } else {
        match try_concat_map(items.drop_last(), f) {
            Err(e) => Err(e),
            Ok(head) => match f(items.last()) {
                Err(e) => Err(e),
                Ok(b) => Ok(head + b),
            },
        }
    }
}

/// A failure on the first `k` items is the failure on all of them.
pub proof fn lemma_try_concat_map_fails<T>(items: Seq<T>, k: int, f: spec_fn(T) -> Result<Seq<u8>, Fault>)
    requires
        0 <= k <= items.len(),
        try_concat_map(items.subrange(0, k), f) is Err,
    ensures
        try_concat_map(items, f) == try_concat_map(items.subrange(0, k), f),
    decreases items.len() - k,
{
    if k < items.len() {
        assert(items.subrange(0, k + 1).drop_last() =~= items.subrange(0, k));
        lemma_try_concat_map_fails(items, k + 1, f);
    } else {
        assert(items.subrange(0, k) =~= items);
    }
}

/// The items after `patch` was merged in: the first item that is the same
/// as `patch` is replaced by its merge with `patch`; without one, `patch`
/// comes last.
pub open spec fn upsert<T>(items: Seq<T>, patch: T, same: spec_fn(T, T) -> bool, merge: spec_fn(T, T) -> T) -> Seq<
    T,
>
    decreases items.len(),
{
    if items.len() == 0 {
        seq![patch]
    } else if same(items[0], patch) {
        items.update(0, merge(items[0], patch))
    } else {
        seq![items[0]] + upsert(items.drop_first(), patch, same, merge)
    }
}

/// The items after the patches were merged in, one after the other.
pub open spec fn upsert_all<T>(
    items: Seq<T>,
    patches: Seq<T>,
    same: spec_fn(T, T) -> bool,
    merge: spec_fn(T, T) -> T,
) -> Seq<T>
    decreases patches.len(),
{
    if patches.len() == 0 {
        items
    } else {
        upsert(upsert_all(items, patches.drop_last(), same, merge), patches.last(), same, merge)
    }
}

/// Where the first item that is the same as `patch` stands at `i`, the
/// merge replaces that item.
pub proof fn lemma_upsert_found<T>(
    items: Seq<T>,
    patch: T,
    same: spec_fn(T, T) -> bool,
    merge: spec_fn(T, T) -> T,
    i: int,
)
    requires
        0 <= i < items.len(),
        same(items[i], patch),
        forall|j: int| 0 <= j < i ==> !same(#[trigger] items[j], patch),
    ensures
        upsert(items, patch, same, merge) == items.update(i, merge(items[i], patch)),
    decreases i,
{
    if i > 0 {
        let rest = items.drop_first();
        assert forall|j: int| 0 <= j < i - 1 implies !same(#[trigger] rest[j], patch) by {
            assert(rest[j] == items[j + 1]);
        }
        assert(rest[i - 1] == items[i]);
        lemma_upsert_found(rest, patch, same, merge, i - 1);
        assert(seq![items[0]] + rest.update(i - 1, merge(items[i], patch)) =~= items.update(
            i,
            merge(items[i], patch),
        ));
    }
}

/// Where no item is the same as `patch`, the merge adds `patch` behind
/// the others.
pub proof fn lemma_upsert_missing<T>(
    items: Seq<T>,
    patch: T,
    same: spec_fn(T, T) -> bool,
    merge: spec_fn(T, T) -> T,
)
    requires
        forall|j: int| 0 <= j < items.len() ==> !same(#[trigger] items[j], patch),
    ensures
        upsert(items, patch, same, merge) == items.push(patch),
    decreases items.len(),
{
    if items.len() > 0 {
        let rest = items.drop_first();
        assert forall|j: int| 0 <= j < rest.len() implies !same(#[trigger] rest[j], patch) by {
            assert(rest[j] == items[j + 1]);
        }
        lemma_upsert_missing(rest, patch, same, merge);
        assert(seq![items[0]] + rest.push(patch) =~= items.push(patch));
    } else {
        assert(seq![patch] =~= items.push(patch));
    }
}

} // verus!
