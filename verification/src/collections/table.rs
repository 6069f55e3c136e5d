//! The hash index of an archived map: an open-addressing table whose slots
//! are empty or hold the position of an entry in the entry list. A key is
//! looked for from the slot that its hash gives, slot by slot, until it is
//! found or an empty slot is met. Nothing is ever removed.

use crate::hash::ArchiveKey;
use vstd::prelude::*;

verus! {

/// What an empty slot holds.
pub const EMPTY_SLOT: u32 = 0xffff_ffff;

/// The slot after `slot` in a table of `cap` slots.
pub open spec fn next_slot(slot: int, cap: int) -> int {
    if slot + 1 == cap {
        0
    } else {
        slot + 1
    }
}

/// The entry that a search for `key` finds when it has `steps` slots left to
/// look at, starting with `slot`.
pub open spec fn find<K: ArchiveKey>(
    table: Seq<u32>,
    keys: Seq<K::Model>,
    key: K::Model,
    slot: int,
    steps: nat,
) -> Option<int>
    decreases steps,
{
    if steps == 0 {
        None
    } else if table[slot] == EMPTY_SLOT {
        None
    } else if table[slot] < keys.len() && keys[table[slot] as int] == key {
        Some(table[slot] as int)
    } else {
        find::<K>(table, keys, key, next_slot(slot, table.len() as int), (steps - 1) as nat)
    }
}

/// The slot at which the search for a key with the hash `hash` starts.
pub open spec fn start_slot(hash: u64, cap: nat) -> int {
    (hash as int) % (cap as int)
}

/// The entry that a lookup of `key` finds.
pub open spec fn lookup<K: ArchiveKey>(
    table: Seq<u32>,
    keys: Seq<K::Model>,
    key: K::Model,
) -> Option<int> {
    if table.len() == 0 {
        None
    } else {
        find::<K>(table, keys, key, start_slot(K::spec_hash(key), table.len()), table.len())
    }
}

/// The index agrees with the entries: the lookup of the key of each entry
/// finds that entry.
pub open spec fn index_ok<K: ArchiveKey>(table: Seq<u32>, keys: Seq<K::Model>) -> bool {
    &&& table.len() > 0
    &&& forall|i: int|
        0 <= i < keys.len() ==> lookup::<K>(table, keys, #[trigger] keys[i]) == Some(i)
}

/// The first empty slot that a search with `steps` slots left meets from
/// `slot` on, or the slot at which it gives up.
pub open spec fn first_empty(table: Seq<u32>, slot: int, steps: nat) -> int
    decreases steps,
{
    if steps == 0 || table[slot] == EMPTY_SLOT {
        slot
    } else {
        first_empty(table, next_slot(slot, table.len() as int), (steps - 1) as nat)
    }
}

/// The table after `entry`, whose key has the hash `hash`, has been put into
/// the first empty slot on its way.
pub open spec fn placed(table: Seq<u32>, hash: u64, entry: u32) -> Seq<u32> {
    table.update(first_empty(table, start_slot(hash, table.len()), table.len()), entry)
}

/// The table of `cap` slots after the first `n` of the entries with the
/// keys `keys` have been put into it, in order.
pub open spec fn index_from<K: ArchiveKey>(keys: Seq<K::Model>, cap: nat, n: nat) -> Seq<u32>
    decreases n,
{
    if n == 0 {
        Seq::new(cap, |j: int| EMPTY_SLOT)
    } else {
        placed(
            index_from::<K>(keys, cap, (n - 1) as nat),
            K::spec_hash(keys[n - 1]),
            (n - 1) as u32,
        )
    }
}

/// The table of `cap` slots for the entries with the keys `keys`.
pub open spec fn index_of<K: ArchiveKey>(keys: Seq<K::Model>, cap: nat) -> Seq<u32> {
    index_from::<K>(keys, cap, keys.len())
}

/// No key occurs twice.
pub open spec fn distinct<A>(keys: Seq<A>) -> bool {
    forall|i: int, j: int| 0 <= i < j < keys.len() ==> keys[i] != keys[j]
}

/// The number of the first `n` slots that are not empty.
pub open spec fn filled(table: Seq<u32>, n: nat) -> nat
    decreases n,
{
    if n == 0 {
        0
    } else {
        filled(table, (n - 1) as nat) + if table[n - 1] != EMPTY_SLOT {
            1nat
        } else {
            0nat
        }
    }
}

/// `cap` is a power of two.
pub open spec fn is_power_of_two(cap: nat) -> bool
    decreases cap,
{
    cap == 1 || (cap > 1 && cap % 2 == 0 && is_power_of_two(cap / 2))
}

/// A table of `cap` slots takes `len` entries at the load factor
/// `num / den`, and keeps a slot empty.
pub open spec fn takes(cap: nat, len: nat, num: nat, den: nat) -> bool {
    len * den <= cap * num && len < cap
}

/// The first of `cap`, `2 * cap`, `4 * cap`, ... that takes `len` entries
/// or lies beyond `bound`.
pub open spec fn capacity_from(cap: nat, len: nat, num: nat, den: nat, bound: nat) -> nat
    decreases (if cap <= bound { bound + 1 - cap } else { 0 }),
{
    if cap == 0 || takes(cap, len, num, den) || cap > bound {
        cap
    } else {
        capacity_from(2 * cap, len, num, den, bound)
    }
}

/// The number of slots of the table for `len` entries at the load factor
/// `num / den`: the smallest power of two that takes them.
pub open spec fn capacity_for(len: nat, num: nat, den: nat) -> nat {
    capacity_from(1, len, num, den, len * den + len)
}

/// Where no slot is empty, all are counted.
pub proof fn lemma_filled_all(table: Seq<u32>, n: nat)
    requires
        n <= table.len(),
        forall|j: int| 0 <= j < n ==> table[j] != EMPTY_SLOT,
    ensures
        filled(table, n) == n,
    decreases n,
{
    if n > 0 {
        lemma_filled_all(table, (n - 1) as nat);
    }
}

/// Where every slot is empty, none is counted.
pub proof fn lemma_filled_none(table: Seq<u32>, n: nat)
    requires
        n <= table.len(),
        forall|j: int| 0 <= j < n ==> table[j] == EMPTY_SLOT,
    ensures
        filled(table, n) == 0,
    decreases n,
{
    if n > 0 {
        lemma_filled_none(table, (n - 1) as nat);
    }
}

/// Filling an empty slot adds one to the count.
pub proof fn lemma_filled_update(table: Seq<u32>, n: nat, at: int, entry: u32)
    requires
        n <= table.len(),
        0 <= at < table.len(),
        table[at] == EMPTY_SLOT,
        entry != EMPTY_SLOT,
    ensures
        filled(table.update(at, entry), n) == filled(table, n) + if at < n {
            1nat
        } else {
            0nat
        },
    decreases n,
{
    if n > 0 {
        lemma_filled_update(table, (n - 1) as nat, at, entry);
    }
}

/// A search that finds an entry finds the same entry after an empty slot
/// has been filled.
pub proof fn lemma_find_after_fill<K: ArchiveKey>(
    table: Seq<u32>,
    keys: Seq<K::Model>,
    key: K::Model,
    slot: int,
    steps: nat,
    at: int,
    entry: u32,
)
    requires
        0 <= slot < table.len(),
        0 <= at < table.len(),
        table[at] == EMPTY_SLOT,
        find::<K>(table, keys, key, slot, steps) is Some,
    ensures
        find::<K>(table.update(at, entry), keys, key, slot, steps) == find::<K>(
            table,
            keys,
            key,
            slot,
            steps,
        ),
    decreases steps,
{
    if steps > 0 {
        if table[slot] < keys.len() && keys[table[slot] as int] == key {
        } else {
            lemma_find_after_fill::<K>(
                table,
                keys,
                key,
                next_slot(slot, table.len() as int),
                (steps - 1) as nat,
                at,
                entry,
            );
        }
    }
}

/// What a search finds is an entry with the key that was looked for.
pub proof fn lemma_find_sound<K: ArchiveKey>(
    table: Seq<u32>,
    keys: Seq<K::Model>,
    key: K::Model,
    slot: int,
    steps: nat,
)
    requires
        0 <= slot < table.len(),
    ensures
        find::<K>(table, keys, key, slot, steps) matches Some(i) ==> 0 <= i < keys.len() && keys[i]
            == key,
    decreases steps,
{
    if steps > 0 && table[slot] != EMPTY_SLOT && !(table[slot] < keys.len()
        && keys[table[slot] as int] == key) {
        lemma_find_sound::<K>(
            table,
            keys,
            key,
            next_slot(slot, table.len() as int),
            (steps - 1) as nat,
        );
    }
}

/// Lookup law: in a table that agrees with its entries, the lookup of a key
/// finds the entry with that key if there is one, and nothing otherwise.
pub proof fn lemma_lookup<K: ArchiveKey>(table: Seq<u32>, keys: Seq<K::Model>, key: K::Model)
    requires
        index_ok::<K>(table, keys),
    ensures
        lookup::<K>(table, keys, key) matches Some(i) ==> 0 <= i < keys.len() && keys[i] == key,
        lookup::<K>(table, keys, key) is None ==> forall|i: int|
            0 <= i < keys.len() ==> keys[i] != key,
        forall|i: int| 0 <= i < keys.len() && keys[i] == key ==> lookup::<K>(table, keys, key)
            == Some(i),
{
    lemma_find_sound::<K>(
        table,
        keys,
        key,
        start_slot(K::spec_hash(key), table.len()),
        table.len(),
    );
    assert forall|i: int| 0 <= i < keys.len() && keys[i] == key implies lookup::<K>(
        table,
        keys,
        key,
    ) == Some(i) by {
        assert(lookup::<K>(table, keys, keys[i]) == Some(i));
    }
}

/// In a table that agrees with its entries no key occurs twice.
pub proof fn lemma_index_ok_distinct<K: ArchiveKey>(table: Seq<u32>, keys: Seq<K::Model>)
    requires
        index_ok::<K>(table, keys),
    ensures
        distinct(keys),
{
    assert forall|i: int, j: int| 0 <= i < j < keys.len() implies keys[i] != keys[j] by {
        assert(lookup::<K>(table, keys, keys[i]) == Some(i));
        assert(lookup::<K>(table, keys, keys[j]) == Some(j));
    }
}

/// The capacity that is chosen takes the entries.
pub proof fn lemma_capacity_from(cap: nat, len: nat, num: nat, den: nat, bound: nat)
    requires
        cap >= 1,
        num >= 1,
        bound == len * den + len,
    ensures
        takes(capacity_from(cap, len, num, den, bound), len, num, den),
        capacity_from(cap, len, num, den, bound) >= cap,
    decreases (if cap <= bound { bound + 1 - cap } else { 0 }),
{
    if takes(cap, len, num, den) {
    } else if cap > bound {
        assert(len * den <= cap * num) by (nonlinear_arith)
            requires
                cap > len * den + len,
                num >= 1,
                len >= 0,
                den >= 0,
        ;
    } else {
        lemma_capacity_from(2 * cap, len, num, den, bound);
    }
}

/// Twice a power of two is a power of two.
pub proof fn lemma_double_is_power_of_two(cap: nat)
    requires
        is_power_of_two(cap),
    ensures
        is_power_of_two(2 * cap),
{
    assert((2 * cap) / 2 == cap);
    assert((2 * cap) % 2 == 0);
}

/// The capacity that is chosen is a power of two, and the smallest that
/// takes the entries: half of it does not.
pub proof fn lemma_capacity_is_least(cap: nat, len: nat, num: nat, den: nat, bound: nat)
    requires
        is_power_of_two(cap),
        num >= 1,
        bound == len * den + len,
        cap == 1 || !takes(cap / 2, len, num, den),
    ensures
        is_power_of_two(capacity_from(cap, len, num, den, bound)),
        capacity_from(cap, len, num, den, bound) == 1 || !takes(
            capacity_from(cap, len, num, den, bound) / 2,
            len,
            num,
            den,
        ),
    decreases (if cap <= bound { bound + 1 - cap } else { 0 }),
{
    if takes(cap, len, num, den) {
    } else if cap > bound {
        assert(len * den <= cap * num) by (nonlinear_arith)
            requires
                cap > len * den + len,
                num >= 1,
                len >= 0,
                den >= 0,
        ;
    } else {
        lemma_double_is_power_of_two(cap);
        assert((2 * cap) / 2 == cap);
        lemma_capacity_is_least(2 * cap, len, num, den, bound);
    }
}

/// The number of slots of a table is the smallest power of two that takes
/// the entries at the load factor and leaves a slot empty.
pub proof fn lemma_capacity_for(len: nat, num: nat, den: nat)
    requires
        num >= 1,
    ensures
        is_power_of_two(capacity_for(len, num, den)),
        takes(capacity_for(len, num, den), len, num, den),
        capacity_for(len, num, den) == 1 || !takes(capacity_for(len, num, den) / 2, len, num, den),
{
    lemma_capacity_from(1, len, num, den, len * den + len);
    lemma_capacity_is_least(1, len, num, den, len * den + len);
}

/// The number of slots of the table for `len` entries at the load factor
/// `num / den`, or `None` where no table of at most `limit` slots takes
/// them.
pub fn table_capacity(len: usize, num: usize, den: usize, limit: usize) -> (r: Option<usize>)
    requires
        0 < num,
    ensures
        capacity_for(len as nat, num as nat, den as nat) <= limit ==> r == Some(
            capacity_for(len as nat, num as nat, den as nat) as usize,
        ),
        capacity_for(len as nat, num as nat, den as nat) > limit ==> r.is_none(),
        takes(capacity_for(len as nat, num as nat, den as nat), len as nat, num as nat, den as nat),
{
    let ghost bound = (len * den + len) as nat;
    proof {
        lemma_capacity_from(1, len as nat, num as nat, den as nat, bound);
        assert(len * den <= 0xffff_ffff_ffff_ffff * 0xffff_ffff_ffff_ffff) by (nonlinear_arith)
            requires
                0 <= len <= 0xffff_ffff_ffff_ffff,
                0 <= den <= 0xffff_ffff_ffff_ffff,
        ;
    }
    let need: u128 = len as u128 * den as u128;
    let mut cap: usize = 1;
    loop
        invariant
            cap >= 1,
            num >= 1,
            need == len * den,
            bound == len * den + len,
            capacity_from(cap as nat, len as nat, num as nat, den as nat, bound) == capacity_for(
                len as nat,
                num as nat,
                den as nat,
            ),
        decreases usize::MAX - cap,
    {
        if cap > limit {
            proof {
                lemma_capacity_from(cap as nat, len as nat, num as nat, den as nat, bound);
            }
            return None;
        }
        assert(cap * num <= 0xffff_ffff_ffff_ffff * 0xffff_ffff_ffff_ffff) by (nonlinear_arith)
            requires
                0 <= cap <= 0xffff_ffff_ffff_ffff,
                0 <= num <= 0xffff_ffff_ffff_ffff,
        ;
        let have: u128 = cap as u128 * num as u128;
        if need <= have && len < cap {
            return Some(cap);
        }
        proof {
            assert(cap <= len * den + len) by (nonlinear_arith)
                requires
                    !(len * den <= cap * num && len < cap),
                    num >= 1,
                    cap >= 1,
                    len >= 0,
                    den >= 0,
            ;
        }
        if cap > usize::MAX / 2 {
            proof {
                lemma_capacity_from((2 * cap) as nat, len as nat, num as nat, den as nat, bound);
            }
            return None;
        }
        cap = 2 * cap;
    }
}

/// The keys of the entries of a map, in the order of the entries.
pub open spec fn entry_keys<K: ArchiveKey, V>(entries: Seq<(K, V)>) -> Seq<K::Model> {
    Seq::new(entries.len(), |i: int| entries[i].0.model())
}

/// The table `t` holds the first `n` entries with the keys `keys`, each
/// where a lookup of its key finds it, and nothing else.
pub open spec fn holds_first<K: ArchiveKey>(t: Seq<u32>, keys: Seq<K::Model>, n: nat) -> bool {
    &&& filled(t, t.len()) == n
    &&& forall|s: int| 0 <= s < t.len() ==> t[s] == EMPTY_SLOT || #[trigger] t[s] < n
    &&& forall|j: int| 0 <= j < n ==> lookup::<K>(t, keys, #[trigger] keys[j]) == Some(j)
}

/// The search for an empty slot, `d` steps after it started at `start`, has
/// met no empty slot yet: not from `start` to `slot`, nor, where it has gone
/// round the end of the table, from `start` to the end and from the
/// beginning to `slot`.
pub open spec fn searched(t: Seq<u32>, start: int, slot: int, d: nat, wrapped: bool) -> bool {
    &&& 0 <= start < t.len()
    &&& 0 <= slot < t.len()
    &&& !wrapped ==> start <= slot && d == slot - start && forall|j: int|
        start <= j < slot ==> t[j] != EMPTY_SLOT
    &&& wrapped ==> slot <= start && d == t.len() - start + slot && (forall|j: int|
        start <= j < t.len() ==> t[j] != EMPTY_SLOT) && (forall|j: int|
        0 <= j < slot ==> t[j] != EMPTY_SLOT)
}

/// A search for an empty slot in a table that is not full comes to one, and
/// the entry that is put there is found by the lookup of its key.
pub proof fn lemma_search<K: ArchiveKey>(
    t: Seq<u32>,
    keys: Seq<K::Model>,
    i: nat,
    start: int,
    slot: int,
    d: nat,
    wrapped: bool,
)
    requires
        i < keys.len(),
        i < t.len() < EMPTY_SLOT,
        distinct(keys),
        filled(t, t.len()) == i,
        forall|s: int| 0 <= s < t.len() ==> t[s] == EMPTY_SLOT || #[trigger] t[s] < i,
        searched(t, start, slot, d, wrapped),
        d <= t.len(),
    ensures
        d < t.len(),
        0 <= first_empty(t, slot, (t.len() - d) as nat) < t.len(),
        t[first_empty(t, slot, (t.len() - d) as nat)] == EMPTY_SLOT,
        find::<K>(
            t.update(first_empty(t, slot, (t.len() - d) as nat), i as u32),
            keys,
            keys[i as int],
            slot,
            (t.len() - d) as nat,
        ) == Some(i as int),
    decreases t.len() - d,
{
    let cap = t.len();
    if d == cap {
        assert forall|j: int| 0 <= j < cap implies t[j] != EMPTY_SLOT by {
            if j < start {
            } else {
            }
        }
        lemma_filled_all(t, cap);
        assert(false);
    }
    if t[slot] != EMPTY_SLOT {
        let next = next_slot(slot, cap as int);
        let round = wrapped || slot + 1 == cap;
        assert(searched(t, start, next, d + 1, round)) by {
            if slot + 1 == cap {
                assert forall|j: int| start <= j < cap implies t[j] != EMPTY_SLOT by {
                    if j == slot {
                    }
                }
            } else if wrapped {
                assert forall|j: int| 0 <= j < next implies t[j] != EMPTY_SLOT by {
                    if j == slot {
                    }
                }
            } else {
                assert forall|j: int| start <= j < next implies t[j] != EMPTY_SLOT by {
                    if j == slot {
                    }
                }
            }
        }
        if d + 1 == cap {
            assert(round && next == start) by {
                if !round {
                }
            }
            assert forall|j: int| 0 <= j < cap implies t[j] != EMPTY_SLOT by {
                if j < start {
                } else {
                }
            }
            lemma_filled_all(t, cap);
            assert(false);
        }
        lemma_search::<K>(t, keys, i, start, next, d + 1, round);
        let found = first_empty(t, next, (cap - d - 1) as nat);
        let filled_in = t.update(found, i as u32);
        assert(filled_in[slot] == t[slot]);
        assert(t[slot] < i);
        assert(keys[t[slot] as int] != keys[i as int]);
        assert(find::<K>(filled_in, keys, keys[i as int], slot, (cap - d) as nat) == find::<K>(
            filled_in,
            keys,
            keys[i as int],
            next,
            (cap - d - 1) as nat,
        ));
    }
}

/// Putting the next entry into a table that holds the entries before it
/// gives a table that holds it too.
pub proof fn lemma_placed<K: ArchiveKey>(t: Seq<u32>, keys: Seq<K::Model>, i: nat)
    requires
        i < keys.len(),
        i < t.len() < EMPTY_SLOT,
        distinct(keys),
        holds_first::<K>(t, keys, i),
    ensures
        holds_first::<K>(placed(t, K::spec_hash(keys[i as int]), i as u32), keys, i + 1),
        placed(t, K::spec_hash(keys[i as int]), i as u32).len() == t.len(),
        t[first_empty(t, start_slot(K::spec_hash(keys[i as int]), t.len()), t.len())]
            == EMPTY_SLOT,
{
    let cap = t.len();
    let start = start_slot(K::spec_hash(keys[i as int]), cap);
    lemma_search::<K>(t, keys, i, start, start, 0, false);
    let at = first_empty(t, start, cap);
    let next = t.update(at, i as u32);
    lemma_filled_update(t, cap, at, i as u32);
    assert forall|j: int| 0 <= j < i + 1 implies lookup::<K>(next, keys, #[trigger] keys[j])
        == Some(j) by {
        if j < i {
            assert(lookup::<K>(t, keys, keys[j]) == Some(j));
            lemma_find_after_fill::<K>(
                t,
                keys,
                keys[j],
                start_slot(K::spec_hash(keys[j]), cap),
                cap,
                at,
                i as u32,
            );
        }
    }
}

/// The table that is built for entries with distinct keys holds each of the
/// first `n` of them where a lookup of its key finds it.
pub proof fn lemma_index_from<K: ArchiveKey>(keys: Seq<K::Model>, cap: nat, n: nat)
    requires
        n <= keys.len(),
        keys.len() < cap < EMPTY_SLOT,
        distinct(keys),
    ensures
        index_from::<K>(keys, cap, n).len() == cap,
        holds_first::<K>(index_from::<K>(keys, cap, n), keys, n),
    decreases n,
{
    if n == 0 {
        lemma_filled_none(index_from::<K>(keys, cap, 0), cap);
    } else {
        lemma_index_from::<K>(keys, cap, (n - 1) as nat);
        lemma_placed::<K>(index_from::<K>(keys, cap, (n - 1) as nat), keys, (n - 1) as nat);
    }
}

/// The table that is built for entries with distinct keys agrees with the
/// entries: every key is found, each at its own entry.
pub proof fn lemma_index_of<K: ArchiveKey>(keys: Seq<K::Model>, cap: nat)
    requires
        keys.len() < cap < EMPTY_SLOT,
        distinct(keys),
    ensures
        index_of::<K>(keys, cap).len() == cap,
        index_ok::<K>(index_of::<K>(keys, cap), keys),
{
    lemma_index_from::<K>(keys, cap, keys.len());
}

/// Builds the table of `cap` slots for `entries`: each entry in turn is put
/// into the first empty slot from the one that the hash of its key gives.
pub fn build_index<K: ArchiveKey, V>(entries: &[(K, V)], cap: usize) -> (table: Vec<u32>)
    requires
        entries@.len() < cap < EMPTY_SLOT,
        distinct(entry_keys(entries@)),
    ensures
        table@.len() == cap,
        table@ == index_of::<K>(entry_keys(entries@), cap as nat),
        index_ok::<K>(table@, entry_keys(entries@)),
{
    let n: usize = entries.len();
    let ghost keys = entry_keys(entries@);
    let mut table: Vec<u32> = Vec::new();
    let mut c: usize = 0;
    while c < cap
        invariant
            c <= cap,
            table@.len() == c,
            forall|j: int| 0 <= j < c ==> table@[j] == EMPTY_SLOT,
        decreases cap - c,
    {
        table.push(EMPTY_SLOT);
        c = c + 1;
    }
    proof {
        assert(table@ =~= index_from::<K>(keys, cap as nat, 0));
    }
    let mut i: usize = 0;
    while i < n
        invariant
            i <= n,
            n == entries@.len(),
            n < cap < EMPTY_SLOT,
            keys == entry_keys(entries@),
            distinct(keys),
            table@.len() == cap,
            table@ == index_from::<K>(keys, cap as nat, i as nat),
        decreases n - i,
    {
        let h: u64 = entries[i].0.hash();
        let start: usize = (h % (cap as u64)) as usize;
        let ghost t = table@;
        proof {
            lemma_index_from::<K>(keys, cap as nat, i as nat);
            lemma_placed::<K>(t, keys, i as nat);
        }
        let mut slot: usize = start;
        let mut d: usize = 0;
        while table[slot] != EMPTY_SLOT
            invariant
                0 <= slot < cap,
                d <= cap,
                table@ == t,
                t.len() == cap,
                t[first_empty(t, start as int, cap as nat)] == EMPTY_SLOT,
                first_empty(t, start as int, cap as nat) == first_empty(
                    t,
                    slot as int,
                    (cap - d) as nat,
                ),
            decreases cap - d,
        {
            if slot + 1 == cap {
                slot = 0;
            } else {
                slot = slot + 1;
            }
            d = d + 1;
        }
        table.set(slot, i as u32);
        i = i + 1;
    }
    proof {
        lemma_index_of::<K>(keys, cap as nat);
    }
    table
}

} // verus!
