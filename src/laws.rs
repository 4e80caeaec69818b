use vstd::prelude::*;
use crate::classify::ext_of;
use crate::entry::{blank, dedupe_end_of, entry_name_of, StoreError};
use crate::size::{human_size, pow1024, unit_index, unit_name};
use crate::history::{
    deleted_newest, drop_copies, has_name, store_outcome, stored_entries, EntryView,
};
use crate::preview::{one_line, prefix, text_of, text_preview_of, trim};

verus! {

/// After the copies of `b` are dropped, none is left, and every entry left
/// was in `s`; every entry of `s` with other bytes is left.
pub proof fn lemma_drop_copies(s: Seq<EntryView>, b: Seq<u8>)
    ensures
        drop_copies(s, b).len() <= s.len(),
        forall|i: int| 0 <= i < drop_copies(s, b).len() ==> (#[trigger] drop_copies(s, b)[i]).1 != b,
        forall|i: int| 0 <= i < drop_copies(s, b).len() ==> s.contains(#[trigger] drop_copies(s, b)[i]),
        forall|j: int| 0 <= j < s.len() && (#[trigger] s[j]).1 != b ==> drop_copies(s, b).contains(s[j]),
    decreases s.len(),
{
    if s.len() > 0 {
        let t = s.drop_last();
        lemma_drop_copies(t, b);
        let d = drop_copies(s, b);
        let e = drop_copies(t, b);
        assert forall|i: int| 0 <= i < d.len() implies s.contains(#[trigger] d[i]) by {
            if i < e.len() {
                assert(d[i] == e[i]);
                let k = choose|k: int| 0 <= k < t.len() && t[k] == e[i];
                assert(s[k] == t[k]);
            } else {
                assert(d[i] == s[s.len() - 1]);
            }
        }
        assert forall|j: int| 0 <= j < s.len() && (#[trigger] s[j]).1 != b implies d.contains(s[j]) by {
            if j < s.len() - 1 {
                assert(t[j] == s[j]);
                let k = choose|k: int| 0 <= k < e.len() && e[k] == t[j];
                assert(d[k] == e[k]);
            } else {
                assert(d[d.len() - 1] == s[j]);
            }
        }
    }
}

/// Storing a capture that is not blank, within the size limit and under a
/// name not yet taken makes it the newest entry, so that index 0 then gives
/// back exactly its bytes.
pub proof fn law_store_then_decode_newest(
    v: Seq<EntryView>,
    b: Seq<u8>,
    size_limit: nat,
    dedupe_limit: nat,
    timestamp: int,
)
    requires
        !blank(b),
        b.len() <= size_limit,
        !has_name(v, entry_name_of(timestamp, ext_of(b))),
    ensures
        store_outcome(v, b, size_limit, timestamp) == Ok::<bool, StoreError>(true),
        stored_entries(v, b, size_limit, dedupe_limit, timestamp).len() > 0,
        stored_entries(v, b, size_limit, dedupe_limit, timestamp)[0] == (
            entry_name_of(timestamp, ext_of(b)),
            b,
        ),
{
}

/// Storing a blank capture leaves the history as it was.
pub proof fn law_blank_store_keeps_history(
    v: Seq<EntryView>,
    b: Seq<u8>,
    size_limit: nat,
    dedupe_limit: nat,
    timestamp: int,
)
    requires
        blank(b),
    ensures
        store_outcome(v, b, size_limit, timestamp) == Ok::<bool, StoreError>(false),
        stored_entries(v, b, size_limit, dedupe_limit, timestamp) == v,
{
}

/// Storing a capture over the size limit fails and leaves the history as it was.
pub proof fn law_oversize_store_fails(
    v: Seq<EntryView>,
    b: Seq<u8>,
    size_limit: nat,
    dedupe_limit: nat,
    timestamp: int,
)
    requires
        !blank(b),
        b.len() > size_limit,
    ensures
        store_outcome(v, b, size_limit, timestamp) == Err::<bool, StoreError>(StoreError::TooLarge),
        stored_entries(v, b, size_limit, dedupe_limit, timestamp) == v,
{
}

/// Storing under a name that is taken fails and leaves the history as it was.
pub proof fn law_taken_name_store_fails(
    v: Seq<EntryView>,
    b: Seq<u8>,
    size_limit: nat,
    dedupe_limit: nat,
    timestamp: int,
)
    requires
        !blank(b),
        b.len() <= size_limit,
        has_name(v, entry_name_of(timestamp, ext_of(b))),
    ensures
        store_outcome(v, b, size_limit, timestamp) == Err::<bool, StoreError>(StoreError::Exists),
        stored_entries(v, b, size_limit, dedupe_limit, timestamp) == v,
{
}

/// A store removes only entries with the stored bytes: every older entry with
/// other bytes is still there, under its name, and so is every entry beyond
/// the deduplication window, whatever its bytes.
pub proof fn law_store_removes_only_copies(
    v: Seq<EntryView>,
    b: Seq<u8>,
    size_limit: nat,
    dedupe_limit: nat,
    timestamp: int,
)
    ensures
        forall|j: int|
            0 <= j < v.len() && ((#[trigger] v[j]).1 != b || j >= dedupe_limit) ==> stored_entries(
                v,
                b,
                size_limit,
                dedupe_limit,
                timestamp,
            ).contains(v[j]),
{
    let r = stored_entries(v, b, size_limit, dedupe_limit, timestamp);
    if store_outcome(v, b, size_limit, timestamp) == Ok::<bool, StoreError>(true) {
        let w = (dedupe_end_of(v.len() + 1, dedupe_limit) - 1) as int;
        let d = drop_copies(v.take(w), b);
        lemma_drop_copies(v.take(w), b);
        assert forall|j: int|
            0 <= j < v.len() && ((#[trigger] v[j]).1 != b || j >= dedupe_limit) implies r.contains(v[j]) by {
            if j < w {
                assert(v.take(w)[j] == v[j]);
                let k = choose|k: int| 0 <= k < d.len() && d[k] == v.take(w)[j];
                assert(r[1 + k] == d[k]);
            } else {
                assert(r[1 + d.len() + j - w] == v.skip(w)[j - w]);
            }
        }
    } else {
        assert forall|j: int|
            0 <= j < v.len() && ((#[trigger] v[j]).1 != b || j >= dedupe_limit) implies r.contains(v[j]) by {
            assert(r[j] == v[j]);
        }
    }
}

/// With a deduplication window of 0 a store only adds the new entry.
pub proof fn law_zero_window_only_adds(v: Seq<EntryView>, b: Seq<u8>, size_limit: nat, timestamp: int)
    requires
        store_outcome(v, b, size_limit, timestamp) == Ok::<bool, StoreError>(true),
    ensures
        stored_entries(v, b, size_limit, 0, timestamp) == seq![(entry_name_of(timestamp, ext_of(b)), b)]
            + v,
{
    assert(v.take(0) =~= Seq::<EntryView>::empty());
    assert(v.skip(0) =~= v);
    assert(seq![(entry_name_of(timestamp, ext_of(b)), b)] + drop_copies(v.take(0), b) + v.skip(0) =~= seq![
        (entry_name_of(timestamp, ext_of(b)), b),
    ] + v);
}

/// Storing the same capture twice, under two new names and with every older
/// entry inside the deduplication window, leaves one entry with those bytes:
/// the second one; the first one's name is gone.
pub proof fn law_store_twice_keeps_newest(
    v: Seq<EntryView>,
    b: Seq<u8>,
    size_limit: nat,
    dedupe_limit: nat,
    t1: int,
    t2: int,
)
    requires
        !blank(b),
        b.len() <= size_limit,
        !has_name(v, entry_name_of(t1, ext_of(b))),
        !has_name(v, entry_name_of(t2, ext_of(b))),
        entry_name_of(t1, ext_of(b)) != entry_name_of(t2, ext_of(b)),
        v.len() <= dedupe_limit,
        dedupe_limit >= 1,
    ensures
        ({
            let c2 = stored_entries(
                stored_entries(v, b, size_limit, dedupe_limit, t1),
                b,
                size_limit,
                dedupe_limit,
                t2,
            );
            &&& c2.len() > 0
            &&& c2[0] == (entry_name_of(t2, ext_of(b)), b)
            &&& forall|i: int| 0 < i < c2.len() ==> (#[trigger] c2[i]).1 != b
            &&& forall|i: int| 0 <= i < c2.len() ==> (#[trigger] c2[i]).0 != entry_name_of(t1, ext_of(b))
        }),
{
    let n1 = entry_name_of(t1, ext_of(b));
    let n2 = entry_name_of(t2, ext_of(b));
    let c1 = stored_entries(v, b, size_limit, dedupe_limit, t1);
    let w0 = (dedupe_end_of(v.len() + 1, dedupe_limit) - 1) as int;
    assert(w0 == v.len());
    assert(v.take(w0) =~= v);
    assert(v.skip(w0) =~= Seq::<EntryView>::empty());
    lemma_drop_copies(v, b);
    let d0 = drop_copies(v, b);
    assert(c1 =~= seq![(n1, b)] + d0);
    assert forall|i: int| 0 < i < c1.len() implies (#[trigger] c1[i]).1 != b && c1[i].0 != n1 by {
        assert(c1[i] == d0[i - 1]);
        let k = choose|k: int| 0 <= k < v.len() && v[k] == d0[i - 1];
        if c1[i].0 == n1 {
            assert(v[k].0 == n1);
        }
    }
    assert(!has_name(c1, n2)) by {
        if has_name(c1, n2) {
            let i = choose|i: int| 0 <= i < c1.len() && #[trigger] c1[i].0 == n2;
            if i > 0 {
                let k = choose|k: int| 0 <= k < v.len() && v[k] == d0[i - 1];
                assert(c1[i] == d0[i - 1]);
                assert(v[k].0 == n2);
            }
        }
    }
    let w = (dedupe_end_of(c1.len() + 1, dedupe_limit) - 1) as int;
    assert(w >= 1);
    let c2 = stored_entries(c1, b, size_limit, dedupe_limit, t2);
    lemma_drop_copies(c1.take(w), b);
    let d = drop_copies(c1.take(w), b);
    assert(c2 =~= seq![(n2, b)] + d + c1.skip(w));
    assert forall|i: int| 0 < i < c2.len() implies (#[trigger] c2[i]).1 != b && c2[i].0 != n1 by {
        if i <= d.len() {
            assert(c2[i] == d[i - 1]);
            let k = choose|k: int| 0 <= k < c1.take(w).len() && c1.take(w)[k] == d[i - 1];
            assert(c1.take(w)[k] == c1[k]);
            if k == 0 {
                assert(c1[0].1 == b);
            }
        } else {
            assert(c2[i] == c1[i - 1 - d.len() + w]);
        }
    }
}

/// Removing the newest entry shortens the history by one, and each older
/// entry moves up one index.
pub proof fn law_delete_newest_shifts(c: Seq<EntryView>)
    requires
        c.len() > 0,
    ensures
        deleted_newest(c).len() == c.len() - 1,
        forall|i: int| 0 <= i < c.len() - 1 ==> #[trigger] deleted_newest(c)[i] == c[i + 1],
{
}

/// A text preview is one line, and it depends on the first `preview_length`
/// bytes of the entry alone.
pub proof fn law_text_preview_one_line(b: Seq<u8>, preview_length: nat)
    ensures
        !text_preview_of(b, preview_length).contains('\n'),
        text_preview_of(b, preview_length) == text_preview_of(prefix(b, preview_length), preview_length),
        prefix(b, preview_length).len() <= preview_length,
{
    let p = prefix(b, preview_length);
    assert(prefix(p, preview_length) =~= p);
    let t = trim(text_of(p));
    let o = one_line(t);
    assert forall|i: int| 0 <= i < o.len() implies #[trigger] o[i] != '\n' by {
        assert(o[i] == (if t[i] == '\n' { ' ' } else { t[i] }));
    }
}

proof fn lemma_unit_index_of_power(k: nat)
    ensures
        pow1024(k) > 0,
        unit_index(pow1024(k)) == k,
    decreases k,
{
    if k > 0 {
        lemma_unit_index_of_power((k - 1) as nat);
        let p = pow1024((k - 1) as nat);
        assert(pow1024(k) == 1024 * p);
        assert((1024 * p) / 1024 == p) by {
            vstd::arithmetic::div_mod::lemma_div_multiples_vanish(p as int, 1024);
        }
    } else {
        assert(unit_index(1) == 0);
    }
}

/// Each power of 1024 is shown as one of its own unit: 1024 bytes as
/// `"1.00 KiB"`, 1048576 as `"1.00 MiB"`, and so on.
pub proof fn law_human_size_of_unit(k: nat)
    ensures
        human_size(pow1024(k)) == seq!['1', '.', '0', '0', ' '] + unit_name(k),
{
    lemma_unit_index_of_power(k);
    let p = pow1024(k);
    assert((p * 100) / p == 100 && (p * 100) % p == 0) by {
        vstd::arithmetic::div_mod::lemma_div_multiples_vanish(100, p as int);
        vstd::arithmetic::div_mod::lemma_mod_multiples_vanish(100, 0, p as int);
        assert(p * 100 == 100 * p) by (nonlinear_arith);
    }
    reveal_with_fuel(crate::text::decimal, 2);
    assert(human_size(p) =~= seq!['1', '.', '0', '0', ' '] + unit_name(k));
}

} // verus!
