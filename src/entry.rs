use vstd::prelude::*;
use crate::classify::{ext_of, get_ext};
use crate::text::{decimal, push_char, push_decimal};

verus! {

/// Why a capture was not stored.
#[derive(Clone, Copy, Debug, PartialEq, Eq, Structural)]
pub enum StoreError {
    /// The capture is larger than the configured size limit.
    TooLarge,
    /// An entry with the new entry's name is already stored.
    Exists,
}

/// Why an index does not select an entry.
#[derive(Clone, Copy, Debug, PartialEq, Eq, Structural)]
pub enum SelectError {
    /// No entry has that index.
    NotFound,
}

/// Why a selection line does not give an index.
#[derive(Clone, Copy, Debug, PartialEq, Eq, Structural)]
pub enum IdError {
    /// The line does not start with a digit.
    Missing,
    /// The leading digits are a number too large for a `usize`.
    Overflow,
}

/// ASCII whitespace as `u8::is_ascii_whitespace` has it.
pub open spec fn is_ws_byte(b: u8) -> bool {
    b == 32 || b == 9 || b == 10 || b == 12 || b == 13
}

fn is_ws_u8(c: u8) -> (r: bool)
    ensures
        r == is_ws_byte(c),
{
    c == 32 || c == 9 || c == 10 || c == 12 || c == 13
}

/// A capture that holds nothing but ASCII whitespace.
pub open spec fn blank(b: Seq<u8>) -> bool {
    forall|i: int| 0 <= i < b.len() ==> is_ws_byte(#[trigger] b[i])
}

/// What storing a capture comes to: nothing for a blank capture, an error for
/// one over the size limit, else a new entry with the capture's type tag.
pub open spec fn store_plan_of(b: Seq<u8>, size_limit: nat) -> Result<Option<Seq<char>>, StoreError> {
    if blank(b) {
        Ok(None)
    } else if b.len() > size_limit {
        Err(StoreError::TooLarge)
    } else {
        Ok(Some(ext_of(b)))
    }
}

/// Decides what storing `buffer` does; the tag of the new entry where one is due.
pub fn plan_store(buffer: &[u8], size_limit: usize) -> (r: Result<Option<&'static str>, StoreError>)
    ensures
        match (r, store_plan_of(buffer@, size_limit as nat)) {
            (Ok(None), Ok(None)) => true,
            (Ok(Some(t)), Ok(Some(u))) => t@ == u,
            (Err(e), Err(f)) => e == f,
            _ => false,
        },
{
    let mut i: usize = 0;
    while i < buffer.len() && is_ws_u8(buffer[i])
        invariant
            i <= buffer@.len(),
            forall|k: int| 0 <= k < i ==> is_ws_byte(#[trigger] buffer@[k]),
        decreases buffer@.len() - i,
    {
        i = i + 1;
    }
    if i == buffer.len() {
        return Ok(None);
    }
    assert(!blank(buffer@)) by {
        assert(!is_ws_byte(buffer@[i as int]));
    }
    if buffer.len() > size_limit {
        return Err(StoreError::TooLarge);
    }
    Ok(Some(get_ext(buffer)))
}

/// The decimal rendering of an integer, with a minus sign where it is negative.
pub open spec fn signed_decimal(n: int) -> Seq<char> {
    if n < 0 {
        seq!['-'] + decimal((-n) as nat)
    } else {
        decimal(n as nat)
    }
}

/// The storage name of an entry: `"{timestamp}.{tag}"`.
pub open spec fn entry_name_of(timestamp: int, tag: Seq<char>) -> Seq<char> {
    signed_decimal(timestamp) + seq!['.'] + tag
}

/// The storage name of an entry made at `timestamp` with type tag `tag`.
pub fn entry_name(timestamp: i64, tag: &str) -> (r: String)
    ensures
        r@ == entry_name_of(timestamp as int, tag@),
{
    let mut r = String::new();
    if timestamp < 0 {
        push_char(&mut r, '-');
        push_decimal(&mut r, (-(timestamp as i128)) as u64);
    } else {
        push_decimal(&mut r, timestamp as u64);
    }
    push_char(&mut r, '.');
    r.append(tag);
    assert(r@ =~= entry_name_of(timestamp as int, tag@));
    r
}

/// The end of the window of older entries that deduplication examines: in a
/// listing of `count` entries, newest first, it looks at indices from 1 up to
/// (not including) this one.
pub open spec fn dedupe_end_of(count: nat, limit: nat) -> nat {
    if count <= limit + 1 {
        count
    } else {
        limit + 1
    }
}

/// The end of the deduplication window (see `dedupe_end_of`).
pub fn dedupe_end(count: usize, limit: usize) -> (r: usize)
    ensures
        r == dedupe_end_of(count as nat, limit as nat),
{
    if count == 0 || count - 1 <= limit {
        count
    } else {
        limit + 1
    }
}

/// Whether two captures hold the same bytes.
pub fn same_content(a: &[u8], b: &[u8]) -> (r: bool)
    ensures
        r == (a@ == b@),
{
    if a.len() != b.len() {
        return false;
    }
    let mut i: usize = 0;
    while i < a.len()
        invariant
            a@.len() == b@.len(),
            i <= a@.len(),
            forall|k: int| 0 <= k < i ==> a@[k] == b@[k],
        decreases a@.len() - i,
    {
        if a[i] != b[i] {
            return false;
        }
        i = i + 1;
    }
    assert(a@ =~= b@);
    true
}

/// The entry at `index` in a listing, newest first.
pub fn select<T>(entries: &Vec<T>, index: usize) -> (r: Result<&T, SelectError>)
    ensures
        index < entries@.len() ==> r == Ok::<&T, SelectError>(&entries@[index as int]),
        index >= entries@.len() ==> r == Err::<&T, SelectError>(SelectError::NotFound),
{
    if index < entries.len() {
        Ok(&entries[index])
    } else {
        Err(SelectError::NotFound)
    }
}

/// An ASCII decimal digit.
pub open spec fn is_digit(c: u8) -> bool {
    48 <= c <= 57
}

/// The length of the run of ASCII digits that starts `s`.
pub open spec fn digit_run(s: Seq<u8>) -> nat
    decreases s.len(),
{
    if s.len() > 0 && is_digit(s[0]) {
        1 + digit_run(s.drop_first())
    } else {
        0
    }
}

/// The value of a string of decimal digits.
pub open spec fn digits_value(s: Seq<u8>) -> nat
    decreases s.len(),
{
    if s.len() == 0 {
        0
    } else {
        digits_value(s.drop_last()) * 10 + ((s.last() - 48) as nat)
    }
}

/// The index that a selection line starts with: the value of its leading
/// ASCII digits, which must be at least one and fit a `usize`.
pub open spec fn id_of(line: Seq<u8>) -> Result<nat, IdError> {
    let run = line.take(digit_run(line) as int);
    if run.len() == 0 {
        Err(IdError::Missing)
    } else if digits_value(run) > usize::MAX {
        Err(IdError::Overflow)
    } else {
        Ok(digits_value(run))
    }
}

proof fn lemma_value_prefix(s: Seq<u8>, i: int)
    requires
        0 <= i <= s.len(),
    ensures
        digits_value(s.take(i)) <= digits_value(s),
    decreases s.len(),
{
    if i < s.len() {
        assert(s.drop_last().take(i) =~= s.take(i));
        lemma_value_prefix(s.drop_last(), i);
    } else {
        assert(s.take(i) =~= s);
    }
}

proof fn lemma_digit_run_is(s: Seq<u8>, k: int)
    requires
        0 <= k <= s.len(),
        forall|j: int| 0 <= j < k ==> is_digit(#[trigger] s[j]),
        k == s.len() || !is_digit(s[k]),
    ensures
        digit_run(s) == k,
    decreases k,
{
    if k > 0 {
        assert forall|j: int| 0 <= j < k - 1 implies is_digit(#[trigger] s.drop_first()[j]) by {
            assert(s.drop_first()[j] == s[j + 1]);
        }
        if k < s.len() {
            assert(s.drop_first()[k - 1] == s[k]);
        }
        lemma_digit_run_is(s.drop_first(), k - 1);
    }
}

/// Reads the index that a selection line starts with (`"12\tsome text"` gives 12).
pub fn parse_id(line: &[u8]) -> (r: Result<usize, IdError>)
    ensures
        match (r, id_of(line@)) {
            (Ok(v), Ok(w)) => v as nat == w,
            (Err(e), Err(f)) => e == f,
            _ => false,
        },
{
    let mut k: usize = 0;
    while k < line.len() && 48 <= line[k] && line[k] <= 57
        invariant
            k <= line@.len(),
            forall|j: int| 0 <= j < k ==> is_digit(#[trigger] line@[j]),
        decreases line@.len() - k,
    {
        k = k + 1;
    }
    proof {
        lemma_digit_run_is(line@, k as int);
    }
    let ghost run = line@.take(k as int);
    if k == 0 {
        return Err(IdError::Missing);
    }
    let mut v: usize = 0;
    let mut i: usize = 0;
    while i < k
        invariant
            k <= line@.len(),
            run == line@.take(k as int),
            digit_run(line@) == k,
            i <= k,
            forall|j: int| 0 <= j < k ==> is_digit(#[trigger] line@[j]),
            v as nat == digits_value(run.take(i as int)),
        decreases k - i,
    {
        let d = (line[i] - 48) as usize;
        assert(run.take(i + 1).drop_last() =~= run.take(i as int));
        assert(run.take(i + 1).last() == line@[i as int]);
        if v > (usize::MAX - d) / 10 {
            proof {
                lemma_value_prefix(run, i + 1);
                assert(v * 10 + d > usize::MAX) by (nonlinear_arith)
                    requires
                        v > (usize::MAX - d) / 10,
                        d <= 9,
                ;
            }
            return Err(IdError::Overflow);
        }
        v = v * 10 + d;
        i = i + 1;
    }
    assert(run.take(k as int) =~= run);
    Ok(v)
}

} // verus!
