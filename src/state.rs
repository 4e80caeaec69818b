use vstd::prelude::*;

verus! {

/// The state that the clipboard tool reports with each change.
#[derive(Clone, Copy, Debug, PartialEq, Eq, Structural)]
pub enum ClipboardState {
    Nil,
    Sensitive,
    Clear,
    Data,
    Unknown,
}

/// What a store request does, given the reported clipboard state.
#[derive(Clone, Copy, Debug, PartialEq, Eq, Structural)]
pub enum StoreAction {
    /// Nothing is recorded.
    Ignore,
    /// The most recent entry is removed.
    DeleteNewest,
    /// The new content is stored.
    Store,
}

/// What `str::to_lowercase` makes of a string.
pub uninterp spec fn lower_of(s: Seq<char>) -> Seq<char>;

/// Relies on `str::to_lowercase`: the result depends on the characters alone.
#[verifier::external_body]
fn lowercase(s: &str) -> (r: String)
    ensures
        r@ == lower_of(s@),
{
    s.to_lowercase()
}

/// The state that a lowercase state name stands for; any other name is `Unknown`.
pub open spec fn state_named(s: Seq<char>) -> ClipboardState {
    if s == seq!['n', 'i', 'l'] {
        ClipboardState::Nil
    } else if s == seq!['s', 'e', 'n', 's', 'i', 't', 'i', 'v', 'e'] {
        ClipboardState::Sensitive
    } else if s == seq!['c', 'l', 'e', 'a', 'r'] {
        ClipboardState::Clear
    } else if s == seq!['d', 'a', 't', 'a'] {
        ClipboardState::Data
    } else {
        ClipboardState::Unknown
    }
}

/// Whether two strings hold the same characters.
pub fn same_chars(a: &str, b: &str) -> (r: bool)
    ensures
        r == (a@ == b@),
{
    let n = a.unicode_len();
    if n != b.unicode_len() {
        return false;
    }
    let mut i: usize = 0;
    while i < n
        invariant
            n == a@.len(),
            n == b@.len(),
            i <= n,
            forall|k: int| 0 <= k < i ==> a@[k] == b@[k],
        decreases n - i,
    {
        if a.get_char(i) != b.get_char(i) {
            return false;
        }
        i = i + 1;
    }
    assert(a@ =~= b@);
    true
}

/// The state named by an already lowercased string.
pub fn state_from_lowercase(v: &str) -> (r: ClipboardState)
    ensures
        r == state_named(v@),
{
    proof {
        reveal_strlit("nil");
        reveal_strlit("sensitive");
        reveal_strlit("clear");
        reveal_strlit("data");
        assert("nil"@ =~= seq!['n', 'i', 'l']);
        assert("sensitive"@ =~= seq!['s', 'e', 'n', 's', 'i', 't', 'i', 'v', 'e']);
        assert("clear"@ =~= seq!['c', 'l', 'e', 'a', 'r']);
        assert("data"@ =~= seq!['d', 'a', 't', 'a']);
    }
    if same_chars(v, "nil") {
        ClipboardState::Nil
    } else if same_chars(v, "sensitive") {
        ClipboardState::Sensitive
    } else if same_chars(v, "clear") {
        ClipboardState::Clear
    } else if same_chars(v, "data") {
        ClipboardState::Data
    } else {
        ClipboardState::Unknown
    }
}

impl ClipboardState {
    /// Reads a state name, ignoring case; an unrecognised name is `Unknown`,
    /// so this never fails.
    pub fn from_str(v: &str) -> (r: Result<ClipboardState, String>)
        ensures
            r == Ok::<ClipboardState, String>(state_named(lower_of(v@))),
    {
        let lower = lowercase(v);
        Ok(state_from_lowercase(lower.as_str()))
    }

    /// What a store request does in this state.
    pub fn action(self) -> (r: StoreAction)
        ensures
            r == (match self {
                ClipboardState::Nil | ClipboardState::Sensitive => StoreAction::Ignore,
                ClipboardState::Clear => StoreAction::DeleteNewest,
                ClipboardState::Data | ClipboardState::Unknown => StoreAction::Store,
            }),
    {
        match self {
            ClipboardState::Nil | ClipboardState::Sensitive => StoreAction::Ignore,
            ClipboardState::Clear => StoreAction::DeleteNewest,
            ClipboardState::Data | ClipboardState::Unknown => StoreAction::Store,
        }
    }
}

} // verus!
