use vstd::prelude::*;

verus! {

/// The extension that `infer` gives to a buffer whose signature it knows.
pub uninterp spec fn sniffed(b: Seq<u8>) -> Option<Seq<char>>;

/// The characters that `std::str::from_utf8` decodes from a buffer, or `None`
/// where the buffer is not valid UTF-8.
pub uninterp spec fn utf8_decoded(b: Seq<u8>) -> Option<Seq<char>>;

/// Relies on `infer::get` and `infer::Type::extension`: the extension of the
/// first known magic-byte signature that the buffer matches.
#[verifier::external_body]
fn sniff(b: &[u8]) -> (r: Option<&'static str>)
    ensures
        match r {
            Some(e) => sniffed(b@) == Some(e@),
            None => sniffed(b@) is None,
        },
{
    match infer::get(b) {
        Some(kind) => Some(kind.extension()),
        None => None,
    }
}

/// Relies on `std::str::from_utf8`: the decoded text where the bytes are valid
/// UTF-8; each character takes at least one of the bytes.
#[verifier::external_body]
pub(crate) fn from_utf8(b: &[u8]) -> (r: Option<&str>)
    ensures
        match r {
            Some(s) => utf8_decoded(b@) == Some(s@) && s@.len() <= b@.len(),
            None => utf8_decoded(b@) is None,
        },
{
    std::str::from_utf8(b).ok()
}

/// The type tag of a buffer: the extension of its magic-byte signature if it
/// has a known one, else `"txt"` for valid UTF-8, else `"bin"`.
pub open spec fn ext_of(b: Seq<u8>) -> Seq<char> {
    match sniffed(b) {
        Some(e) => e,
        None => if utf8_decoded(b) is Some {
            seq!['t', 'x', 't']
        } else {
            seq!['b', 'i', 'n']
        },
    }
}

/// Classifies a buffer by its content alone.
pub fn get_ext(buffer: &[u8]) -> (r: &'static str)
    ensures
        r@ == ext_of(buffer@),
{
    proof {
        reveal_strlit("txt");
        reveal_strlit("bin");
        assert("txt"@ =~= seq!['t', 'x', 't']);
        assert("bin"@ =~= seq!['b', 'i', 'n']);
    }
    match sniff(buffer) {
        Some(e) => e,
        None => {
            if from_utf8(buffer).is_some() {
                "txt"
            } else {
                "bin"
            }
        },
    }
}

} // verus!
