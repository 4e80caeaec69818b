use vstd::prelude::*;
use crate::classify::{from_utf8, utf8_decoded};
use crate::size::{get_human_readable_size, human_size};
use crate::state::same_chars;
use crate::text::{decimal, push_char, push_decimal};

verus! {

/// ASCII whitespace as `u8::is_ascii_whitespace` has it.
pub open spec fn is_ascii_ws(c: char) -> bool {
    c == ' ' || c == '\t' || c == '\n' || c == '\x0C' || c == '\r'
}

/// `s` without its leading ASCII whitespace.
pub open spec fn trim_start(s: Seq<char>) -> Seq<char>
    decreases s.len(),
{
    if s.len() > 0 && is_ascii_ws(s[0]) {
        trim_start(s.drop_first())
    } else {
        s
    }
}

/// `s` without its trailing ASCII whitespace.
pub open spec fn trim_end(s: Seq<char>) -> Seq<char>
    decreases s.len(),
{
    if s.len() > 0 && is_ascii_ws(s.last()) {
        trim_end(s.drop_last())
    } else {
        s
    }
}

/// `s` without leading or trailing ASCII whitespace.
pub open spec fn trim(s: Seq<char>) -> Seq<char> {
    trim_end(trim_start(s))
}

/// Each byte read as the character with that code point.
pub open spec fn latin1(b: Seq<u8>) -> Seq<char> {
    b.map_values(|x: u8| x as char)
}

/// `s` with each newline replaced by a space.
pub open spec fn one_line(s: Seq<char>) -> Seq<char> {
    s.map_values(|c: char| if c == '\n' { ' ' } else { c })
}

/// The text of a buffer: its UTF-8 decoding, or byte by byte where it is not valid UTF-8.
pub open spec fn text_of(b: Seq<u8>) -> Seq<char> {
    match utf8_decoded(b) {
        Some(s) => s,
        None => latin1(b),
    }
}

/// The first `n` bytes of `b`, or all of them where there are fewer.
pub open spec fn prefix(b: Seq<u8>, n: nat) -> Seq<u8> {
    if b.len() <= n {
        b
    } else {
        b.take(n as int)
    }
}

/// The preview of a text entry whose content starts with `b`.
pub open spec fn text_preview_of(b: Seq<u8>, preview_length: nat) -> Seq<char> {
    one_line(trim(text_of(prefix(b, preview_length))))
}

/// The placeholder shown for an entry that is not text.
pub open spec fn binary_preview_of(size: nat, ext: Seq<char>) -> Seq<char> {
    seq!['[', '[', ' ', 'b', 'i', 'n', 'a', 'r', 'y', ' ', 'd', 'a', 't', 'a', ' '] + human_size(size)
        + seq![' '] + ext + seq![' ', ']', ']']
}

/// One line of the listing: the index, a tab, the preview.
pub open spec fn list_line_of(index: nat, preview: Seq<char>) -> Seq<char> {
    decimal(index) + seq!['\t'] + preview
}

/// The index of the last `.` in `s`, or -1.
pub open spec fn last_dot(s: Seq<char>) -> int
    decreases s.len(),
{
    if s.len() == 0 {
        -1
    } else if s.last() == '.' {
        s.len() - 1
    } else {
        last_dot(s.drop_last())
    }
}

/// The type tag of an entry name: what follows its last `.`, where something
/// precedes that dot; else `"bin"`.
pub open spec fn tag_of_name(name: Seq<char>) -> Seq<char> {
    if last_dot(name) > 0 {
        name.subrange(last_dot(name) + 1, name.len() as int)
    } else {
        seq!['b', 'i', 'n']
    }
}

proof fn lemma_last_dot(s: Seq<char>)
    ensures
        -1 <= last_dot(s) < s.len(),
        last_dot(s) >= 0 ==> s[last_dot(s)] == '.',
        forall|k: int| last_dot(s) < k < s.len() ==> s[k] != '.',
    decreases s.len(),
{
    if s.len() > 0 && s.last() != '.' {
        lemma_last_dot(s.drop_last());
        assert forall|k: int| last_dot(s) < k < s.len() implies s[k] != '.' by {
            if k < s.len() - 1 {
                assert(s.drop_last()[k] == s[k]);
            }
        }
    }
}

/// The characters of `s` from `from` up to `to`, as a new string.
fn copy_chars(s: &str, from: usize, to: usize) -> (r: String)
    requires
        from <= to <= s@.len(),
    ensures
        r@ == s@.subrange(from as int, to as int),
{
    let mut r = String::new();
    let mut i = from;
    while i < to
        invariant
            from <= i <= to <= s@.len(),
            r@ == s@.subrange(from as int, i as int),
        decreases to - i,
    {
        push_char(&mut r, s.get_char(i));
        i = i + 1;
        assert(r@ =~= s@.subrange(from as int, i as int));
    }
    r
}

/// The type tag that an entry's name carries.
pub fn entry_tag(name: &str) -> (r: String)
    ensures
        r@ == tag_of_name(name@),
{
    let n = name.unicode_len();
    let mut i = n;
    proof {
        lemma_last_dot(name@);
        assert(name@.take(n as int) =~= name@);
    }
    while i > 0 && name.get_char(i - 1) != '.'
        invariant
            i <= n == name@.len(),
            last_dot(name@) == last_dot(name@.take(i as int)),
        decreases i,
    {
        assert(name@.take(i as int).drop_last() =~= name@.take(i - 1));
        i = i - 1;
    }
    if i > 0 {
        assert(last_dot(name@.take(i as int)) == i - 1);
    } else {
        assert(name@.take(0) =~= Seq::<char>::empty());
    }
    if i > 1 {
        copy_chars(name, i, n)
    } else {
        proof {
            reveal_strlit("bin");
            assert("bin"@ =~= seq!['b', 'i', 'n']);
        }
        String::from_str("bin")
    }
}

/// Whether an entry with this tag is previewed by its text.
pub fn is_text_tag(tag: &str) -> (r: bool)
    ensures
        r == (tag@ == seq!['t', 'x', 't']),
{
    proof {
        reveal_strlit("txt");
        assert("txt"@ =~= seq!['t', 'x', 't']);
    }
    same_chars(tag, "txt")
}

/// The characters of `b`: its UTF-8 decoding, or each byte as one character.
fn decode_text(b: &[u8]) -> (r: Vec<char>)
    ensures
        r@ == text_of(b@),
        r@.len() <= b@.len(),
{
    let mut r: Vec<char> = Vec::new();
    match from_utf8(b) {
        Some(s) => {
            let n = s.unicode_len();
            let mut i: usize = 0;
            while i < n
                invariant
                    n == s@.len(),
                    i <= n,
                    r@ == s@.take(i as int),
                decreases n - i,
            {
                r.push(s.get_char(i));
                i = i + 1;
                assert(r@ =~= s@.take(i as int));
            }
            assert(r@ =~= s@);
        },
        None => {
            let mut i: usize = 0;
            while i < b.len()
                invariant
                    i <= b@.len(),
                    r@ == latin1(b@.take(i as int)),
                decreases b@.len() - i,
            {
                r.push(b[i] as char);
                i = i + 1;
                assert(r@ =~= latin1(b@.take(i as int)));
            }
            assert(b@.take(i as int) =~= b@);
        },
    }
    r
}

/// The bounds of `t` without its leading and trailing ASCII whitespace.
fn trim_bounds(t: &Vec<char>) -> (r: (usize, usize))
    ensures
        r.0 <= r.1 <= t@.len(),
        t@.subrange(r.0 as int, r.1 as int) == trim(t@),
{
    let n = t.len();
    let mut a: usize = 0;
    assert(t@.subrange(0, n as int) =~= t@);
    while a < n && is_ws(t[a])
        invariant
            a <= n == t@.len(),
            trim_start(t@) == trim_start(t@.subrange(a as int, n as int)),
        decreases n - a,
    {
        assert(t@.subrange(a as int, n as int).drop_first() =~= t@.subrange(a + 1, n as int));
        a = a + 1;
    }
    let mut z: usize = n;
    assert(trim_start(t@) == t@.subrange(a as int, n as int));
    while z > a && is_ws(t[z - 1])
        invariant
            a <= z <= n == t@.len(),
            trim(t@) == trim_end(t@.subrange(a as int, z as int)),
        decreases z,
    {
        assert(t@.subrange(a as int, z as int).drop_last() =~= t@.subrange(a as int, z - 1));
        z = z - 1;
    }
    (a, z)
}

fn is_ws(c: char) -> (r: bool)
    ensures
        r == is_ascii_ws(c),
{
    c == ' ' || c == '\t' || c == '\n' || c == '\x0C' || c == '\r'
}

/// The one-line preview of a text entry whose content starts with `content`:
/// at most `preview_length` bytes of it are decoded, trimmed of ASCII
/// whitespace, and each newline becomes a space.
pub fn text_preview(content: &[u8], preview_length: usize) -> (r: String)
    ensures
        r@ == text_preview_of(content@, preview_length as nat),
        r@.len() <= preview_length,
{
    let m = if content.len() <= preview_length { content.len() } else { preview_length };
    let (head, _) = content.split_at(m);
    assert(head@ =~= prefix(content@, preview_length as nat));
    let t = decode_text(head);
    let (a, z) = trim_bounds(&t);
    let ghost u = t@.subrange(a as int, z as int);
    let mut r = String::new();
    let mut i = a;
    while i < z
        invariant
            a <= i <= z <= t@.len(),
            u == t@.subrange(a as int, z as int),
            r@ == one_line(u.take(i - a)),
        decreases z - i,
    {
        let c = t[i];
        push_char(&mut r, if c == '\n' { ' ' } else { c });
        i = i + 1;
        assert(r@ =~= one_line(u.take(i - a)));
    }
    assert(u.take(z - a) =~= u);
    r
}

/// The placeholder for an entry that is not text: its size and its tag
/// (`"[[ binary data 2.00 MiB png ]]"`).
pub fn binary_preview(size: u64, tag: &str) -> (r: String)
    ensures
        r@ == binary_preview_of(size as nat, tag@),
{
    proof {
        reveal_strlit("[[ binary data ");
        reveal_strlit(" ]]");
    }
    let mut r = String::from_str("[[ binary data ");
    let h = get_human_readable_size(size);
    r.append(h.as_str());
    push_char(&mut r, ' ');
    r.append(tag);
    r.append(" ]]");
    assert(r@ =~= binary_preview_of(size as nat, tag@));
    r
}

/// One line of the listing: `"{index}\t{preview}"`.
pub fn list_line(index: usize, preview: &str) -> (r: String)
    ensures
        r@ == list_line_of(index as nat, preview@),
{
    let mut r = String::new();
    push_decimal(&mut r, index as u64);
    push_char(&mut r, '\t');
    r.append(preview);
    assert(r@ =~= list_line_of(index as nat, preview@));
    r
}

} // verus!
