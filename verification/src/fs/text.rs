use vstd::prelude::*;
use vstd::utf8::{decode_utf8, valid_utf8};

verus! {

/// The text that `String::from_utf8_lossy` makes of `bytes`: their UTF-8
/// decoding, with each invalid sequence replaced by U+FFFD.
pub uninterp spec fn utf8_lossy(bytes: Seq<u8>) -> Seq<char>;

/// The text that `str::to_lowercase` makes of `s`: every character mapped
/// to its lowercase form by the Unicode tables.
pub uninterp spec fn lowercase(s: Seq<char>) -> Seq<char>;

/// `String::from_utf8_lossy`: the text of `bytes`, named by [`utf8_lossy`];
/// when the bytes are valid UTF-8 it is their decoding, as the function's
/// documentation states.
#[verifier::external_body]
pub(crate) fn from_utf8_lossy(bytes: &[u8]) -> (s: String)
    ensures
        s@ == utf8_lossy(bytes@),
        valid_utf8(bytes@) ==> s@ == decode_utf8(bytes@),
{
    String::from_utf8_lossy(bytes).into_owned()
}

/// `str::to_lowercase`: the lowercase form of `s`, named by [`lowercase`].
#[verifier::external_body]
pub(crate) fn to_lowercase(s: &str) -> (l: String)
    ensures
        l@ == lowercase(s@),
{
    s.to_lowercase()
}

/// `String::from_utf8`: the text of `bytes` when they are valid UTF-8.
#[verifier::external_body]
pub(crate) fn from_utf8(bytes: Vec<u8>) -> (s: Option<String>)
    ensures
        s is Some <==> valid_utf8(bytes@),
        s matches Some(t) ==> t@ == decode_utf8(bytes@),
{
    String::from_utf8(bytes).ok()
}

/// `String::from_iter` over characters: the string made of the characters
/// `chars`, in their order.
#[verifier::external_body]
pub(crate) fn string_of_chars(chars: &Vec<char>) -> (s: String)
    ensures
        s@ == chars@,
{
    String::from_iter(chars.iter())
}

/// The characters of `s`.
pub fn chars_of(s: &str) -> (v: Vec<char>)
    ensures
        v@ == s@,
{
    let mut v: Vec<char> = Vec::new();
    proof {
        broadcast use vstd::string::axiom_spec_iter;
    }
    for c in it: s.chars()
        invariant
            it.seq() == s@,
            v@ == s@.subrange(0, it.index() as int),
    {
        v.push(c);
    }
    v
}

/// `c` in lowercase when it is an ASCII capital letter, as it is otherwise.
pub open spec fn ascii_lower(c: char) -> char {
    if 'A' <= c <= 'Z' {
        ((c as u8) + 32) as char
    } else {
        c
    }
}

/// Whether `a` and `b` are equal but for the case of ASCII letters.
pub open spec fn eq_ignore_ascii_case_spec(a: Seq<char>, b: Seq<char>) -> bool {
    &&& a.len() == b.len()
    &&& forall|i: int| 0 <= i < a.len() ==> ascii_lower(#[trigger] a[i]) == ascii_lower(b[i])
}

/// Whether `a` and `b` are equal but for the case of ASCII letters.
pub fn eq_ignore_ascii_case(a: &Vec<char>, b: &Vec<char>) -> (r: bool)
    ensures
        r == eq_ignore_ascii_case_spec(a@, b@),
{
    if a.len() != b.len() {
        return false;
    }
    let mut i: usize = 0;
    while i < a.len()
        invariant
            a@.len() == b@.len(),
            i <= a@.len(),
            forall|j: int| 0 <= j < i ==> ascii_lower(#[trigger] a@[j]) == ascii_lower(b@[j]),
        decreases a@.len() - i,
    {
        let x = a[i];
        let y = b[i];
        let lx = if 'A' <= x && x <= 'Z' { ((x as u8) + 32) as char } else { x };
        let ly = if 'A' <= y && y <= 'Z' { ((y as u8) + 32) as char } else { y };
        if lx != ly {
            return false;
        }
        i = i + 1;
    }
    true
}

/// The parts of the path `p` between slashes, empty parts left out: the
/// state after its first `n` characters, as the parts done and the part
/// under way.
pub open spec fn path_parts_upto(p: Seq<char>, n: nat) -> (Seq<Seq<char>>, Seq<char>)
    decreases n,
{
    if n == 0 {
        (Seq::empty(), Seq::empty())
    } else {
        let (parts, cur) = path_parts_upto(p, (n - 1) as nat);
        if p[n - 1] == '/' {
            if cur.len() > 0 {
                (parts.push(cur), Seq::empty())
            } else {
                (parts, cur)
            }
        } else {
            (parts, cur.push(p[n - 1]))
        }
    }
}

/// The parts of the path `p` between slashes, empty parts left out.
pub open spec fn path_parts(p: Seq<char>) -> Seq<Seq<char>> {
    let (parts, cur) = path_parts_upto(p, p.len());
    if cur.len() > 0 {
        parts.push(cur)
    } else {
        parts
    }
}

/// The parts of the path `path` between slashes, empty parts left out.
pub fn split_path(path: &str) -> (parts: Vec<Vec<char>>)
    ensures
        parts@.len() == path_parts(path@).len(),
        forall|i: int| 0 <= i < parts@.len() ==> (#[trigger] parts@[i])@ == path_parts(path@)[i],
{
    let chars = chars_of(path);
    let mut parts: Vec<Vec<char>> = Vec::new();
    let mut cur: Vec<char> = Vec::new();
    let mut i: usize = 0;
    while i < chars.len()
        invariant
            chars@ == path@,
            i <= chars@.len(),
            ({
                let (ps, c) = path_parts_upto(chars@, i as nat);
                &&& parts@.len() == ps.len()
                &&& forall|j: int| 0 <= j < parts@.len() ==> (#[trigger] parts@[j])@ == ps[j]
                &&& cur@ == c
            }),
        decreases chars@.len() - i,
    {
        let c = chars[i];
        if c == '/' {
            if cur.len() > 0 {
                parts.push(cur);
                cur = Vec::new();
            }
        } else {
            cur.push(c);
        }
        i = i + 1;
    }
    if cur.len() > 0 {
        parts.push(cur);
    }
    parts
}

} // verus!
