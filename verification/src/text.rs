//! Character-level utilities: string/char-vector conversion, substring
//! search, and the whitespace test used to decide whether a secret is
//! worth copying.
use vstd::prelude::*;

verus! {

broadcast use vstd::string::axiom_spec_iter;

/// `needle` occurs in `hay` starting at position `i`.
pub open spec fn seq_contains_at(hay: Seq<char>, needle: Seq<char>, i: int) -> bool {
    &&& 0 <= i
    &&& i + needle.len() <= hay.len()
    &&& hay.subrange(i, i + needle.len() as int) == needle
}

/// `needle` occurs somewhere in `hay`.
pub open spec fn seq_contains(hay: Seq<char>, needle: Seq<char>) -> bool {
    exists|i: int| seq_contains_at(hay, needle, i)
}

/// The characters of `s`, as a vector.
pub fn str_to_chars(s: &str) -> (r: Vec<char>)
    ensures
        r@ == s@,
{
    let mut r: Vec<char> = Vec::new();
    for c in it: s.chars()
        invariant
            it.seq() == s@,
            r@ =~= it.seq().take(it.index() as int),
    {
        r.push(c);
    }
    proof {
        assert(r@ =~= s@);
    }
    r
}

/// Relies on `String`'s `FromIterator<char>` implementation: collecting
/// an iterator of chars yields the string of exactly those chars, in order.
#[verifier::external_body]
pub fn chars_to_string(v: &Vec<char>) -> (r: String)
    ensures
        r@ == v@,
{
    v.iter().collect()
}

/// Whether `needle` matches `hay` at position `i`.
fn match_at(hay: &Vec<char>, needle: &Vec<char>, i: usize) -> (b: bool)
    requires
        i + needle@.len() <= hay@.len(),
    ensures
        b == seq_contains_at(hay@, needle@, i as int),
{
    let mut ok = true;
    let hay_len = hay.len();
    for j in 0..needle.len()
        invariant
            hay@.len() == hay_len,
            i + needle@.len() <= hay@.len(),
            ok <==> (forall|k: int| 0 <= k < j ==> hay@[i + k] == needle@[k]),
    {
        if hay[i + j] != needle[j] {
            ok = false;
        }
    }
    proof {
        let sub = hay@.subrange(i as int, i + needle@.len() as int);
        if ok {
            assert(sub =~= needle@);
        } else {
            let k = choose|k: int| 0 <= k < needle@.len() && hay@[i + k] != needle@[k];
            assert(sub[k] != needle@[k]);
        }
    }
    ok
}

/// Whether `needle` occurs anywhere in `hay`.
pub fn chars_contain(hay: &Vec<char>, needle: &Vec<char>) -> (b: bool)
    ensures
        b == seq_contains(hay@, needle@),
{
    if needle.len() == 0 {
        proof {
            assert(hay@.subrange(0, 0) =~= needle@);
            assert(seq_contains_at(hay@, needle@, 0));
        }
        return true;
    }
    if needle.len() > hay.len() {
        proof {
            assert forall|i: int| !seq_contains_at(hay@, needle@, i) by {}
        }
        return false;
    }
    let mut found = false;
    let end = hay.len() - needle.len() + 1;
    for i in 0..end
        invariant
            end == hay@.len() - needle@.len() + 1,
            needle@.len() <= hay@.len(),
            found <==> (exists|j: int| 0 <= j < i && seq_contains_at(hay@, needle@, j)),
    {
        if match_at(hay, needle, i) {
            found = true;
        }
    }
    proof {
        if seq_contains(hay@, needle@) {
            let j = choose|j: int| seq_contains_at(hay@, needle@, j);
            assert(0 <= j < end);
        }
    }
    found
}

/// The whitespace characters, as Rust's `char::is_whitespace` documents
/// them: the Unicode `White_Space` property.
pub open spec fn is_whitespace_char(c: char) -> bool {
    ||| c == '\t'
    ||| c == '\n'
    ||| c == '\u{B}'
    ||| c == '\u{C}'
    ||| c == '\r'
    ||| c == ' '
    ||| c == '\u{85}'
    ||| c == '\u{A0}'
    ||| c == '\u{1680}'
    ||| c == '\u{2000}'
    ||| c == '\u{2001}'
    ||| c == '\u{2002}'
    ||| c == '\u{2003}'
    ||| c == '\u{2004}'
    ||| c == '\u{2005}'
    ||| c == '\u{2006}'
    ||| c == '\u{2007}'
    ||| c == '\u{2008}'
    ||| c == '\u{2009}'
    ||| c == '\u{200A}'
    ||| c == '\u{2028}'
    ||| c == '\u{2029}'
    ||| c == '\u{202F}'
    ||| c == '\u{205F}'
    ||| c == '\u{3000}'
}

/// A string is blank when every character is whitespace; in particular
/// the empty string is blank.
pub open spec fn is_blank(s: Seq<char>) -> bool {
    forall|i: int| 0 <= i < s.len() ==> is_whitespace_char(s[i])
}

fn whitespace_char(c: char) -> (b: bool)
    ensures
        b == is_whitespace_char(c),
{
    c == '\t' || c == '\n' || c == '\u{B}' || c == '\u{C}' || c == '\r' || c == ' '
        || c == '\u{85}' || c == '\u{A0}' || c == '\u{1680}' || c == '\u{2000}'
        || c == '\u{2001}' || c == '\u{2002}' || c == '\u{2003}' || c == '\u{2004}'
        || c == '\u{2005}' || c == '\u{2006}' || c == '\u{2007}' || c == '\u{2008}'
        || c == '\u{2009}' || c == '\u{200A}' || c == '\u{2028}' || c == '\u{2029}'
        || c == '\u{202F}' || c == '\u{205F}' || c == '\u{3000}'
}

/// Whether `s` is empty or consists of whitespace only.
pub fn str_is_blank(s: &str) -> (b: bool)
    ensures
        b == is_blank(s@),
{
    let chars = str_to_chars(s);
    let mut blank = true;
    for i in 0..chars.len()
        invariant
            chars@ == s@,
            blank <==> (forall|j: int| 0 <= j < i ==> is_whitespace_char(s@[j])),
    {
        if !whitespace_char(chars[i]) {
            blank = false;
        }
    }
    blank
}

} // verus!
